//! The operation syntax that plan nodes are made of.
//!
//! Every type has a view: the same tree over mathematical strings and sequences. The contracts of
//! the planner speak of these views, so a copied tree counts as the tree that it was copied from.

use vstd::prelude::*;

verus! {

/// A literal or a variable in an argument or a default value.
#[derive(Debug)]
pub enum InputValue {
    Variable(String),
    Int(i64),
    /// A floating-point literal, as it is written.
    Float(String),
    String(String),
    Boolean(bool),
    Null,
    Enum(String),
    List(Vec<InputValue>),
    Object(Vec<(String, InputValue)>),
}

/// The view of a [`InputValue`].
pub enum InputValueView {
    Variable(Seq<char>),
    Int(i64),
    Float(Seq<char>),
    String(Seq<char>),
    Boolean(bool),
    Null,
    Enum(Seq<char>),
    List(Seq<InputValueView>),
    Object(Seq<(Seq<char>, InputValueView)>),
}

pub open spec fn input_value_view(value: InputValue) -> InputValueView
    decreases value,
{
    match value {
        InputValue::Variable(name) => InputValueView::Variable(name@),
        InputValue::Int(number) => InputValueView::Int(number),
        InputValue::Float(text) => InputValueView::Float(text@),
        InputValue::String(text) => InputValueView::String(text@),
        InputValue::Boolean(b) => InputValueView::Boolean(b),
        InputValue::Null => InputValueView::Null,
        InputValue::Enum(name) => InputValueView::Enum(name@),
        InputValue::List(items) => InputValueView::List(
            Seq::new(
                items@.len(),
                |i: int|
                    if 0 <= i < items@.len() {
                        input_value_view(items@[i])
                    } else {
                        arbitrary()
                    },
            ),
        ),
        InputValue::Object(entries) => InputValueView::Object(
            Seq::new(
                entries@.len(),
                |i: int|
                    if 0 <= i < entries@.len() {
                        (entries@[i].0@, input_value_view(entries@[i].1))
                    } else {
                        arbitrary()
                    },
            ),
        ),
    }
}

impl View for InputValue {
    type V = InputValueView;

    open spec fn view(&self) -> InputValueView {
        input_value_view(*self)
    }
}

impl Clone for InputValue {
    fn clone(&self) -> (copy: Self)
        ensures
            copy@ == self@,
        decreases self,
    {
        match self {
            InputValue::Variable(name) => InputValue::Variable(name.clone()),
            InputValue::Int(number) => InputValue::Int(*number),
            InputValue::Float(text) => InputValue::Float(text.clone()),
            InputValue::String(text) => InputValue::String(text.clone()),
            InputValue::Boolean(b) => InputValue::Boolean(*b),
            InputValue::Null => InputValue::Null,
            InputValue::Enum(name) => InputValue::Enum(name.clone()),
            InputValue::List(items) => {
                let mut copies: Vec<InputValue> = Vec::new();
                for i in 0..items.len()
                    invariant
                        copies@.len() == i,
                        decreases_to!(self => items),
                        forall|j: int| 0 <= j < i ==> copies@[j]@ == items@[j]@,
                {
                    copies.push(items[i].clone());
                }
                let copy = InputValue::List(copies);
                assert(copy@->List_0 =~= self@->List_0);
                copy
            },
            InputValue::Object(entries) => {
                let mut copies: Vec<(String, InputValue)> = Vec::new();
                for i in 0..entries.len()
                    invariant
                        copies@.len() == i,
                        decreases_to!(self => entries),
                        forall|j: int|
                            0 <= j < i ==> copies@[j].0@ == entries@[j].0@ && copies@[j].1@
                                == entries@[j].1@,
                {
                    copies.push((entries[i].0.clone(), entries[i].1.clone()));
                }
                let copy = InputValue::Object(copies);
                assert(copy@->Object_0 =~= self@->Object_0);
                copy
            },
        }
    }
}

/// The text of an optional name.
pub open spec fn opt_text(name: Option<String>) -> Option<Seq<char>> {
    match name {
        Some(name) => Some(name@),
        None => None,
    }
}

/// The arguments of a field, each name with its value.
#[derive(Debug)]
pub struct ArgumentsMap {
    pub arguments: Vec<(String, InputValue)>,
}

impl View for ArgumentsMap {
    type V = Seq<(Seq<char>, InputValueView)>;

    open spec fn view(&self) -> Seq<(Seq<char>, InputValueView)> {
        self.arguments@.map_values(|argument: (String, InputValue)| (argument.0@, argument.1@))
    }
}

impl ArgumentsMap {
    /// The arguments that hold one value under one name.
    pub fn single(name: String, value: InputValue) -> (arguments: Self)
        ensures
            arguments@ == seq![(name@, value@)],
    {
        let mut arguments: Vec<(String, InputValue)> = Vec::new();
        arguments.push((name, value));
        let map = ArgumentsMap { arguments };
        assert(map@ =~= seq![(name@, value@)]);
        map
    }
}

impl Clone for ArgumentsMap {
    fn clone(&self) -> (copy: Self)
        ensures
            copy@ == self@,
    {
        let mut copies: Vec<(String, InputValue)> = Vec::new();
        for i in 0..self.arguments.len()
            invariant
                copies@.len() == i,
                forall|j: int|
                    0 <= j < i ==> copies@[j].0@ == self.arguments@[j].0@ && copies@[j].1@
                        == self.arguments@[j].1@,
        {
            copies.push((self.arguments[i].0.clone(), self.arguments[i].1.clone()));
        }
        let copy = ArgumentsMap { arguments: copies };
        assert(copy@ =~= self@);
        copy
    }
}

/// The fields and fragments selected on one type.
#[derive(Debug)]
pub struct SelectionSet {
    pub items: Vec<SelectionItem>,
}

/// One entry of a [`SelectionSet`].
#[derive(Debug)]
pub enum SelectionItem {
    Field(FieldSelection),
    InlineFragment(InlineFragmentSelection),
    FragmentSpread(String),
}

/// A selected field.
#[derive(Debug)]
pub struct FieldSelection {
    pub name: String,
    pub selections: SelectionSet,
    pub alias: Option<String>,
    pub arguments: Option<ArgumentsMap>,
    pub skip_if: Option<String>,
    pub include_if: Option<String>,
}

/// Selections that apply to one type only.
#[derive(Debug)]
pub struct InlineFragmentSelection {
    pub selections: SelectionSet,
    pub type_condition: String,
    pub skip_if: Option<String>,
    pub include_if: Option<String>,
}

/// The view of a [`SelectionItem`].
pub enum SelectionItemView {
    Field(FieldSelectionView),
    InlineFragment(InlineFragmentView),
    FragmentSpread(Seq<char>),
}

/// The view of a [`FieldSelection`].
pub struct FieldSelectionView {
    pub name: Seq<char>,
    pub selections: Seq<SelectionItemView>,
    pub alias: Option<Seq<char>>,
    pub arguments: Option<Seq<(Seq<char>, InputValueView)>>,
    pub skip_if: Option<Seq<char>>,
    pub include_if: Option<Seq<char>>,
}

/// The view of an [`InlineFragmentSelection`].
pub struct InlineFragmentView {
    pub selections: Seq<SelectionItemView>,
    pub type_condition: Seq<char>,
    pub skip_if: Option<Seq<char>>,
    pub include_if: Option<Seq<char>>,
}

pub open spec fn selection_set_view(set: SelectionSet) -> Seq<SelectionItemView>
    decreases set,
{
    Seq::new(
        set.items@.len(),
        |i: int|
            if 0 <= i < set.items@.len() {
                selection_item_view(set.items@[i])
            } else {
                arbitrary()
            },
    )
}

pub open spec fn selection_item_view(item: SelectionItem) -> SelectionItemView
    decreases item,
{
    match item {
        SelectionItem::Field(field) => SelectionItemView::Field(
            FieldSelectionView {
                name: field.name@,
                selections: selection_set_view(field.selections),
                alias: opt_text(field.alias),
                arguments: match field.arguments {
                    Some(arguments) => Some(arguments@),
                    None => None,
                },
                skip_if: opt_text(field.skip_if),
                include_if: opt_text(field.include_if),
            },
        ),
        SelectionItem::InlineFragment(fragment) => SelectionItemView::InlineFragment(
            InlineFragmentView {
                selections: selection_set_view(fragment.selections),
                type_condition: fragment.type_condition@,
                skip_if: opt_text(fragment.skip_if),
                include_if: opt_text(fragment.include_if),
            },
        ),
        SelectionItem::FragmentSpread(name) => SelectionItemView::FragmentSpread(name@),
    }
}

impl View for SelectionSet {
    type V = Seq<SelectionItemView>;

    open spec fn view(&self) -> Seq<SelectionItemView> {
        selection_set_view(*self)
    }
}

impl View for SelectionItem {
    type V = SelectionItemView;

    open spec fn view(&self) -> SelectionItemView {
        selection_item_view(*self)
    }
}

impl Clone for SelectionSet {
    fn clone(&self) -> (copy: Self)
        ensures
            copy@ == self@,
        decreases self,
    {
        let mut items: Vec<SelectionItem> = Vec::new();
        for i in 0..self.items.len()
            invariant
                items@.len() == i,
                forall|j: int| 0 <= j < i ==> items@[j]@ == self.items@[j]@,
        {
            items.push(self.items[i].clone());
        }
        let copy = SelectionSet { items };
        assert(copy@ =~= self@);
        copy
    }
}

impl Clone for SelectionItem {
    fn clone(&self) -> (copy: Self)
        ensures
            copy@ == self@,
        decreases self,
    {
        match self {
            SelectionItem::Field(field) => SelectionItem::Field(
                FieldSelection {
                    name: field.name.clone(),
                    selections: field.selections.clone(),
                    alias: field.alias.clone(),
                    arguments: field.arguments.clone(),
                    skip_if: field.skip_if.clone(),
                    include_if: field.include_if.clone(),
                },
            ),
            SelectionItem::InlineFragment(fragment) => SelectionItem::InlineFragment(
                InlineFragmentSelection {
                    selections: fragment.selections.clone(),
                    type_condition: fragment.type_condition.clone(),
                    skip_if: fragment.skip_if.clone(),
                    include_if: fragment.include_if.clone(),
                },
            ),
            SelectionItem::FragmentSpread(name) => SelectionItem::FragmentSpread(name.clone()),
        }
    }
}

/// The kind of a GraphQL operation.
#[derive(Debug, Clone, Copy, PartialEq, Eq, Structural)]
pub enum OperationKind {
    Query,
    Mutation,
    Subscription,
}

/// A type as a variable declares it.
#[derive(Debug)]
pub enum TypeNode {
    Named(String),
    List(Box<TypeNode>),
    NonNull(Box<TypeNode>),
}

impl Clone for TypeNode {
    fn clone(&self) -> (copy: Self)
        ensures
            copy == *self,
        decreases self,
    {
        match self {
            TypeNode::Named(name) => TypeNode::Named(name.clone()),
            TypeNode::List(inner) => TypeNode::List(Box::new((**inner).clone())),
            TypeNode::NonNull(inner) => TypeNode::NonNull(Box::new((**inner).clone())),
        }
    }
}

/// The view of a [`TypeNode`].
pub enum TypeNodeView {
    Named(Seq<char>),
    List(Box<TypeNodeView>),
    NonNull(Box<TypeNodeView>),
}

pub open spec fn type_node_view(node: TypeNode) -> TypeNodeView
    decreases node,
{
    match node {
        TypeNode::Named(name) => TypeNodeView::Named(name@),
        TypeNode::List(inner) => TypeNodeView::List(Box::new(type_node_view(*inner))),
        TypeNode::NonNull(inner) => TypeNodeView::NonNull(Box::new(type_node_view(*inner))),
    }
}

impl View for TypeNode {
    type V = TypeNodeView;

    open spec fn view(&self) -> TypeNodeView {
        type_node_view(*self)
    }
}

/// A variable that an operation declares.
#[derive(Debug)]
pub struct VariableDefinition {
    pub name: String,
    pub variable_type: TypeNode,
    pub default_value: Option<InputValue>,
}

/// The view of a [`VariableDefinition`].
pub struct VariableDefinitionView {
    pub name: Seq<char>,
    pub variable_type: TypeNodeView,
    pub default_value: Option<InputValueView>,
}

impl View for VariableDefinition {
    type V = VariableDefinitionView;

    open spec fn view(&self) -> VariableDefinitionView {
        VariableDefinitionView {
            name: self.name@,
            variable_type: self.variable_type@,
            default_value: match self.default_value {
                Some(value) => Some(value@),
                None => None,
            },
        }
    }
}

impl Clone for VariableDefinition {
    fn clone(&self) -> (copy: Self)
        ensures
            copy@ == self@,
    {
        VariableDefinition {
            name: self.name.clone(),
            variable_type: self.variable_type.clone(),
            default_value: self.default_value.clone(),
        }
    }
}

/// The views of declared variables, in their order.
pub open spec fn definitions_view(definitions: Seq<VariableDefinition>) -> Seq<
    VariableDefinitionView,
> {
    definitions.map_values(|definition: VariableDefinition| definition@)
}

/// The views of the variables that an operation declares, where it declares any.
pub open spec fn opt_definitions_view(definitions: Option<Vec<VariableDefinition>>) -> Option<
    Seq<VariableDefinitionView>,
> {
    match definitions {
        Some(definitions) => Some(definitions_view(definitions@)),
        None => None,
    }
}

/// A GraphQL operation.
#[derive(Debug)]
pub struct OperationDefinition {
    pub name: Option<String>,
    pub operation_kind: Option<OperationKind>,
    pub selection_set: SelectionSet,
    pub variable_definitions: Option<Vec<VariableDefinition>>,
}

/// The view of an [`OperationDefinition`].
pub struct OperationDefinitionView {
    pub name: Option<Seq<char>>,
    pub operation_kind: Option<OperationKind>,
    pub selection_set: Seq<SelectionItemView>,
    pub variable_definitions: Option<Seq<VariableDefinitionView>>,
}

impl View for OperationDefinition {
    type V = OperationDefinitionView;

    open spec fn view(&self) -> OperationDefinitionView {
        OperationDefinitionView {
            name: opt_text(self.name),
            operation_kind: self.operation_kind,
            selection_set: self.selection_set@,
            variable_definitions: opt_definitions_view(self.variable_definitions),
        }
    }
}

impl Clone for OperationDefinition {
    fn clone(&self) -> (copy: Self)
        ensures
            copy@ == self@,
    {
        let copy = OperationDefinition {
            name: self.name.clone(),
            operation_kind: self.operation_kind,
            selection_set: self.selection_set.clone(),
            variable_definitions: clone_definitions(&self.variable_definitions),
        };
        copy
    }
}

/// Copies the variables that an operation declares.
pub(crate) fn clone_definitions(definitions: &Option<Vec<VariableDefinition>>) -> (copy: Option<
    Vec<VariableDefinition>,
>)
    ensures
        opt_definitions_view(copy) == opt_definitions_view(*definitions),
{
    match definitions {
        Some(definitions) => {
            let copy = definitions.clone();
            assert(definitions_view(copy@) =~= definitions_view(definitions@));
            Some(copy)
        },
        None => None,
    }
}

/// Selections that an operation shares between several places.
#[derive(Debug)]
pub struct FragmentDefinition {
    pub name: String,
    pub type_condition: String,
    pub selection_set: SelectionSet,
}

/// The view of a [`FragmentDefinition`].
pub struct FragmentDefinitionView {
    pub name: Seq<char>,
    pub type_condition: Seq<char>,
    pub selection_set: Seq<SelectionItemView>,
}

impl View for FragmentDefinition {
    type V = FragmentDefinitionView;

    open spec fn view(&self) -> FragmentDefinitionView {
        FragmentDefinitionView {
            name: self.name@,
            type_condition: self.type_condition@,
            selection_set: self.selection_set@,
        }
    }
}

impl Clone for FragmentDefinition {
    fn clone(&self) -> (copy: Self)
        ensures
            copy@ == self@,
    {
        FragmentDefinition {
            name: self.name.clone(),
            type_condition: self.type_condition.clone(),
            selection_set: self.selection_set.clone(),
        }
    }
}

/// An operation with the fragments that it uses.
#[derive(Debug)]
pub struct Document {
    pub operation: OperationDefinition,
    pub fragments: Vec<FragmentDefinition>,
}

/// The view of a [`Document`].
pub struct DocumentView {
    pub operation: OperationDefinitionView,
    pub fragments: Seq<FragmentDefinitionView>,
}

impl View for Document {
    type V = DocumentView;

    open spec fn view(&self) -> DocumentView {
        DocumentView {
            operation: self.operation@,
            fragments: self.fragments@.map_values(|fragment: FragmentDefinition| fragment@),
        }
    }
}

impl Clone for Document {
    fn clone(&self) -> (copy: Self)
        ensures
            copy@ == self@,
    {
        let copy = Document {
            operation: self.operation.clone(),
            fragments: self.fragments.clone(),
        };
        assert(copy@.fragments =~= self@.fragments);
        copy
    }
}

/// The operation that a fetch sends to its subgraph.
#[derive(Debug)]
pub struct SubgraphFetchOperation {
    pub document: Document,
    /// The document as it is sent.
    pub document_str: String,
    /// The hash of `document_str`.
    pub hash: u64,
}

/// The view of a [`SubgraphFetchOperation`].
pub struct SubgraphFetchOperationView {
    pub document: DocumentView,
    pub document_str: Seq<char>,
    pub hash: u64,
}

impl View for SubgraphFetchOperation {
    type V = SubgraphFetchOperationView;

    open spec fn view(&self) -> SubgraphFetchOperationView {
        SubgraphFetchOperationView {
            document: self.document@,
            document_str: self.document_str@,
            hash: self.hash,
        }
    }
}

impl Clone for SubgraphFetchOperation {
    fn clone(&self) -> (copy: Self)
        ensures
            copy@ == self@,
    {
        SubgraphFetchOperation {
            document: self.document.clone(),
            document_str: self.document_str.clone(),
            hash: self.hash,
        }
    }
}

/// A selection set with the type that it selects on.
#[derive(Debug, Clone)]
pub struct TypeAwareSelection {
    pub on_type: String,
    pub selection_set: SelectionSet,
}

/// When a step takes part in an execution.
#[derive(Debug)]
pub enum Condition {
    /// Left out where the variable is true.
    Skip(String),
    /// Taken only where the variable is true.
    Include(String),
}

impl Clone for Condition {
    fn clone(&self) -> (copy: Self)
        ensures
            copy == *self,
    {
        match self {
            Condition::Skip(name) => Condition::Skip(name.clone()),
            Condition::Include(name) => Condition::Include(name.clone()),
        }
    }
}

/// One step from a response object towards the objects that a fetch completes.
#[derive(Debug, Clone)]
pub enum Segment {
    /// A field: its name, the hash of its arguments and the condition it is under.
    Field(String, u64, Option<Condition>),
    /// Each item of a list.
    List,
    /// Objects of a type, and the condition they are under.
    Cast(String, Option<Condition>),
}

/// A path through a response.
#[derive(Debug, Clone)]
pub struct MergePath {
    pub inner: Vec<Segment>,
}

impl MergePath {
    /// Whether the path stays at the root of the response.
    pub fn is_empty(&self) -> (empty: bool)
        ensures
            empty == (self.inner@.len() == 0),
    {
        self.inner.is_empty()
    }
}

} // verus!
