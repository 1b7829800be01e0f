//! How a step of the planner becomes a node of the plan.

use std::hash::{Hash, Hasher};
use vstd::prelude::*;
use vstd::string::*;
use xxhash_rust::xxh3::Xxh3;

use crate::ast::{
    clone_definitions, definitions_view, opt_definitions_view, type_node_view, ArgumentsMap,
    Condition, Document, FieldSelection, FieldSelectionView, InlineFragmentSelection,
    InlineFragmentView, InputValue, InputValueView, MergePath, OperationDefinition,
    OperationDefinitionView, OperationKind, Segment, SelectionItem, SelectionItemView, SelectionSet,
    SubgraphFetchOperation, TypeAwareSelection, TypeNode, TypeNodeView, VariableDefinition,
    VariableDefinitionView,
};
use crate::copies::{fetches_view, opt_node_view, plan_node_view, FetchNodeView, PlanNodeView};
use crate::names::NameSet;
use crate::paths::flatten_segment;
use crate::plan_nodes::{
    clone_rewrites, fetches, opt_rewrites_view, without_defer, ConditionNode, FetchNode,
    FetchRewrite, FlattenNode, FlattenNodePath, PlanNode,
};

verus! {

/// The name of a subgraph.
#[derive(Debug, Clone)]
pub struct SubgraphName(pub String);

/// A step of the planner: one request to one subgraph.
#[derive(Debug)]
pub struct FetchStepData {
    pub id: i64,
    pub service_name: SubgraphName,
    /// Where the data belongs in the response.
    pub response_path: MergePath,
    /// What the step needs of the objects that it completes.
    pub input: TypeAwareSelection,
    /// What the step asks for.
    pub output: TypeAwareSelection,
    /// Whether the step completes objects that an earlier step found.
    pub entity_call: bool,
    pub condition: Option<Condition>,
    pub variable_usages: Option<NameSet>,
    pub variable_definitions: Option<Vec<VariableDefinition>>,
    pub input_rewrites: Option<Vec<FetchRewrite>>,
    pub output_rewrites: Option<Vec<FetchRewrite>>,
}

impl FetchStepData {
    /// Whether the step completes objects that an earlier step found.
    pub fn is_entity_call(&self) -> (entity_call: bool)
        ensures
            entity_call == self.entity_call,
    {
        self.entity_call
    }
}

/// What the planner knows of the whole graph and its subgraphs.
pub trait Supergraph {
    /// Gives the shortest document for an operation, with what occurs in several places moved to
    /// fragments. Every operation of a step is valid in the graph, and has such a document.
    fn minify_operation(&self, operation: OperationDefinition) -> Document;

    /// Gives a document as it is sent.
    fn document_text(&self, document: &Document) -> String;

    /// Leaves of a selection what the input of a fetch can hold.
    fn strip_for_plan_input(&self, selections: &SelectionSet) -> SelectionSet;
}

/// The XXH3 hash of a query text.
pub uninterp spec fn query_hash(text: Seq<char>) -> u64;

/// Hashes a text with `xxhash_rust::xxh3::Xxh3`, as `Hash` of `str` feeds it to the hasher. The
/// result is a function of the text alone: the hasher starts from its fixed seed and secret.
#[verifier::external_body]
fn hash_minified_query(minified_query: &str) -> (hash: u64)
    ensures
        hash == query_hash(minified_query@),
{
    let mut hasher = Xxh3::new();
    minified_query.hash(&mut hasher);
    hasher.finish()
}

/// The kind of the operation that selects on a root type.
pub open spec fn kind_on_type(on_type: Seq<char>) -> OperationKind {
    if on_type == "Mutation"@ {
        OperationKind::Mutation
    } else if on_type == "Subscription"@ {
        OperationKind::Subscription
    } else {
        OperationKind::Query
    }
}

impl From<&FetchStepData> for OperationKind {
    fn from(step: &FetchStepData) -> (kind: Self) {
        proof {
            reveal_strlit("Query");
            reveal_strlit("Mutation");
            reveal_strlit("Subscription");
            assert("Query"@.len() != "Mutation"@.len());
            assert("Query"@.len() != "Subscription"@.len());
        }
        let on_type = &step.output.on_type;
        if *on_type == String::from_str("Query") {
            OperationKind::Query
        } else if *on_type == String::from_str("Mutation") {
            OperationKind::Mutation
        } else if *on_type == String::from_str("Subscription") {
            OperationKind::Subscription
        } else {
            OperationKind::Query
        }
    }
}

impl vstd::std_specs::convert::FromSpecImpl<&FetchStepData> for OperationKind {
    open spec fn obeys_from_spec() -> bool {
        true
    }

    open spec fn from_spec(step: &FetchStepData) -> Self {
        kind_on_type(step.output.on_type@)
    }
}

/// The selections that a fetch needs of the objects of one type.
pub open spec fn input_selection(
    on_type: Seq<char>,
    stripped: Seq<SelectionItemView>,
) -> Seq<SelectionItemView> {
    seq![
        SelectionItemView::InlineFragment(
            InlineFragmentView {
                selections: stripped,
                type_condition: on_type,
                skip_if: None,
                include_if: None,
            },
        ),
    ]
}

/// Makes the selections that a fetch needs of the objects that it completes, from what is left of
/// `input_selections` for the input of a fetch.
pub fn create_input_selection_set(
    input_selections: &TypeAwareSelection,
    stripped: SelectionSet,
) -> (set: SelectionSet)
    ensures
        set@ == input_selection(input_selections.on_type@, stripped@),
{
    let fragment = SelectionItem::InlineFragment(
        InlineFragmentSelection {
            selections: stripped,
            type_condition: input_selections.on_type.clone(),
            skip_if: None,
            include_if: None,
        },
    );
    let set = SelectionSet { items: vec![fragment] };
    assert(set@ =~= input_selection(input_selections.on_type@, stripped@));
    set
}

/// The variable in which a fetch for entities gets its representations: `[_Any!]!`.
pub open spec fn representations_definition() -> VariableDefinitionView {
    VariableDefinitionView {
        name: "representations"@,
        variable_type: TypeNodeView::NonNull(
            Box::new(
                TypeNodeView::List(
                    Box::new(TypeNodeView::NonNull(Box::new(TypeNodeView::Named("_Any"@)))),
                ),
            ),
        ),
        default_value: None,
    }
}

/// The operation that asks a subgraph for its part of the entities of a step.
pub open spec fn entities_operation(step: FetchStepData) -> OperationDefinitionView {
    let additional = match step.variable_definitions {
        Some(definitions) => definitions_view(definitions@),
        None => Seq::empty(),
    };
    let on_entities = SelectionItemView::InlineFragment(
        InlineFragmentView {
            selections: step.output.selection_set@,
            type_condition: step.output.on_type@,
            skip_if: None,
            include_if: None,
        },
    );
    OperationDefinitionView {
        name: None,
        operation_kind: Some(OperationKind::Query),
        variable_definitions: Some(seq![representations_definition()] + additional),
        selection_set: seq![
            SelectionItemView::Field(
                FieldSelectionView {
                    name: "_entities"@,
                    selections: seq![on_entities],
                    alias: None,
                    arguments: Some(
                        seq![("representations"@, InputValueView::Variable("representations"@))],
                    ),
                    skip_if: None,
                    include_if: None,
                },
            ),
        ],
    }
}

/// The operation that selects a step's output at the root.
pub open spec fn root_operation(step: FetchStepData) -> OperationDefinitionView {
    OperationDefinitionView {
        name: None,
        operation_kind: Some(kind_on_type(step.output.on_type@)),
        variable_definitions: opt_definitions_view(step.variable_definitions),
        selection_set: step.output.selection_set@,
    }
}

/// The operation of a step.
pub open spec fn step_operation(step: FetchStepData) -> OperationDefinitionView {
    if step.entity_call {
        entities_operation(step)
    } else {
        root_operation(step)
    }
}

/// Makes the operation that asks for the entities of a step.
pub fn entities_operation_definition(step: &FetchStepData) -> (operation: OperationDefinition)
    ensures
        operation@ == entities_operation(*step),
{
    let type_aware_selection = &step.output;
    let mut variables = vec![
        VariableDefinition {
            name: String::from_str("representations"),
            variable_type: TypeNode::NonNull(
                Box::new(
                    TypeNode::List(
                        Box::new(
                            TypeNode::NonNull(Box::new(TypeNode::Named(String::from_str("_Any")))),
                        ),
                    ),
                ),
            ),
            default_value: None,
        },
    ];
    proof {
        reveal_with_fuel(type_node_view, 4);
    }
    assert(variables@[0]@ == representations_definition());
    let ghost first = variables@;
    if let Some(additional_vars) = &step.variable_definitions {
        let mut additional_vars = additional_vars.clone();
        variables.append(&mut additional_vars);
    }
    let on_entities = SelectionItem::InlineFragment(
        InlineFragmentSelection {
            selections: type_aware_selection.selection_set.clone(),
            type_condition: type_aware_selection.on_type.clone(),
            skip_if: None,
            include_if: None,
        },
    );
    let entities = SelectionItem::Field(
        FieldSelection {
            name: String::from_str("_entities"),
            selections: SelectionSet { items: vec![on_entities] },
            alias: None,
            arguments: Some(
                ArgumentsMap::single(
                    String::from_str("representations"),
                    InputValue::Variable(String::from_str("representations")),
                ),
            ),
            skip_if: None,
            include_if: None,
        },
    );
    let operation = OperationDefinition {
        name: None,
        operation_kind: Some(OperationKind::Query),
        variable_definitions: Some(variables),
        selection_set: SelectionSet { items: vec![entities] },
    };
    proof {
        let expected = entities_operation(*step);
        assert(operation@.variable_definitions->Some_0
            =~= expected.variable_definitions->Some_0);
        assert(entities->Field_0.selections@ =~= seq![on_entities@]);
        assert(operation@.selection_set =~= expected.selection_set);
    }
    operation
}

/// Makes the operation of a step.
pub fn operation_definition(step: &FetchStepData) -> (operation: OperationDefinition)
    ensures
        operation@ == step_operation(*step),
{
    if step.is_entity_call() {
        entities_operation_definition(step)
    } else {
        OperationDefinition {
            name: None,
            operation_kind: Some(OperationKind::from(step)),
            selection_set: step.output.selection_set.clone(),
            variable_definitions: clone_definitions(&step.variable_definitions),
        }
    }
}

/// Whether `compiled` is what the supergraph makes of an operation that reads `operation`: its
/// minified document, the text of that document, and the hash of the text.
pub open spec fn compiles_to<S: Supergraph>(
    supergraph: &S,
    operation: OperationDefinitionView,
    compiled: SubgraphFetchOperation,
) -> bool {
    &&& exists|given: OperationDefinition|
        given@ == operation && #[trigger] call_ensures(
            S::minify_operation,
            (supergraph, given),
            compiled.document,
        )
    &&& call_ensures(
        S::document_text,
        (supergraph, &compiled.document),
        compiled.document_str,
    )
    &&& compiled.hash == query_hash(compiled.document_str@)
}

/// Compiles an operation for the subgraph that it is sent to.
fn compile_operation<S: Supergraph>(
    operation: OperationDefinition,
    supergraph: &S,
) -> (compiled: SubgraphFetchOperation)
    ensures
        compiles_to(supergraph, operation@, compiled),
{
    let document = supergraph.minify_operation(operation);
    let document_str = supergraph.document_text(&document);
    let hash = hash_minified_query(document_str.as_str());
    SubgraphFetchOperation { document, document_str, hash }
}

/// Compiles the operation that asks for the entities of a step.
pub fn create_output_operation<S: Supergraph>(
    step: &FetchStepData,
    supergraph: &S,
) -> (compiled: SubgraphFetchOperation)
    ensures
        compiles_to(supergraph, entities_operation(*step), compiled),
{
    compile_operation(entities_operation_definition(step), supergraph)
}

/// Whether what a fetch has from its step alone is as the step says.
pub open spec fn is_fetch_of(node: FetchNode, step: FetchStepData) -> bool {
    &&& node.id == step.id
    &&& node.service_name@ == step.service_name.0@
    &&& match step.variable_usages {
        Some(usages) => node.variable_usages matches Some(copy) && copy.ordered()
            == usages.ordered(),
        None => node.variable_usages is None,
    }
    &&& node.operation_kind == Some(
        if step.entity_call {
            OperationKind::Query
        } else {
            kind_on_type(step.output.on_type@)
        },
    )
    &&& node.operation_name is None
    &&& opt_rewrites_view(node.input_rewrites) == opt_rewrites_view(step.input_rewrites)
    &&& opt_rewrites_view(node.output_rewrites) == opt_rewrites_view(step.output_rewrites)
}

/// Whether `node` is the fetch that a step becomes: beside [`is_fetch_of`], its operation is
/// compiled from the step's, and a fetch for entities requires what the supergraph leaves of the
/// step's input.
pub open spec fn comes_from_step<S: Supergraph>(
    node: FetchNode,
    step: FetchStepData,
    supergraph: &S,
    depends_on: Option<Vec<i64>>,
) -> bool {
    &&& is_fetch_of(node, step)
    &&& compiles_to(supergraph, step_operation(step), node.operation)
    &&& node.depends_on == depends_on
    &&& if step.entity_call {
        &&& node.requires is Some
        &&& exists|stripped: SelectionSet| #[trigger]
            call_ensures(
                S::strip_for_plan_input,
                (supergraph, &step.input.selection_set),
                stripped,
            ) && node.requires->Some_0@ == input_selection(step.input.on_type@, stripped@)
    } else {
        node.requires is None
    }
}

/// Whether a supergraph gives like answers to like questions.
pub open spec fn answers_alike<S: Supergraph>(supergraph: &S) -> bool {
    &&& forall|a: OperationDefinition, b: OperationDefinition, x: Document, y: Document|
        a@ == b@ && #[trigger] call_ensures(S::minify_operation, (supergraph, a), x)
            && #[trigger] call_ensures(S::minify_operation, (supergraph, b), y) ==> x@ == y@
    &&& forall|a: Document, b: Document, x: String, y: String|
        a@ == b@ && #[trigger] call_ensures(S::document_text, (supergraph, &a), x)
            && #[trigger] call_ensures(S::document_text, (supergraph, &b), y) ==> x@ == y@
    &&& forall|a: SelectionSet, x: SelectionSet, y: SelectionSet| #[trigger]
        call_ensures(S::strip_for_plan_input, (supergraph, &a), x) && #[trigger] call_ensures(
            S::strip_for_plan_input,
            (supergraph, &a),
            y,
        ) ==> x@ == y@
}

/// Where a supergraph gives like answers to like questions, the fetches that a step depends on
/// change nothing of its fetch but the field that lists them.
pub proof fn dependencies_change_nothing_else<S: Supergraph>(
    supergraph: &S,
    step: FetchStepData,
    of_a: Option<Vec<i64>>,
    of_b: Option<Vec<i64>>,
    a: FetchNode,
    b: FetchNode,
)
    requires
        answers_alike(supergraph),
        comes_from_step(a, step, supergraph, of_a),
        comes_from_step(b, step, supergraph, of_b),
    ensures
        a@ == (FetchNodeView { depends_on: a@.depends_on, ..b@ }),
        a.depends_on == of_a,
        b.depends_on == of_b,
{
    let operation = step_operation(step);
    let given_a = choose|given: OperationDefinition|
        given@ == operation && #[trigger] call_ensures(
            S::minify_operation,
            (supergraph, given),
            a.operation.document,
        );
    let given_b = choose|given: OperationDefinition|
        given@ == operation && #[trigger] call_ensures(
            S::minify_operation,
            (supergraph, given),
            b.operation.document,
        );
    assert(a.operation.document@ == b.operation.document@);
    assert(a.operation.document_str@ == b.operation.document_str@);
    if step.entity_call {
        let of_a = choose|stripped: SelectionSet| #[trigger]
            call_ensures(
                S::strip_for_plan_input,
                (supergraph, &step.input.selection_set),
                stripped,
            ) && a.requires->Some_0@ == input_selection(step.input.on_type@, stripped@);
        let of_b = choose|stripped: SelectionSet| #[trigger]
            call_ensures(
                S::strip_for_plan_input,
                (supergraph, &step.input.selection_set),
                stripped,
            ) && b.requires->Some_0@ == input_selection(step.input.on_type@, stripped@);
        assert(of_a@ == of_b@);
    }
}

/// Where a supergraph gives like answers to like questions, a step becomes the same fetch every
/// time.
pub proof fn a_step_compiles_alike<S: Supergraph>(
    supergraph: &S,
    step: FetchStepData,
    depends_on: Option<Vec<i64>>,
    a: FetchNode,
    b: FetchNode,
)
    requires
        answers_alike(supergraph),
        comes_from_step(a, step, supergraph, depends_on),
        comes_from_step(b, step, supergraph, depends_on),
    ensures
        a@ == b@,
{
    dependencies_change_nothing_else(supergraph, step, depends_on, depends_on, a, b);
}

impl FetchNode {
    /// The fetch that a step becomes.
    pub fn from_fetch_step<S: Supergraph>(step: &FetchStepData, supergraph: &S) -> (node: Self)
        ensures
            comes_from_step(node, *step, supergraph, None),
    {
        Self::from_fetch_step_with_deps(step, supergraph, None)
    }

    /// The fetch that a step becomes, with the fetches that it depends on.
    pub fn from_fetch_step_with_deps<S: Supergraph>(
        step: &FetchStepData,
        supergraph: &S,
        depends_on: Option<Vec<i64>>,
    ) -> (node: Self)
        ensures
            comes_from_step(node, *step, supergraph, depends_on),
    {
        if step.is_entity_call() {
            let operation = create_output_operation(step, supergraph);
            let stripped = supergraph.strip_for_plan_input(&step.input.selection_set);
            let requires_set = create_input_selection_set(&step.input, stripped);
            Self::from_operation(step, operation, Some(requires_set), depends_on)
        } else {
            let operation = compile_operation(operation_definition(step), supergraph);
            Self::from_operation(step, operation, None, depends_on)
        }
    }

    /// The fetch of a step whose operation is compiled.
    pub fn from_operation(
        step: &FetchStepData,
        operation: SubgraphFetchOperation,
        requires_set: Option<SelectionSet>,
        depends_on: Option<Vec<i64>>,
    ) -> (node: Self)
        ensures
            is_fetch_of(node, *step),
            node.operation == operation,
            node.requires == requires_set,
            node.depends_on == depends_on,
    {
        FetchNode {
            id: step.id,
            service_name: step.service_name.0.clone(),
            variable_usages: step.variable_usages.clone(),
            operation_kind: Some(
                if step.is_entity_call() {
                    OperationKind::Query
                } else {
                    OperationKind::from(step)
                },
            ),
            operation_name: None,
            operation,
            requires: requires_set,
            input_rewrites: clone_rewrites(&step.input_rewrites),
            output_rewrites: clone_rewrites(&step.output_rewrites),
            depends_on,
        }
    }
}

/// Whether `plan` fetches at the place of a step: at the root of the response, or under the path
/// that leads to it.
pub open spec fn fetches_in_place(plan: PlanNode, step: FetchStepData, fetch: FetchNode) -> bool {
    if step.response_path.inner@.len() == 0 {
        plan == PlanNode::Fetch(fetch)
    } else {
        &&& plan is Flatten
        &&& plan->Flatten_0.path@ == step.response_path.inner@.map_values(
            |segment: Segment| flatten_segment(segment),
        )
        &&& *plan->Flatten_0.node == PlanNode::Fetch(fetch)
    }
}

/// Whether `plan` fetches at the place of a step, under the condition of the step.
pub open spec fn plans_step(plan: PlanNode, step: FetchStepData, fetch: FetchNode) -> bool {
    match step.condition {
        Some(Condition::Include(variable)) => {
            &&& plan is Condition
            &&& plan->Condition_0.condition@ == variable@
            &&& plan->Condition_0.else_clause is None
            &&& plan->Condition_0.if_clause matches Some(clause) && fetches_in_place(
                *clause,
                step,
                fetch,
            )
        },
        Some(Condition::Skip(variable)) => {
            &&& plan is Condition
            &&& plan->Condition_0.condition@ == variable@
            &&& plan->Condition_0.if_clause is None
            &&& plan->Condition_0.else_clause matches Some(clause) && fetches_in_place(
                *clause,
                step,
                fetch,
            )
        },
        None => fetches_in_place(plan, step, fetch),
    }
}

impl PlanNode {
    /// The node that a step becomes.
    pub fn from_fetch_step<S: Supergraph>(step: &FetchStepData, supergraph: &S) -> (plan: Self)
        ensures
            exists|fetch: FetchNode|
                comes_from_step(fetch, *step, supergraph, None) && #[trigger] plans_step(
                    plan,
                    *step,
                    fetch,
                ),
    {
        Self::from_fetch_step_with_deps(step, supergraph, None)
    }

    /// The node that a step becomes, with the fetches that it depends on.
    pub fn from_fetch_step_with_deps<S: Supergraph>(
        step: &FetchStepData,
        supergraph: &S,
        depends_on: Option<Vec<i64>>,
    ) -> (plan: Self)
        ensures
            exists|fetch: FetchNode|
                comes_from_step(fetch, *step, supergraph, depends_on) && #[trigger] plans_step(
                    plan,
                    *step,
                    fetch,
                ),
    {
        let fetch = FetchNode::from_fetch_step_with_deps(step, supergraph, depends_on);
        Self::from_fetch(step, fetch)
    }

    /// The node of a step whose fetch is made.
    pub fn from_fetch(step: &FetchStepData, fetch: FetchNode) -> (plan: Self)
        ensures
            plans_step(plan, *step, fetch),
    {
        let node = if step.response_path.is_empty() {
            PlanNode::Fetch(fetch)
        } else {
            PlanNode::Flatten(
                FlattenNode {
                    path: FlattenNodePath::from(&step.response_path),
                    node: Box::new(PlanNode::Fetch(fetch)),
                },
            )
        };
        match step.condition.as_ref() {
            Some(condition) => match condition {
                Condition::Include(var_name) => PlanNode::Condition(
                    ConditionNode {
                        condition: var_name.clone(),
                        if_clause: Some(Box::new(node)),
                        else_clause: None,
                    },
                ),
                Condition::Skip(var_name) => PlanNode::Condition(
                    ConditionNode {
                        condition: var_name.clone(),
                        if_clause: None,
                        else_clause: Some(Box::new(node)),
                    },
                ),
            },
            None => node,
        }
    }
}

/// The node of a step holds one fetch, that of the step, and no deferred part.
pub proof fn step_is_one_fetch(plan: PlanNode, step: FetchStepData, fetch: FetchNode)
    requires
        plans_step(plan, step, fetch),
    ensures
        fetches(plan) == seq![fetch],
        without_defer(plan),
{
    reveal_with_fuel(fetches, 3);
    reveal_with_fuel(without_defer, 3);
    assert(fetches(plan) =~= seq![fetch]);
}

/// A step without its condition.
pub open spec fn without_condition(step: FetchStepData) -> FetchStepData {
    FetchStepData { condition: None, ..step }
}

/// A node under the condition of a step.
pub open spec fn under_condition(condition: Option<Condition>, node: PlanNodeView) -> PlanNodeView {
    match condition {
        Some(Condition::Include(variable)) => PlanNodeView::Condition {
            condition: variable@,
            if_clause: Some(Box::new(node)),
            else_clause: None,
        },
        Some(Condition::Skip(variable)) => PlanNodeView::Condition {
            condition: variable@,
            if_clause: None,
            else_clause: Some(Box::new(node)),
        },
        None => node,
    }
}

/// A fetch at the place of a step.
pub open spec fn in_place(step: FetchStepData, fetch: FetchNodeView) -> PlanNodeView {
    if step.response_path.inner@.len() == 0 {
        PlanNodeView::Fetch(fetch)
    } else {
        PlanNodeView::Flatten {
            path: step.response_path.inner@.map_values(|segment: Segment| flatten_segment(segment)),
            node: Box::new(PlanNodeView::Fetch(fetch)),
        }
    }
}

/// The shape of the node of a step: its condition is outermost, and under it the fetch stands in its
/// place, flattened where the step has a path and only there.
pub proof fn the_condition_is_outermost(plan: PlanNode, step: FetchStepData, fetch: FetchNode)
    requires
        plans_step(plan, step, fetch),
    ensures
        plan@ == under_condition(step.condition, in_place(step, fetch@)),
{
    reveal_with_fuel(plan_node_view, 4);
    reveal_with_fuel(opt_node_view, 4);
}

/// Where a supergraph gives like answers to like questions, the node of a step is the node of the
/// same step without its condition, under that condition.
pub proof fn a_condition_wraps_the_plan<S: Supergraph>(
    supergraph: &S,
    step: FetchStepData,
    depends_on: Option<Vec<i64>>,
    plan: PlanNode,
    inner: PlanNode,
    a: FetchNode,
    b: FetchNode,
)
    requires
        answers_alike(supergraph),
        comes_from_step(a, step, supergraph, depends_on),
        plans_step(plan, step, a),
        comes_from_step(b, without_condition(step), supergraph, depends_on),
        plans_step(inner, without_condition(step), b),
    ensures
        plan@ == under_condition(step.condition, inner@),
{
    assert(comes_from_step(b, step, supergraph, depends_on));
    a_step_compiles_alike(supergraph, step, depends_on, a, b);
    the_condition_is_outermost(plan, step, a);
    the_condition_is_outermost(inner, without_condition(step), b);
}

/// Where a supergraph gives like answers to like questions, the node of a step holds the fetch that
/// the step becomes, whenever that is made, and no other.
pub proof fn a_plan_holds_the_fetch_of_its_step<S: Supergraph>(
    supergraph: &S,
    step: FetchStepData,
    depends_on: Option<Vec<i64>>,
    plan: PlanNode,
    a: FetchNode,
    b: FetchNode,
)
    requires
        answers_alike(supergraph),
        comes_from_step(a, step, supergraph, depends_on),
        plans_step(plan, step, a),
        comes_from_step(b, step, supergraph, depends_on),
    ensures
        fetches_view(fetches(plan)) == seq![b@],
{
    step_is_one_fetch(plan, step, a);
    a_step_compiles_alike(supergraph, step, depends_on, a, b);
    assert(fetches_view(fetches(plan)) =~= seq![b@]);
}

} // verus!
