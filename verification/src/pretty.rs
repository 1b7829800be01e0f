//! How a plan is laid out for reading.
//!
//! The text of a plan is a list of pieces. Most are text already; selection sets and operations
//! are left to whoever writes the pieces, with the depth at which they stand.

use vstd::prelude::*;
use vstd::string::*;

use crate::ast::{SelectionSet, SubgraphFetchOperation};
use crate::paths::path_text;
use crate::plan_nodes::{
    fetches, fetches_of_first, ConditionNode, FetchNode, FlattenNode, ParallelNode, PlanNode,
    QueryPlan, SequenceNode,
};

verus! {

/// A piece of the text of a plan.
#[derive(Debug)]
pub enum Piece<'a> {
    Text(String),
    /// A selection set, at a depth.
    Selections(&'a SelectionSet, usize),
    /// An operation, at a depth.
    Operation(&'a SubgraphFetchOperation, usize),
}

/// The view of a [`Piece`].
pub enum PieceView {
    Text(Seq<char>),
    Selections(SelectionSet, int),
    Operation(SubgraphFetchOperation, int),
}

impl<'a> View for Piece<'a> {
    type V = PieceView;

    open spec fn view(&self) -> PieceView {
        match *self {
            Piece::Text(text) => PieceView::Text(text@),
            Piece::Selections(selections, depth) => PieceView::Selections(
                *selections,
                depth as int,
            ),
            Piece::Operation(operation, depth) => PieceView::Operation(*operation, depth as int),
        }
    }
}

/// The views of pieces, in their order.
pub open spec fn pieces_view(pieces: Seq<Piece>) -> Seq<PieceView> {
    pieces.map_values(|piece: Piece| piece@)
}

/// The space before a line: two blanks for each level of depth.
pub open spec fn indent(depth: int) -> Seq<char>
    decreases depth,
{
    if depth <= 0 {
        Seq::empty()
    } else {
        indent(depth - 1) + "  "@
    }
}

/// A line at a depth.
pub open spec fn line(depth: int, text: Seq<char>) -> PieceView {
    PieceView::Text(indent(depth) + text + "\n"@)
}

/// A block: its head, what is in it, and its end.
pub open spec fn block(depth: int, head: Seq<char>, inner: Seq<PieceView>) -> Seq<PieceView> {
    seq![line(depth, head)] + inner + seq![line(depth, "},"@)]
}

/// The pieces of a fetch.
pub open spec fn fetch_pieces(fetch: FetchNode, depth: int) -> Seq<PieceView> {
    let required = match fetch.requires {
        Some(selections) => seq![
            line(depth, "  {"@),
            PieceView::Selections(selections, depth + 2),
            line(depth, "  } =>"@),
        ],
        None => Seq::empty(),
    };
    block(
        depth,
        "Fetch(service: \""@ + fetch.service_name@ + "\") {"@,
        required + seq![PieceView::Operation(fetch.operation, depth)],
    )
}

/// The pieces of a node. Subscriptions and deferred plans are not shown.
pub open spec fn node_pieces(node: PlanNode, depth: int) -> Seq<PieceView>
    decreases node, 0int,
{
    match node {
        PlanNode::Fetch(fetch) => fetch_pieces(fetch, depth),
        PlanNode::Flatten(flatten) => block(
            depth,
            "Flatten(path: \""@ + path_text(flatten.path@, flatten.path@.len() as int) + "\") {"@,
            node_pieces(*flatten.node, depth + 1),
        ),
        PlanNode::Sequence(sequence) => block(
            depth,
            "Sequence {"@,
            pieces_of_first(sequence.nodes@, sequence.nodes@.len() as int, depth + 1),
        ),
        PlanNode::Parallel(parallel) => block(
            depth,
            "Parallel {"@,
            pieces_of_first(parallel.nodes@, parallel.nodes@.len() as int, depth + 1),
        ),
        PlanNode::Condition(condition) => match (condition.if_clause, condition.else_clause) {
            (Some(clause), _) => block(
                depth,
                "Include(if: $"@ + condition.condition@ + ") {"@,
                node_pieces(*clause, depth + 1),
            ),
            (None, Some(clause)) => block(
                depth,
                "Skip(if: $"@ + condition.condition@ + ") {"@,
                node_pieces(*clause, depth + 1),
            ),
            (None, None) => Seq::empty(),
        },
        PlanNode::Subscription(_) | PlanNode::Defer(_) => Seq::empty(),
    }
}

/// The pieces of the first `n` of some nodes.
pub open spec fn pieces_of_first(nodes: Seq<PlanNode>, n: int, depth: int) -> Seq<PieceView>
    decreases nodes, n,
{
    if n <= 0 || n > nodes.len() {
        Seq::empty()
    } else {
        pieces_of_first(nodes, n - 1, depth) + node_pieces(nodes[n - 1], depth)
    }
}

/// The pieces of a plan.
pub open spec fn plan_pieces(plan: QueryPlan, depth: int) -> Seq<PieceView> {
    block(
        depth,
        "QueryPlan {"@,
        match plan.node {
            Some(node) => node_pieces(node, depth + 1),
            None => seq![line(depth, "  None,"@)],
        },
    )
}

/// Whether a node can be shown at a depth: every condition in it has exactly one clause, and the
/// depth of what is in it can be counted.
pub open spec fn printable(node: PlanNode, depth: int) -> bool
    decreases node,
{
    &&& depth + 2 <= usize::MAX
    &&& match node {
        PlanNode::Fetch(_) => true,
        PlanNode::Flatten(flatten) => printable(*flatten.node, depth + 1),
        PlanNode::Sequence(sequence) => forall|i: int|
            0 <= i < sequence.nodes@.len() ==> printable(#[trigger] sequence.nodes@[i], depth + 1),
        PlanNode::Parallel(parallel) => forall|i: int|
            0 <= i < parallel.nodes@.len() ==> printable(#[trigger] parallel.nodes@[i], depth + 1),
        PlanNode::Condition(condition) => match (condition.if_clause, condition.else_clause) {
            (Some(clause), None) => printable(*clause, depth + 1),
            (None, Some(clause)) => printable(*clause, depth + 1),
            _ => false,
        },
        PlanNode::Subscription(_) | PlanNode::Defer(_) => true,
    }
}

impl PlanNode {
    /// Whether the node can be shown at a depth, see [`printable`].
    pub fn is_printable(&self, depth: usize) -> (showable: bool)
        ensures
            showable == printable(*self, depth as int),
        decreases self,
    {
        if depth > usize::MAX - 2 {
            return false;
        }
        match self {
            PlanNode::Fetch(_) => true,
            PlanNode::Flatten(flatten) => flatten.node.is_printable(depth + 1),
            PlanNode::Sequence(sequence) => all_printable(&sequence.nodes, depth + 1),
            PlanNode::Parallel(parallel) => all_printable(&parallel.nodes, depth + 1),
            PlanNode::Condition(condition) => match (&condition.if_clause, &condition.else_clause) {
                (Some(clause), None) => clause.is_printable(depth + 1),
                (None, Some(clause)) => clause.is_printable(depth + 1),
                _ => false,
            },
            PlanNode::Subscription(_) | PlanNode::Defer(_) => true,
        }
    }
}

fn all_printable(nodes: &Vec<PlanNode>, depth: usize) -> (showable: bool)
    ensures
        showable == forall|i: int|
            0 <= i < nodes@.len() ==> printable(#[trigger] nodes@[i], depth as int),
    decreases nodes,
{
    for i in 0..nodes.len()
        invariant
            forall|j: int| 0 <= j < i ==> printable(#[trigger] nodes@[j], depth as int),
    {
        if !nodes[i].is_printable(depth) {
            return false;
        }
    }
    true
}

/// The space before a line.
pub fn get_indent(depth: usize) -> (text: String)
    ensures
        text@ == indent(depth as int),
{
    let mut text = String::new();
    for i in 0..depth
        invariant
            text@ == indent(i as int),
    {
        text.append("  ");
    }
    text
}

/// Adds a line: the space for the depth, then three texts.
fn push_line(pieces: &mut Vec<Piece>, depth: usize, start: &str, middle: &str, end: &str)
    ensures
        pieces_view(final(pieces)@) == pieces_view(old(pieces)@).push(
            line(depth as int, start@ + middle@ + end@),
        ),
{
    let mut text = get_indent(depth);
    text.append(start);
    text.append(middle);
    text.append(end);
    text.append("\n");
    let ghost before = pieces@;
    assert(text@ =~= indent(depth as int) + (start@ + middle@ + end@) + "\n"@);
    pieces.push(Piece::Text(text));
    assert(pieces_view(pieces@) =~= pieces_view(before).push(
        line(depth as int, start@ + middle@ + end@),
    ));
}

/// Adds a line of one text.
fn push_text_line(pieces: &mut Vec<Piece>, depth: usize, text: &str)
    ensures
        pieces_view(final(pieces)@) == pieces_view(old(pieces)@).push(line(depth as int, text@)),
{
    push_line(pieces, depth, text, "", "");
    proof {
        reveal_strlit("");
        assert(text@ + ""@ + ""@ =~= text@);
    }
}

impl QueryPlan {
    /// Adds the pieces of the plan.
    pub fn pretty_fmt<'a>(&'a self, pieces: &mut Vec<Piece<'a>>, depth: usize)
        requires
            self.node matches Some(node) ==> printable(node, depth + 1),
        ensures
            pieces_view(final(pieces)@) == pieces_view(old(pieces)@) + plan_pieces(
                *self,
                depth as int,
            ),
    {
        let ghost before = pieces_view(pieces@);
        push_text_line(pieces, depth, "QueryPlan {");
        if let Some(node) = &self.node {
            node.pretty_fmt(pieces, depth + 1);
        } else {
            push_text_line(pieces, depth, "  None,");
        }
        push_text_line(pieces, depth, "},");
        assert(pieces_view(pieces@) =~= before + plan_pieces(*self, depth as int));
    }
}

impl FetchNode {
    /// Adds the pieces of the fetch.
    pub fn pretty_fmt<'a>(&'a self, pieces: &mut Vec<Piece<'a>>, depth: usize)
        requires
            depth + 2 <= usize::MAX,
        ensures
            pieces_view(final(pieces)@) == pieces_view(old(pieces)@) + fetch_pieces(
                *self,
                depth as int,
            ),
    {
        let ghost before = pieces_view(pieces@);
        push_line(pieces, depth, "Fetch(service: \"", self.service_name.as_str(), "\") {");
        let ghost head = pieces_view(pieces@);
        if let Some(selections) = &self.requires {
            push_text_line(pieces, depth, "  {");
            let ghost opened = pieces@;
            pieces.push(Piece::Selections(selections, depth + 2));
            assert(pieces_view(pieces@) =~= pieces_view(opened).push(
                PieceView::Selections(*selections, depth + 2),
            ));
            push_text_line(pieces, depth, "  } =>");
        }
        let ghost required = pieces@;
        pieces.push(Piece::Operation(&self.operation, depth));
        assert(pieces_view(pieces@) =~= pieces_view(required).push(
            PieceView::Operation(self.operation, depth as int),
        ));
        push_text_line(pieces, depth, "},");
        assert(pieces_view(pieces@) =~= before + fetch_pieces(*self, depth as int));
    }
}

impl FlattenNode {
    /// Adds the pieces of the node.
    pub fn pretty_fmt<'a>(&'a self, pieces: &mut Vec<Piece<'a>>, depth: usize)
        requires
            printable(*self.node, depth + 1),
        ensures
            pieces_view(final(pieces)@) == pieces_view(old(pieces)@) + block(
                depth as int,
                "Flatten(path: \""@ + path_text(self.path@, self.path@.len() as int) + "\") {"@,
                node_pieces(*self.node, depth + 1),
            ),
        decreases self,
    {
        let ghost before = pieces_view(pieces@);
        push_line(pieces, depth, "Flatten(path: \"", self.path.text().as_str(), "\") {");
        self.node.pretty_fmt(pieces, depth + 1);
        push_text_line(pieces, depth, "},");
        assert(pieces_view(pieces@) =~= before + block(
            depth as int,
            "Flatten(path: \""@ + path_text(self.path@, self.path@.len() as int) + "\") {"@,
            node_pieces(*self.node, depth + 1),
        ));
    }
}

/// Adds the pieces of nodes.
fn push_nodes<'a>(nodes: &'a Vec<PlanNode>, pieces: &mut Vec<Piece<'a>>, depth: usize)
    requires
        forall|i: int| 0 <= i < nodes@.len() ==> printable(#[trigger] nodes@[i], depth as int),
    ensures
        pieces_view(final(pieces)@) == pieces_view(old(pieces)@) + pieces_of_first(
            nodes@,
            nodes@.len() as int,
            depth as int,
        ),
    decreases nodes,
{
    let ghost before = pieces_view(pieces@);
    assert(before + pieces_of_first(nodes@, 0, depth as int) =~= before);
    for i in 0..nodes.len()
        invariant
            forall|i: int| 0 <= i < nodes@.len() ==> printable(#[trigger] nodes@[i], depth as int),
            pieces_view(pieces@) == before + pieces_of_first(nodes@, i as int, depth as int),
    {
        nodes[i].pretty_fmt(pieces, depth);
        assert(pieces_view(pieces@) =~= before + pieces_of_first(nodes@, i + 1, depth as int));
    }
}

impl SequenceNode {
    /// Adds the pieces of the node.
    pub fn pretty_fmt<'a>(&'a self, pieces: &mut Vec<Piece<'a>>, depth: usize)
        requires
            depth < usize::MAX,
            forall|i: int|
                0 <= i < self.nodes@.len() ==> printable(#[trigger] self.nodes@[i], depth + 1),
        ensures
            pieces_view(final(pieces)@) == pieces_view(old(pieces)@) + block(
                depth as int,
                "Sequence {"@,
                pieces_of_first(self.nodes@, self.nodes@.len() as int, depth + 1),
            ),
        decreases self,
    {
        let ghost before = pieces_view(pieces@);
        push_text_line(pieces, depth, "Sequence {");
        push_nodes(&self.nodes, pieces, depth + 1);
        push_text_line(pieces, depth, "},");
        assert(pieces_view(pieces@) =~= before + block(
            depth as int,
            "Sequence {"@,
            pieces_of_first(self.nodes@, self.nodes@.len() as int, depth + 1),
        ));
    }
}

impl ParallelNode {
    /// Adds the pieces of the node.
    pub fn pretty_fmt<'a>(&'a self, pieces: &mut Vec<Piece<'a>>, depth: usize)
        requires
            depth < usize::MAX,
            forall|i: int|
                0 <= i < self.nodes@.len() ==> printable(#[trigger] self.nodes@[i], depth + 1),
        ensures
            pieces_view(final(pieces)@) == pieces_view(old(pieces)@) + block(
                depth as int,
                "Parallel {"@,
                pieces_of_first(self.nodes@, self.nodes@.len() as int, depth + 1),
            ),
        decreases self,
    {
        let ghost before = pieces_view(pieces@);
        push_text_line(pieces, depth, "Parallel {");
        push_nodes(&self.nodes, pieces, depth + 1);
        push_text_line(pieces, depth, "},");
        assert(pieces_view(pieces@) =~= before + block(
            depth as int,
            "Parallel {"@,
            pieces_of_first(self.nodes@, self.nodes@.len() as int, depth + 1),
        ));
    }
}

impl ConditionNode {
    /// Adds the pieces of the node.
    pub fn pretty_fmt<'a>(&'a self, pieces: &mut Vec<Piece<'a>>, depth: usize)
        requires
            printable(PlanNode::Condition(*self), depth as int),
        ensures
            pieces_view(final(pieces)@) == pieces_view(old(pieces)@) + node_pieces(
                PlanNode::Condition(*self),
                depth as int,
            ),
        decreases self,
    {
        let ghost before = pieces_view(pieces@);
        if let Some(if_clause) = &self.if_clause {
            push_line(pieces, depth, "Include(if: $", self.condition.as_str(), ") {");
            if_clause.pretty_fmt(pieces, depth + 1);
            push_text_line(pieces, depth, "},");
        } else if let Some(else_clause) = &self.else_clause {
            push_line(pieces, depth, "Skip(if: $", self.condition.as_str(), ") {");
            else_clause.pretty_fmt(pieces, depth + 1);
            push_text_line(pieces, depth, "},");
        }
        assert(pieces_view(pieces@) =~= before + node_pieces(
            PlanNode::Condition(*self),
            depth as int,
        ));
    }
}

impl PlanNode {
    /// Adds the pieces of the node.
    pub fn pretty_fmt<'a>(&'a self, pieces: &mut Vec<Piece<'a>>, depth: usize)
        requires
            printable(*self, depth as int),
        ensures
            pieces_view(final(pieces)@) == pieces_view(old(pieces)@) + node_pieces(
                *self,
                depth as int,
            ),
        decreases self,
    {
        match self {
            PlanNode::Fetch(node) => node.pretty_fmt(pieces, depth),
            PlanNode::Flatten(node) => node.pretty_fmt(pieces, depth),
            PlanNode::Sequence(node) => node.pretty_fmt(pieces, depth),
            PlanNode::Parallel(node) => node.pretty_fmt(pieces, depth),
            PlanNode::Condition(node) => node.pretty_fmt(pieces, depth),
            _ => {
                assert(pieces_view(pieces@) + node_pieces(*self, depth as int) =~= pieces_view(
                    pieces@,
                ));
            },
        }
    }
}

/// The operations among pieces, in their order.
pub open spec fn shown_operations(pieces: Seq<PieceView>) -> Seq<SubgraphFetchOperation>
    decreases pieces.len(),
{
    if pieces.len() == 0 {
        Seq::empty()
    } else {
        let earlier = shown_operations(pieces.drop_last());
        match pieces.last() {
            PieceView::Operation(operation, _) => earlier.push(operation),
            _ => earlier,
        }
    }
}

/// The operations of fetches.
pub open spec fn operations(fetches: Seq<FetchNode>) -> Seq<SubgraphFetchOperation> {
    fetches.map_values(|fetch: FetchNode| fetch.operation)
}

/// Whether neither a subscription nor a deferred plan is under a node.
pub open spec fn shown_whole(node: PlanNode) -> bool
    decreases node,
{
    match node {
        PlanNode::Fetch(_) => true,
        PlanNode::Flatten(flatten) => shown_whole(*flatten.node),
        PlanNode::Sequence(sequence) => forall|i: int|
            0 <= i < sequence.nodes@.len() ==> shown_whole(#[trigger] sequence.nodes@[i]),
        PlanNode::Parallel(parallel) => forall|i: int|
            0 <= i < parallel.nodes@.len() ==> shown_whole(#[trigger] parallel.nodes@[i]),
        PlanNode::Condition(condition) => {
            &&& condition.if_clause matches Some(clause) ==> shown_whole(*clause)
            &&& condition.else_clause matches Some(clause) ==> shown_whole(*clause)
        },
        PlanNode::Subscription(_) | PlanNode::Defer(_) => false,
    }
}

proof fn lemma_shown_concat(a: Seq<PieceView>, b: Seq<PieceView>)
    ensures
        shown_operations(a + b) == shown_operations(a) + shown_operations(b),
    decreases b.len(),
{
    if b.len() == 0 {
        assert(a + b =~= a);
        assert(shown_operations(a) + shown_operations(b) =~= shown_operations(a));
    } else {
        lemma_shown_concat(a, b.drop_last());
        assert((a + b).drop_last() =~= a + b.drop_last());
        assert(shown_operations(a + b) =~= shown_operations(a) + shown_operations(b));
    }
}

proof fn lemma_shown_line(depth: int, text: Seq<char>)
    ensures
        shown_operations(seq![line(depth, text)]) == Seq::<SubgraphFetchOperation>::empty(),
{
    reveal_with_fuel(shown_operations, 2);
    assert(seq![line(depth, text)].drop_last() =~= Seq::empty());
}

proof fn lemma_shown_block(depth: int, head: Seq<char>, inner: Seq<PieceView>)
    ensures
        shown_operations(block(depth, head, inner)) == shown_operations(inner),
{
    let open = seq![line(depth, head)];
    let close = seq![line(depth, "},"@)];
    lemma_shown_concat(open + inner, close);
    lemma_shown_concat(open, inner);
    lemma_shown_line(depth, head);
    lemma_shown_line(depth, "},"@);
    assert(shown_operations(block(depth, head, inner)) =~= shown_operations(inner));
}

/// The text of a plan shows the operations of all its fetches, in their order.
pub proof fn every_fetch_is_shown(node: PlanNode, depth: int)
    requires
        printable(node, depth),
        shown_whole(node),
    ensures
        shown_operations(node_pieces(node, depth)) == operations(fetches(node)),
    decreases node, 1int,
{
    match node {
        PlanNode::Fetch(fetch) => {
            let operation = seq![PieceView::Operation(fetch.operation, depth)];
            let inner = match fetch.requires {
                Some(selections) => seq![
                    line(depth, "  {"@),
                    PieceView::Selections(selections, depth + 2),
                    line(depth, "  } =>"@),
                ],
                None => Seq::empty(),
            };
            assert(shown_operations(inner) == Seq::<SubgraphFetchOperation>::empty()) by {
                reveal_with_fuel(shown_operations, 4);
            }
            assert(shown_operations(operation) =~= seq![fetch.operation]) by {
                reveal_with_fuel(shown_operations, 2);
                assert(operation.drop_last() =~= Seq::empty());
            }
            lemma_shown_concat(inner, operation);
            lemma_shown_block(
                depth,
                "Fetch(service: \""@ + fetch.service_name@ + "\") {"@,
                inner + operation,
            );
            assert(shown_operations(node_pieces(node, depth)) =~= operations(fetches(node)));
        },
        PlanNode::Flatten(flatten) => {
            every_fetch_is_shown(*flatten.node, depth + 1);
            lemma_shown_block(
                depth,
                "Flatten(path: \""@ + path_text(flatten.path@, flatten.path@.len() as int)
                    + "\") {"@,
                node_pieces(*flatten.node, depth + 1),
            );
        },
        PlanNode::Sequence(sequence) => {
            let n = sequence.nodes@.len() as int;
            lemma_nodes_are_shown(sequence.nodes@, n, depth + 1);
            lemma_shown_block(
                depth,
                "Sequence {"@,
                pieces_of_first(sequence.nodes@, n, depth + 1),
            );
        },
        PlanNode::Parallel(parallel) => {
            let n = parallel.nodes@.len() as int;
            lemma_nodes_are_shown(parallel.nodes@, n, depth + 1);
            lemma_shown_block(
                depth,
                "Parallel {"@,
                pieces_of_first(parallel.nodes@, n, depth + 1),
            );
        },
        PlanNode::Condition(condition) => {
            match (condition.if_clause, condition.else_clause) {
                (Some(clause), _) => {
                    every_fetch_is_shown(*clause, depth + 1);
                    lemma_shown_block(
                        depth,
                        "Include(if: $"@ + condition.condition@ + ") {"@,
                        node_pieces(*clause, depth + 1),
                    );
                    assert(fetches(node) =~= fetches(*clause));
                },
                (None, Some(clause)) => {
                    every_fetch_is_shown(*clause, depth + 1);
                    lemma_shown_block(
                        depth,
                        "Skip(if: $"@ + condition.condition@ + ") {"@,
                        node_pieces(*clause, depth + 1),
                    );
                    assert(fetches(node) =~= fetches(*clause));
                },
                (None, None) => {},
            }
        },
        PlanNode::Subscription(_) | PlanNode::Defer(_) => {},
    }
}

proof fn lemma_nodes_are_shown(nodes: Seq<PlanNode>, n: int, depth: int)
    requires
        0 <= n <= nodes.len(),
        forall|i: int| 0 <= i < nodes.len() ==> printable(#[trigger] nodes[i], depth),
        forall|i: int| 0 <= i < nodes.len() ==> shown_whole(#[trigger] nodes[i]),
    ensures
        shown_operations(pieces_of_first(nodes, n, depth)) == operations(
            fetches_of_first(nodes, n),
        ),
    decreases nodes, n,
{
    if n == 0 {
        assert(operations(fetches_of_first(nodes, 0)) =~= Seq::empty());
    } else {
        lemma_nodes_are_shown(nodes, n - 1, depth);
        every_fetch_is_shown(nodes[n - 1], depth);
        lemma_shown_concat(pieces_of_first(nodes, n - 1, depth), node_pieces(nodes[n - 1], depth));
        assert(operations(fetches_of_first(nodes, n)) =~= operations(
            fetches_of_first(nodes, n - 1),
        ) + operations(fetches(nodes[n - 1])));
    }
}

} // verus!
