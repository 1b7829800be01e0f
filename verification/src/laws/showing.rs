//! How plans and paths read.

use vstd::prelude::*;

use crate::ast::{SelectionSet, SubgraphFetchOperation};
use crate::paths::{path_text, segment_text};
use crate::plan_nodes::{FetchNode, FlattenNodePathSegment, PlanNode, QueryPlan};
use crate::pretty::{
    fetch_pieces, indent, node_pieces, pieces_of_first, pieces_view, plan_pieces, printable, Piece,
    PieceView,
};

verus! {

/// Two blanks for each level of depth.
pub open spec fn blanks(depth: int) -> Seq<char> {
    Seq::new((2 * depth) as nat, |i: int| ' ')
}

/// A line of its own, at a depth.
pub open spec fn is_line(piece: PieceView, depth: int, text: Seq<char>) -> bool {
    piece == PieceView::Text(blanks(depth) + text + "\n"@)
}

/// Whether pieces are others between a head and an end, each on a line of its own.
pub open spec fn frames(
    pieces: Seq<PieceView>,
    depth: int,
    head: Seq<char>,
    inner: Seq<PieceView>,
) -> bool {
    &&& pieces.len() == inner.len() + 2
    &&& is_line(pieces[0], depth, head)
    &&& forall|k: int| 0 <= k < inner.len() ==> pieces[k + 1] == #[trigger] inner[k]
    &&& is_line(pieces[pieces.len() - 1], depth, "},"@)
}

/// The space before a line is two blanks for each level of depth.
pub proof fn lines_are_indented_by_their_depth(depth: int)
    requires
        0 <= depth,
    ensures
        indent(depth) == blanks(depth),
    decreases depth,
{
    if depth > 0 {
        lines_are_indented_by_their_depth(depth - 1);
        reveal_strlit("  ");
        assert(indent(depth) =~= blanks(depth));
    } else {
        assert(indent(depth) =~= blanks(depth));
    }
}

/// A condition with one clause, whatever node the clause is, is shown as an inclusion where it has
/// the if clause and as a skip where it has the else clause, by the name of its variable, with the
/// clause one level deeper in it.
pub proof fn conditions_are_shown_by_their_clause(node: PlanNode, depth: int)
    requires
        0 <= depth,
        node is Condition,
        node->Condition_0.if_clause is Some != node->Condition_0.else_clause is Some,
    ensures
        node->Condition_0.if_clause matches Some(clause) ==> frames(
            node_pieces(node, depth),
            depth,
            "Include(if: $"@ + node->Condition_0.condition@ + ") {"@,
            node_pieces(*clause, depth + 1),
        ),
        node->Condition_0.else_clause matches Some(clause) ==> frames(
            node_pieces(node, depth),
            depth,
            "Skip(if: $"@ + node->Condition_0.condition@ + ") {"@,
            node_pieces(*clause, depth + 1),
        ),
{
    lines_are_indented_by_their_depth(depth);
}

/// A fetch is shown with its subgraph, then with what it requires, where it requires something, and
/// with its operation.
pub proof fn fetches_are_shown_whole(fetch: FetchNode, depth: int)
    requires
        0 <= depth,
    ensures
        node_pieces(PlanNode::Fetch(fetch), depth) == fetch_pieces(fetch, depth),
        ({
            let pieces = fetch_pieces(fetch, depth);
            let last = pieces.len() - 1;
            &&& is_line(pieces[0], depth, "Fetch(service: \""@ + fetch.service_name@ + "\") {"@)
            &&& pieces[last - 1] == PieceView::Operation(fetch.operation, depth)
            &&& is_line(pieces[last], depth, "},"@)
            &&& match fetch.requires {
                Some(selections) => {
                    &&& pieces.len() == 6
                    &&& is_line(pieces[1], depth, "  {"@)
                    &&& pieces[2] == PieceView::Selections(selections, depth + 2)
                    &&& is_line(pieces[3], depth, "  } =>"@)
                },
                None => pieces.len() == 3,
            }
        }),
{
    lines_are_indented_by_their_depth(depth);
}

/// A flattened node is shown with its path, and a group as what it is, each with what is in it one
/// level deeper. Subscriptions and deferred plans are not shown.
pub proof fn nodes_are_shown_in_frames(node: PlanNode, depth: int)
    requires
        0 <= depth,
    ensures
        node is Flatten ==> frames(
            node_pieces(node, depth),
            depth,
            "Flatten(path: \""@ + path_text(
                node->Flatten_0.path@,
                node->Flatten_0.path@.len() as int,
            ) + "\") {"@,
            node_pieces(*node->Flatten_0.node, depth + 1),
        ),
        node is Sequence ==> frames(
            node_pieces(node, depth),
            depth,
            "Sequence {"@,
            pieces_of_first(
                node->Sequence_0.nodes@,
                node->Sequence_0.nodes@.len() as int,
                depth + 1,
            ),
        ),
        node is Parallel ==> frames(
            node_pieces(node, depth),
            depth,
            "Parallel {"@,
            pieces_of_first(
                node->Parallel_0.nodes@,
                node->Parallel_0.nodes@.len() as int,
                depth + 1,
            ),
        ),
        node is Subscription || node is Defer ==> node_pieces(node, depth).len() == 0,
{
    lines_are_indented_by_their_depth(depth);
}

/// The nodes of a group are shown one after the other: the pieces of node `i` stand in their order
/// behind those of the nodes before it.
pub proof fn groups_are_shown_in_order(nodes: Seq<PlanNode>, n: int, depth: int, i: int, k: int)
    requires
        0 <= i < n <= nodes.len(),
        0 <= k < node_pieces(nodes[i], depth).len(),
    ensures
        pieces_of_first(nodes, 0, depth).len() == 0,
        pieces_of_first(nodes, i + 1, depth).len() == pieces_of_first(nodes, i, depth).len()
            + node_pieces(nodes[i], depth).len(),
        pieces_of_first(nodes, i, depth).len() + k < pieces_of_first(nodes, n, depth).len(),
        pieces_of_first(nodes, n, depth)[pieces_of_first(nodes, i, depth).len() + k] == node_pieces(
            nodes[i],
            depth,
        )[k],
    decreases n,
{
    if i < n - 1 {
        groups_are_shown_in_order(nodes, n - 1, depth, i, k);
        assert(pieces_of_first(nodes, n, depth) == pieces_of_first(nodes, n - 1, depth)
            + node_pieces(nodes[n - 1], depth));
    }
}

/// A plan is shown with its node one level deeper in it, or with the word for none.
pub proof fn plans_are_shown_with_their_node(plan: QueryPlan, depth: int)
    requires
        0 <= depth,
    ensures
        plan.node matches Some(node) ==> frames(
            plan_pieces(plan, depth),
            depth,
            "QueryPlan {"@,
            node_pieces(node, depth + 1),
        ),
        plan.node is None ==> {
            &&& plan_pieces(plan, depth).len() == 3
            &&& is_line(plan_pieces(plan, depth)[0], depth, "QueryPlan {"@)
            &&& is_line(plan_pieces(plan, depth)[1], depth, "  None,"@)
            &&& is_line(plan_pieces(plan, depth)[2], depth, "},"@)
        },
{
    lines_are_indented_by_their_depth(depth);
}

/// A node can be shown exactly where its depth can be counted and what is in it can be shown; a
/// condition, where it has just one clause.
pub proof fn nodes_can_be_shown(node: PlanNode, depth: int)
    ensures
        printable(node, depth) ==> depth + 2 <= usize::MAX,
        depth + 2 <= usize::MAX ==> {
            &&& node is Fetch || node is Subscription || node is Defer ==> printable(node, depth)
            &&& node is Flatten ==> (printable(node, depth) <==> printable(
                *node->Flatten_0.node,
                depth + 1,
            ))
            &&& node is Sequence ==> (printable(node, depth) <==> forall|i: int|
                0 <= i < node->Sequence_0.nodes@.len() ==> printable(
                    #[trigger] node->Sequence_0.nodes@[i],
                    depth + 1,
                ))
            &&& node is Parallel ==> (printable(node, depth) <==> forall|i: int|
                0 <= i < node->Parallel_0.nodes@.len() ==> printable(
                    #[trigger] node->Parallel_0.nodes@[i],
                    depth + 1,
                ))
            &&& node is Condition ==> (printable(node, depth)
                <==> node->Condition_0.if_clause is Some != node->Condition_0.else_clause is Some
                && (node->Condition_0.if_clause matches Some(clause) ==> printable(
                *clause,
                depth + 1,
            )) && (node->Condition_0.else_clause matches Some(clause) ==> printable(
                *clause,
                depth + 1,
            )))
        },
{
}

/// Pieces read as what they hold, in their order.
pub proof fn pieces_read_as_they_are(
    pieces: Seq<Piece>,
    k: int,
    text: String,
    selections: &SelectionSet,
    operation: &SubgraphFetchOperation,
    depth: usize,
)
    requires
        0 <= k < pieces.len(),
    ensures
        pieces_view(pieces).len() == pieces.len(),
        pieces[k] == Piece::Text(text) ==> pieces_view(pieces)[k] == PieceView::Text(text@),
        pieces[k] == Piece::Selections(selections, depth) ==> pieces_view(pieces)[k]
            == PieceView::Selections(*selections, depth as int),
        pieces[k] == Piece::Operation(operation, depth) ==> pieces_view(pieces)[k]
            == PieceView::Operation(*operation, depth as int),
{
}

/// Adding a segment to a path adds its text: a field by its name, a list as `@`, each behind a dot
/// unless it is the first one, and a cast in brackets without a dot.
pub proof fn paths_are_written_segment_by_segment(
    path: Seq<FlattenNodePathSegment>,
    segment: FlattenNodePathSegment,
)
    ensures
        path_text(Seq::<FlattenNodePathSegment>::empty(), 0) == Seq::<char>::empty(),
        ({
            let before = path_text(path, path.len() as int);
            let after = path_text(path.push(segment), path.len() as int + 1);
            let dot = if path.len() == 0 {
                Seq::<char>::empty()
            } else {
                "."@
            };
            match segment {
                FlattenNodePathSegment::Field(name) => after == before + dot + name@,
                FlattenNodePathSegment::List => after == before + dot + "@"@,
                FlattenNodePathSegment::Cast(name) => after == before + "|["@ + name@ + "]"@,
            }
        }),
{
    let longer = path.push(segment);
    lemma_text_of_a_prefix(path, longer, path.len() as int);
    let before = path_text(path, path.len() as int);
    assert(longer[path.len() as int] == segment);
    assert(segment is Cast ==> before + segment_text(segment) =~= before + "|["@
        + segment->Cast_0@ + "]"@);
    assert(path.len() == 0 && !(segment is Cast) ==> before + segment_text(segment) =~= before
        + Seq::<char>::empty() + segment_text(segment));
}

proof fn lemma_text_of_a_prefix(
    a: Seq<FlattenNodePathSegment>,
    b: Seq<FlattenNodePathSegment>,
    n: int,
)
    requires
        0 <= n <= a.len() <= b.len(),
        forall|k: int| 0 <= k < a.len() ==> a[k] == b[k],
    ensures
        path_text(a, n) == path_text(b, n),
    decreases n,
{
    if n > 0 {
        lemma_text_of_a_prefix(a, b, n - 1);
    }
}

/// A segment reads the same wherever it stands: a field as its name, a list as `@`, and a cast as
/// the name of its type in brackets.
pub proof fn segments_read_as_they_are(name: String)
    ensures
        segment_text(FlattenNodePathSegment::Field(name)) == name@,
        segment_text(FlattenNodePathSegment::Cast(name)) == "|["@ + name@ + "]"@,
        segment_text(FlattenNodePathSegment::List) == "@"@,
{
}

} // verus!
