//! Calls that show a plan.

use vstd::prelude::*;

use crate::laws::showing::{
    blanks, conditions_are_shown_by_their_clause, fetches_are_shown_whole, frames, is_line,
    lines_are_indented_by_their_depth, nodes_are_shown_in_frames, plans_are_shown_with_their_node,
};
use crate::paths::{path_text, segment_text};
use crate::plan_nodes::{
    ConditionNode, FetchNode, FlattenNode, FlattenNodePath, FlattenNodePathSegment, ParallelNode,
    PlanNode, QueryPlan, SequenceNode,
};
use crate::pretty::{
    fetch_pieces, get_indent, node_pieces, pieces_of_first, pieces_view, plan_pieces, Piece,
    PieceView,
};

verus! {

/// What is in one list of pieces behind another one, where that one starts it.
pub open spec fn added(before: Seq<PieceView>, after: Seq<PieceView>) -> Seq<PieceView> {
    after.skip(before.len() as int)
}

/// Whether one list of pieces starts with another one.
pub open spec fn goes_on(before: Seq<PieceView>, after: Seq<PieceView>) -> bool {
    after.len() >= before.len() && after.take(before.len() as int) == before
}

proof fn lemma_added(before: Seq<PieceView>, more: Seq<PieceView>)
    ensures
        goes_on(before, before + more),
        added(before, before + more) == more,
{
    assert((before + more).take(before.len() as int) =~= before);
    assert((before + more).skip(before.len() as int) =~= more);
}

/// A condition with one clause, whatever node the clause is, adds the frame of an inclusion or of a
/// skip, with the pieces of the clause in it.
pub proof fn conditions_show_their_clause<'a>(
    node: &'a ConditionNode,
    pieces: &mut Vec<Piece<'a>>,
    depth: usize,
)
    requires
        call_ensures(ConditionNode::pretty_fmt, (node, pieces, depth), ()),
        node.if_clause is Some != node.else_clause is Some,
    ensures
        ({
            let (before, after) = (pieces_view(old(pieces)@), pieces_view(final(pieces)@));
            &&& goes_on(before, after)
            &&& node.if_clause matches Some(clause) ==> frames(
                added(before, after),
                depth as int,
                "Include(if: $"@ + node.condition@ + ") {"@,
                node_pieces(*clause, depth + 1),
            )
            &&& node.else_clause matches Some(clause) ==> frames(
                added(before, after),
                depth as int,
                "Skip(if: $"@ + node.condition@ + ") {"@,
                node_pieces(*clause, depth + 1),
            )
        }),
{
    let whole = PlanNode::Condition(*node);
    conditions_are_shown_by_their_clause(whole, depth as int);
    lemma_added(pieces_view(old(pieces)@), node_pieces(whole, depth as int));
}

/// A fetch adds a line with its subgraph, what it requires, its operation, and the line that ends
/// it.
pub proof fn fetches_show_what_they_ask_for<'a>(
    node: &'a FetchNode,
    pieces: &mut Vec<Piece<'a>>,
    depth: usize,
)
    requires
        call_ensures(FetchNode::pretty_fmt, (node, pieces, depth), ()),
    ensures
        ({
            let (before, after) = (pieces_view(old(pieces)@), pieces_view(final(pieces)@));
            let new = added(before, after);
            &&& goes_on(before, after)
            &&& is_line(new[0], depth as int, "Fetch(service: \""@ + node.service_name@ + "\") {"@)
            &&& new[new.len() - 2] == PieceView::Operation(node.operation, depth as int)
            &&& is_line(new[new.len() - 1], depth as int, "},"@)
            &&& match node.requires {
                Some(selections) => {
                    &&& new.len() == 6
                    &&& is_line(new[1], depth as int, "  {"@)
                    &&& new[2] == PieceView::Selections(selections, depth + 2)
                    &&& is_line(new[3], depth as int, "  } =>"@)
                },
                None => new.len() == 3,
            }
        }),
{
    fetches_are_shown_whole(*node, depth as int);
    lemma_added(pieces_view(old(pieces)@), fetch_pieces(*node, depth as int));
}

/// A flattened node adds the frame of its path.
pub proof fn flattened_nodes_show_their_path<'a>(
    node: &'a FlattenNode,
    pieces: &mut Vec<Piece<'a>>,
    depth: usize,
)
    requires
        call_ensures(FlattenNode::pretty_fmt, (node, pieces, depth), ()),
    ensures
        ({
            let (before, after) = (pieces_view(old(pieces)@), pieces_view(final(pieces)@));
            &&& goes_on(before, after)
            &&& frames(
                added(before, after),
                depth as int,
                "Flatten(path: \""@ + path_text(node.path@, node.path@.len() as int) + "\") {"@,
                node_pieces(*node.node, depth + 1),
            )
        }),
{
    let whole = PlanNode::Flatten(*node);
    nodes_are_shown_in_frames(whole, depth as int);
    lemma_added(pieces_view(old(pieces)@), node_pieces(whole, depth as int));
}

/// A sequence adds its frame with all its nodes in it.
pub proof fn sequences_show_their_nodes<'a>(
    node: &'a SequenceNode,
    pieces: &mut Vec<Piece<'a>>,
    depth: usize,
)
    requires
        call_ensures(SequenceNode::pretty_fmt, (node, pieces, depth), ()),
    ensures
        ({
            let (before, after) = (pieces_view(old(pieces)@), pieces_view(final(pieces)@));
            &&& goes_on(before, after)
            &&& frames(
                added(before, after),
                depth as int,
                "Sequence {"@,
                pieces_of_first(node.nodes@, node.nodes@.len() as int, depth + 1),
            )
        }),
{
    let whole = PlanNode::Sequence(*node);
    nodes_are_shown_in_frames(whole, depth as int);
    lemma_added(pieces_view(old(pieces)@), node_pieces(whole, depth as int));
}

/// Nodes side by side add their frame with all of them in it.
pub proof fn nodes_side_by_side_show_their_nodes<'a>(
    node: &'a ParallelNode,
    pieces: &mut Vec<Piece<'a>>,
    depth: usize,
)
    requires
        call_ensures(ParallelNode::pretty_fmt, (node, pieces, depth), ()),
    ensures
        ({
            let (before, after) = (pieces_view(old(pieces)@), pieces_view(final(pieces)@));
            &&& goes_on(before, after)
            &&& frames(
                added(before, after),
                depth as int,
                "Parallel {"@,
                pieces_of_first(node.nodes@, node.nodes@.len() as int, depth + 1),
            )
        }),
{
    let whole = PlanNode::Parallel(*node);
    nodes_are_shown_in_frames(whole, depth as int);
    lemma_added(pieces_view(old(pieces)@), node_pieces(whole, depth as int));
}

/// Whatever node it is, a node adds its pieces and changes none of those before.
pub proof fn nodes_show_their_pieces<'a>(
    node: &'a PlanNode,
    pieces: &mut Vec<Piece<'a>>,
    depth: usize,
)
    requires
        call_ensures(PlanNode::pretty_fmt, (node, pieces, depth), ()),
    ensures
        goes_on(pieces_view(old(pieces)@), pieces_view(final(pieces)@)),
        added(pieces_view(old(pieces)@), pieces_view(final(pieces)@)) == node_pieces(
            *node,
            depth as int,
        ),
{
    lemma_added(pieces_view(old(pieces)@), node_pieces(*node, depth as int));
}

/// A plan adds its frame with its node in it, or with the word for none.
pub proof fn plans_show_their_node<'a>(
    plan: &'a QueryPlan,
    pieces: &mut Vec<Piece<'a>>,
    depth: usize,
)
    requires
        call_ensures(QueryPlan::pretty_fmt, (plan, pieces, depth), ()),
    ensures
        ({
            let (before, after) = (pieces_view(old(pieces)@), pieces_view(final(pieces)@));
            let new = added(before, after);
            &&& goes_on(before, after)
            &&& plan.node matches Some(node) ==> frames(
                new,
                depth as int,
                "QueryPlan {"@,
                node_pieces(node, depth + 1),
            )
            &&& plan.node is None ==> {
                &&& new.len() == 3
                &&& is_line(new[0], depth as int, "QueryPlan {"@)
                &&& is_line(new[1], depth as int, "  None,"@)
                &&& is_line(new[2], depth as int, "},"@)
            }
        }),
{
    plans_are_shown_with_their_node(*plan, depth as int);
    lemma_added(pieces_view(old(pieces)@), plan_pieces(*plan, depth as int));
}

/// The space before a line is two blanks for each level of depth.
pub proof fn space_is_given_by_depth(depth: usize, text: String)
    requires
        call_ensures(get_indent, (depth,), text),
    ensures
        text@ == blanks(depth as int),
{
    lines_are_indented_by_their_depth(depth as int);
}

/// A segment is written as its name, as a type in brackets, or as the sign of a list.
pub proof fn segments_are_written(segment: &FlattenNodePathSegment, text: String)
    requires
        call_ensures(FlattenNodePathSegment::text, (segment,), text),
    ensures
        *segment matches FlattenNodePathSegment::Field(name) ==> text@ == name@,
        *segment matches FlattenNodePathSegment::Cast(name) ==> text@ == "|["@ + name@ + "]"@,
        *segment is List ==> text@ == "@"@,
{
}

/// A path without segments is written as nothing, and one with one segment as that segment.
pub proof fn paths_are_written(path: &FlattenNodePath, text: String)
    requires
        call_ensures(FlattenNodePath::text, (path,), text),
    ensures
        path@.len() == 0 ==> text@ == Seq::<char>::empty(),
        path@.len() == 1 ==> text@ == segment_text(path@[0]),
        text@ == path_text(path@, path@.len() as int),
{
    reveal_with_fuel(path_text, 2);
    if path@.len() == 1 {
        assert(Seq::<char>::empty() + segment_text(path@[0]) =~= segment_text(path@[0]));
    }
}

} // verus!
