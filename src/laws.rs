//! Properties that hold of every well-formed tree.

use vstd::prelude::*;
use crate::lines::{is_desc, spec_child_lines, spec_total_lines};
use crate::model::{
    count_complete, count_errors, lemma_count_bound, node_ok, tree_wf,
};
use crate::node::NodeType;
use crate::render::{spec_child_rows, spec_render};
use crate::status::ProgressDisplayVariant;

verus! {

proof fn lemma_counts_exact(nodes: Seq<NodeType>, cs: Seq<usize>)
    requires
        forall|k: int| 0 <= k < cs.len() ==> (#[trigger] cs[k] as int) < nodes.len(),
    ensures
        count_complete(nodes, cs, -1) + count_errors(nodes, cs, -1) == cs.len() <==> forall|k: int|
            0 <= k < cs.len() ==> nodes[#[trigger] cs[k] as int].spec_status().spec_is_terminal(),
        count_errors(nodes, cs, -1) > 0 <==> exists|k: int|
            0 <= k < cs.len() && nodes[#[trigger] cs[k] as int].spec_status().spec_is_error_bearing(),
        count_complete(nodes, cs, -1) == cs.len() <==> forall|k: int|
            0 <= k < cs.len() ==> nodes[#[trigger] cs[k] as int].spec_status()
                == ProgressDisplayVariant::Complete,
    decreases cs.len(),
{
    if cs.len() > 0 {
        let init = cs.drop_last();
        let last = cs.len() - 1;
        assert(cs.last() == cs[last]);
        assert forall|k: int| 0 <= k < init.len() implies (#[trigger] init[k] as int) < nodes.len() by {
            assert(init[k] == cs[k]);
        }
        lemma_counts_exact(nodes, init);
        lemma_count_bound(nodes, init, -1);
        if forall|k: int|
            0 <= k < cs.len() ==> nodes[#[trigger] cs[k] as int].spec_status().spec_is_terminal() {
            assert forall|k: int| 0 <= k < init.len() implies nodes[#[trigger] init[k] as int].spec_status().spec_is_terminal() by {
                assert(init[k] == cs[k]);
            }
        }
        if forall|k: int|
            0 <= k < cs.len() ==> nodes[#[trigger] cs[k] as int].spec_status()
                == ProgressDisplayVariant::Complete {
            assert forall|k: int| 0 <= k < init.len() implies nodes[#[trigger] init[k] as int].spec_status()
                == ProgressDisplayVariant::Complete by {
                assert(init[k] == cs[k]);
            }
        }
        if count_complete(nodes, cs, -1) + count_errors(nodes, cs, -1) == cs.len() {
            assert forall|k: int| 0 <= k < cs.len() implies nodes[#[trigger] cs[k] as int].spec_status().spec_is_terminal() by {
                if k < last {
                    assert(init[k] == cs[k]);
                }
            }
        }
        if count_complete(nodes, cs, -1) == cs.len() {
            assert forall|k: int| 0 <= k < cs.len() implies nodes[#[trigger] cs[k] as int].spec_status()
                == ProgressDisplayVariant::Complete by {
                if k < last {
                    assert(init[k] == cs[k]);
                }
            }
        }
        if count_errors(nodes, cs, -1) > 0 {
            if count_errors(nodes, init, -1) > 0 {
                let k = choose|k: int|
                    0 <= k < init.len() && nodes[#[trigger] init[k] as int].spec_status().spec_is_error_bearing();
                assert(cs[k] == init[k]);
            }
        }
        if exists|k: int|
            0 <= k < cs.len() && nodes[#[trigger] cs[k] as int].spec_status().spec_is_error_bearing() {
            let k = choose|k: int|
                0 <= k < cs.len() && nodes[#[trigger] cs[k] as int].spec_status().spec_is_error_bearing();
            if k < last {
                assert(init[k] == cs[k]);
            }
        }
    }
}

/// A branch never counts more finished children than it has.
pub proof fn lemma_counts_within_children(nodes: Seq<NodeType>, i: int)
    requires
        tree_wf(nodes),
        0 <= i < nodes.len(),
        nodes[i].is_branch(),
    ensures
        nodes[i].spec_complete() + nodes[i].spec_errors() <= nodes[i].spec_children().len(),
{
    assert(node_ok(nodes, i));
    lemma_count_bound(nodes, nodes[i].spec_children(), -1);
}

/// No branch of a well-formed tree counts more finished children than it
/// has.
pub proof fn lemma_counts_bounded_everywhere(nodes: Seq<NodeType>)
    requires
        tree_wf(nodes),
    ensures
        forall|i: int|
            0 <= i < nodes.len() && nodes[i].is_branch() ==> #[trigger] nodes[i].spec_complete()
                + nodes[i].spec_errors() <= nodes[i].spec_children().len(),
{
    assert forall|i: int| 0 <= i < nodes.len() && nodes[i].is_branch() implies #[trigger] nodes[i].spec_complete()
        + nodes[i].spec_errors() <= nodes[i].spec_children().len() by {
        lemma_counts_within_children(nodes, i);
    }
}

/// A branch with children that did not fail itself is complete exactly when
/// all its children are finished, and complete with an error exactly when,
/// moreover, one of them carries an error.
pub proof fn lemma_branch_status(nodes: Seq<NodeType>, i: int)
    requires
        tree_wf(nodes),
        0 <= i < nodes.len(),
        nodes[i].is_branch(),
        nodes[i].spec_children().len() > 0,
        nodes[i].spec_status() != ProgressDisplayVariant::Error,
    ensures
        (nodes[i].spec_status() == ProgressDisplayVariant::Complete || nodes[i].spec_status()
            == ProgressDisplayVariant::CompleteWithError) <==> forall|k: int|
            0 <= k < nodes[i].spec_children().len()
                ==> nodes[#[trigger] nodes[i].spec_children()[k] as int].spec_status().spec_is_terminal(),
        nodes[i].spec_status() == ProgressDisplayVariant::CompleteWithError <==> (forall|k: int|
            0 <= k < nodes[i].spec_children().len()
                ==> nodes[#[trigger] nodes[i].spec_children()[k] as int].spec_status().spec_is_terminal())
            && exists|k: int|
            0 <= k < nodes[i].spec_children().len()
                && nodes[#[trigger] nodes[i].spec_children()[k] as int].spec_status().spec_is_error_bearing(),
{
    assert(node_ok(nodes, i));
    let cs = nodes[i].spec_children();
    assert forall|k: int| 0 <= k < cs.len() implies (#[trigger] cs[k] as int) < nodes.len() by {}
    lemma_counts_exact(nodes, cs);
}

/// Below a completed node every node completed cleanly.
pub proof fn lemma_complete_is_clean(nodes: Seq<NodeType>, d: int, i: int)
    requires
        nodes.len() <= usize::MAX,
        tree_wf(nodes),
        is_desc(nodes, d, i),
        0 <= i < nodes.len(),
        nodes[i].spec_status() == ProgressDisplayVariant::Complete,
    ensures
        nodes[d].spec_status() == ProgressDisplayVariant::Complete,
    decreases d,
{
    if d != i {
        let q = nodes[d].spec_parent().unwrap() as int;
        lemma_complete_is_clean(nodes, q, i);
        assert(node_ok(nodes, d));
        assert(node_ok(nodes, q));
        let cs = nodes[q].spec_children();
        assert forall|k: int| 0 <= k < cs.len() implies (#[trigger] cs[k] as int) < nodes.len() by {}
        lemma_counts_exact(nodes, cs);
        let j = choose|j: int| 0 <= j < cs.len() && cs[j] == d as usize;
        assert(nodes[cs[j] as int].spec_status() == ProgressDisplayVariant::Complete);
    }
}

/// A node strictly below `i` lies below one of its children.
proof fn lemma_desc_via_child(nodes: Seq<NodeType>, d: int, i: int)
    requires
        nodes.len() <= usize::MAX,
        tree_wf(nodes),
        is_desc(nodes, d, i),
        d != i,
        0 <= i,
    ensures
        exists|k: int|
            0 <= k < nodes[i].spec_children().len() && is_desc(
                nodes,
                d,
                #[trigger] nodes[i].spec_children()[k] as int,
            ),
    decreases d,
{
    let q = nodes[d].spec_parent().unwrap() as int;
    assert(node_ok(nodes, d));
    if q == i {
        let cs = nodes[i].spec_children();
        let k = choose|k: int| 0 <= k < cs.len() && cs[k] == d as usize;
        assert(is_desc(nodes, d, cs[k] as int));
    } else {
        lemma_desc_via_child(nodes, q, i);
        let cs = nodes[i].spec_children();
        let k = choose|k: int| 0 <= k < cs.len() && is_desc(nodes, q, #[trigger] cs[k] as int);
        lemma_desc_extend(nodes, d, q, cs[k] as int);
    }
}

proof fn lemma_desc_extend(nodes: Seq<NodeType>, d: int, q: int, c: int)
    requires
        nodes.len() <= usize::MAX,
        0 <= d < nodes.len(),
        nodes[d].spec_parent() == Some(q as usize),
        0 <= q < d,
        is_desc(nodes, q, c),
    ensures
        is_desc(nodes, d, c),
{
}

/// An error anywhere below a branch, however deep, shows in the branch as
/// `CompleteWithError` once its own children are all finished.
pub proof fn lemma_error_below(nodes: Seq<NodeType>, d: int, i: int)
    requires
        nodes.len() <= usize::MAX,
        tree_wf(nodes),
        0 <= i < nodes.len(),
        is_desc(nodes, d, i),
        d != i,
        nodes[d].spec_status().spec_is_error_bearing(),
        nodes[i].spec_status() != ProgressDisplayVariant::Error,
        forall|k: int|
            0 <= k < nodes[i].spec_children().len()
                ==> nodes[#[trigger] nodes[i].spec_children()[k] as int].spec_status().spec_is_terminal(),
    ensures
        nodes[i].spec_status() == ProgressDisplayVariant::CompleteWithError,
{
    lemma_desc_via_child(nodes, d, i);
    let cs = nodes[i].spec_children();
    let k = choose|k: int| 0 <= k < cs.len() && is_desc(nodes, d, #[trigger] cs[k] as int);
    assert(node_ok(nodes, i));
    let c = cs[k] as int;
    if nodes[c].spec_status() == ProgressDisplayVariant::Complete {
        lemma_complete_is_clean(nodes, d, c);
    }
    assert(nodes[cs[k] as int].spec_status().spec_is_error_bearing());
    lemma_branch_status(nodes, i);
}

proof fn lemma_no_rows_when_all_complete(nodes: Seq<NodeType>, h: int, k: int)
    requires
        0 <= h < nodes.len(),
        0 <= k <= nodes[h].spec_children().len(),
        forall|j: int|
            0 <= j < nodes[h].spec_children().len() && (#[trigger] nodes[h].spec_children()[j] as int)
                < nodes.len() ==> nodes[nodes[h].spec_children()[j] as int].spec_status()
                == ProgressDisplayVariant::Complete,
    ensures
        spec_child_rows(nodes, h, k) == Seq::<Seq<char>>::empty(),
        spec_child_lines(nodes, h, k) == 0,
    decreases k,
{
    if k > 0 {
        lemma_no_rows_when_all_complete(nodes, h, k - 1);
        let c = nodes[h].spec_children()[k - 1];
        assert(spec_child_rows(nodes, h, k) =~= spec_child_rows(nodes, h, k - 1));
    }
}

/// A tree whose root branch has completed renders as its root's name alone,
/// and its root occupies no further rows.
pub proof fn lemma_completed_tree_one_row(nodes: Seq<NodeType>)
    requires
        tree_wf(nodes),
        nodes.len() > 0,
        nodes[0].is_branch(),
        nodes[0].spec_status() == ProgressDisplayVariant::Complete,
    ensures
        spec_render(nodes, 0) == seq![nodes[0].spec_name()],
        spec_render(nodes, 0).len() == 1,
        spec_total_lines(nodes, 0) == 0,
{
    assert(node_ok(nodes, 0));
    let cs = nodes[0].spec_children();
    assert forall|k: int| 0 <= k < cs.len() implies (#[trigger] cs[k] as int) < nodes.len() by {}
    lemma_counts_exact(nodes, cs);
    lemma_no_rows_when_all_complete(nodes, 0, cs.len() as int);
    assert(spec_render(nodes, 0) =~= seq![nodes[0].spec_name()]);
}

/// Number of nodes in the subtree at `h`.
pub open spec fn subtree_size(nodes: Seq<NodeType>, h: int) -> nat
    decreases nodes.len() - h, 1int, 0int,
{
    if !(0 <= h < nodes.len()) {
        0
    } else {
        1 + children_size(nodes, h, nodes[h].spec_children().len() as int)
    }
}

pub open spec fn children_size(nodes: Seq<NodeType>, h: int, k: int) -> nat
    decreases nodes.len() - h, 0int, k,
{
    if !(0 <= h < nodes.len()) || k <= 0 || k > nodes[h].spec_children().len() {
        0
    } else {
        let c = nodes[h].spec_children()[k - 1] as int;
        children_size(nodes, h, k - 1) + (if h < c < nodes.len() {
            subtree_size(nodes, c)
        } else {
            0
        })
    }
}

/// No branch in the subtree at `h` has completed, and every leaf in it
/// carries an error message.
pub open spec fn open_with_errors(nodes: Seq<NodeType>, h: int) -> bool
    decreases nodes.len() - h, 1int, 0int,
{
    if !(0 <= h < nodes.len()) {
        true
    } else if nodes[h].is_branch() {
        nodes[h].spec_status() != ProgressDisplayVariant::Complete && children_open_with_errors(
            nodes,
            h,
            nodes[h].spec_children().len() as int,
        )
    } else {
        nodes[h].spec_message() is Some
    }
}

pub open spec fn children_open_with_errors(nodes: Seq<NodeType>, h: int, k: int) -> bool
    decreases nodes.len() - h, 0int, k,
{
    if !(0 <= h < nodes.len()) || k <= 0 || k > nodes[h].spec_children().len() {
        true
    } else {
        let c = nodes[h].spec_children()[k - 1] as int;
        children_open_with_errors(nodes, h, k - 1) && (h < c < nodes.len() ==> open_with_errors(
            nodes,
            c,
        ))
    }
}

proof fn lemma_children_rows_are_nodes(nodes: Seq<NodeType>, h: int, k: int)
    requires
        tree_wf(nodes),
        0 <= h < nodes.len(),
        0 <= k <= nodes[h].spec_children().len(),
        children_open_with_errors(nodes, h, k),
    ensures
        spec_child_lines(nodes, h, k) == children_size(nodes, h, k),
    decreases nodes.len() - h, 0int, k,
{
    if k > 0 {
        lemma_children_rows_are_nodes(nodes, h, k - 1);
        let c = nodes[h].spec_children()[k - 1] as int;
        assert(node_ok(nodes, h));
        assert(h < c < nodes.len());
        assert(node_ok(nodes, c));
        lemma_rows_are_nodes(nodes, c);
    }
}

/// While no branch has completed and every leaf carries an error, each node
/// of a subtree takes exactly one row: its rows are as many as its branches
/// and error leaves together. For a branch whose children are all leaves
/// that is one row for the branch and one per error leaf.
pub proof fn lemma_rows_are_nodes(nodes: Seq<NodeType>, h: int)
    requires
        tree_wf(nodes),
        0 <= h < nodes.len(),
        open_with_errors(nodes, h),
    ensures
        spec_total_lines(nodes, h) == subtree_size(nodes, h),
    decreases nodes.len() - h, 1int, 0int,
{
    assert(node_ok(nodes, h));
    if nodes[h].is_branch() {
        lemma_children_rows_are_nodes(nodes, h, nodes[h].spec_children().len() as int);
    }
}

/// Once every child of a branch has completed, the branch has counted each
/// of them exactly once, in whatever order they finished.
pub proof fn lemma_all_children_counted(nodes: Seq<NodeType>, i: int)
    requires
        tree_wf(nodes),
        0 <= i < nodes.len(),
        nodes[i].is_branch(),
        forall|k: int|
            0 <= k < nodes[i].spec_children().len()
                ==> nodes[#[trigger] nodes[i].spec_children()[k] as int].spec_status()
                == ProgressDisplayVariant::Complete,
    ensures
        nodes[i].spec_complete() == nodes[i].spec_children().len(),
        nodes[i].spec_errors() == 0,
{
    assert(node_ok(nodes, i));
    let cs = nodes[i].spec_children();
    assert forall|k: int| 0 <= k < cs.len() implies (#[trigger] cs[k] as int) < nodes.len() by {}
    lemma_counts_exact(nodes, cs);
    lemma_count_bound(nodes, cs, -1);
}

proof fn lemma_child_rows_len(nodes: Seq<NodeType>, h: int, k: int)
    requires
        tree_wf(nodes),
        0 <= h < nodes.len(),
        0 <= k <= nodes[h].spec_children().len(),
    ensures
        spec_child_rows(nodes, h, k).len() == spec_child_lines(nodes, h, k),
    decreases nodes.len() - h, 0int, k,
{
    if k > 0 {
        lemma_child_rows_len(nodes, h, k - 1);
        let c = nodes[h].spec_children()[k - 1] as int;
        assert(node_ok(nodes, h));
        assert(h < c < nodes.len());
        assert(node_ok(nodes, c));
        if nodes[c].spec_status() != ProgressDisplayVariant::Complete && nodes[c].is_branch() {
            lemma_render_rows(nodes, c);
        }
    }
}

/// A branch that has not completed renders as many rows as it occupies.
pub proof fn lemma_render_rows(nodes: Seq<NodeType>, h: int)
    requires
        tree_wf(nodes),
        0 <= h < nodes.len(),
        nodes[h].is_branch(),
        nodes[h].spec_status() != ProgressDisplayVariant::Complete,
    ensures
        spec_render(nodes, h).len() == spec_total_lines(nodes, h),
    decreases nodes.len() - h, 1int, 0int,
{
    lemma_child_rows_len(nodes, h, nodes[h].spec_children().len() as int);
}

/// Rendering reads the tree only: two renderings of the same tree agree.
pub proof fn lemma_render_repeatable(a: Seq<NodeType>, b: Seq<NodeType>)
    requires
        a == b,
    ensures
        spec_render(a, 0) == spec_render(b, 0),
{
}

} // verus!
