//! The mathematical model of the tree: counts of finished children and the
//! well-formedness of an arena of nodes.

use vstd::prelude::*;
use crate::node::NodeType;
use crate::status::{ProgressDisplayVariant, branch_rule};

verus! {

/// 1 when child `c` (unless it is `skip`) completed cleanly.
pub open spec fn contrib_complete(nodes: Seq<NodeType>, c: usize, skip: int) -> nat {
    if c as int != skip && (c as int) < nodes.len() && nodes[c as int].spec_status()
        == ProgressDisplayVariant::Complete {
        1
    } else {
        0
    }
}

/// 1 when child `c` (unless it is `skip`) ended with an error.
pub open spec fn contrib_errors(nodes: Seq<NodeType>, c: usize, skip: int) -> nat {
    if c as int != skip && (c as int) < nodes.len()
        && nodes[c as int].spec_status().spec_is_error_bearing() {
        1
    } else {
        0
    }
}

/// Number of the children `cs`, other than `skip`, that completed cleanly.
pub open spec fn count_complete(nodes: Seq<NodeType>, cs: Seq<usize>, skip: int) -> nat
    decreases cs.len(),
{
    if cs.len() == 0 {
        0
    } else {
        count_complete(nodes, cs.drop_last(), skip) + contrib_complete(nodes, cs.last(), skip)
    }
}

/// Number of the children `cs`, other than `skip`, that ended with an error.
pub open spec fn count_errors(nodes: Seq<NodeType>, cs: Seq<usize>, skip: int) -> nat
    decreases cs.len(),
{
    if cs.len() == 0 {
        0
    } else {
        count_errors(nodes, cs.drop_last(), skip) + contrib_errors(nodes, cs.last(), skip)
    }
}

/// Parent links, children lists and sibling names of node `i` agree: the
/// root alone sits at handle 0 without a parent, a parent's handle is lower
/// than its child's, and a branch lists exactly the nodes that name it as
/// parent, under distinct names.
pub open spec fn structure_ok(nodes: Seq<NodeType>, i: int) -> bool {
    let n = nodes[i];
    let cs = n.spec_children();
    &&& (i == 0 <==> n.spec_parent() is None)
    &&& (n.spec_parent() matches Some(p) ==> (p as int) < i && nodes[p as int].is_branch()
        && nodes[p as int].spec_children().contains(i as usize))
    &&& forall|k: int|
        0 <= k < cs.len() ==> i < #[trigger] cs[k] && (cs[k] as int) < nodes.len()
            && nodes[cs[k] as int].spec_parent() == Some(i as usize)
    &&& forall|a: int, b: int|
        0 <= a < b < cs.len() ==> nodes[#[trigger] cs[a] as int].spec_name() != nodes[#[trigger] cs[b] as int].spec_name()
}

/// The status of node `i` follows the progress rules, its counts being those
/// of its children other than `skip`.
pub open spec fn status_ok(nodes: Seq<NodeType>, i: int, skip: int) -> bool {
    let n = nodes[i];
    let cs = n.spec_children();
    let s = n.spec_status();
    &&& (n.spec_message() is Some ==> s == ProgressDisplayVariant::Error)
    &&& if !n.is_branch() {
        s == ProgressDisplayVariant::Waiting || s == ProgressDisplayVariant::Complete || s
            == ProgressDisplayVariant::Error
    } else {
        &&& n.spec_complete() == count_complete(nodes, cs, skip)
        &&& n.spec_errors() == count_errors(nodes, cs, skip)
        &&& (s == ProgressDisplayVariant::Error || (cs.len() > 0 && s == branch_rule(
            n.spec_complete(),
            n.spec_errors(),
            cs.len(),
        )) || (cs.len() == 0 && (s == ProgressDisplayVariant::Waiting || s
            == ProgressDisplayVariant::Complete)))
    }
}

pub open spec fn node_ok(nodes: Seq<NodeType>, i: int) -> bool {
    structure_ok(nodes, i) && status_ok(nodes, i, -1)
}

/// A well-formed arena.
pub open spec fn tree_wf(nodes: Seq<NodeType>) -> bool {
    forall|i: int| 0 <= i < nodes.len() ==> #[trigger] node_ok(nodes, i)
}

/// A well-formed arena but for one step of propagation still to be made:
/// node `cur` reached a terminal status that its parent has not counted yet.
pub open spec fn pending(nodes: Seq<NodeType>, cur: int) -> bool {
    &&& 0 <= cur < nodes.len()
    &&& nodes[cur].spec_parent() is Some
    &&& nodes[cur].spec_status().spec_is_terminal()
    &&& forall|i: int| 0 <= i < nodes.len() ==> #[trigger] structure_ok(nodes, i)
    &&& forall|i: int|
        0 <= i < nodes.len() && i != nodes[cur].spec_parent().unwrap() as int ==> #[trigger] status_ok(
            nodes,
            i,
            -1,
        )
    &&& status_ok(nodes, nodes[cur].spec_parent().unwrap() as int, cur)
}

/// Two nodes alike in all but status and counts.
pub open spec fn same_node_shape(x: NodeType, y: NodeType) -> bool {
    &&& x.is_branch() == y.is_branch()
    &&& x.spec_name() == y.spec_name()
    &&& x.spec_parent() == y.spec_parent()
    &&& x.spec_children() == y.spec_children()
    &&& x.spec_message() == y.spec_message()
}

/// Two arenas alike in all but statuses and counts.
pub open spec fn same_shape(a: Seq<NodeType>, b: Seq<NodeType>) -> bool {
    &&& a.len() == b.len()
    &&& forall|i: int| 0 <= i < a.len() ==> #[trigger] same_node_shape(a[i], b[i])
}

pub proof fn lemma_count_frame(a: Seq<NodeType>, b: Seq<NodeType>, cs: Seq<usize>, skip: int)
    requires
        forall|k: int|
            0 <= k < cs.len() && cs[k] as int != skip ==> (cs[k] as int) < a.len() && (cs[k] as int)
                < b.len() && a[#[trigger] cs[k] as int].spec_status() == b[cs[k] as int].spec_status(),
    ensures
        count_complete(a, cs, skip) == count_complete(b, cs, skip),
        count_errors(a, cs, skip) == count_errors(b, cs, skip),
    decreases cs.len(),
{
    if cs.len() > 0 {
        let last = cs.len() - 1;
        assert(cs.last() == cs[last]);
        lemma_count_frame(a, b, cs.drop_last(), skip);
    }
}

/// Skipping a handle that is not among the children changes no count.
pub proof fn lemma_count_skip_absent(nodes: Seq<NodeType>, cs: Seq<usize>, skip: int)
    requires
        forall|k: int| 0 <= k < cs.len() ==> #[trigger] cs[k] as int != skip,
    ensures
        count_complete(nodes, cs, skip) == count_complete(nodes, cs, -1),
        count_errors(nodes, cs, skip) == count_errors(nodes, cs, -1),
    decreases cs.len(),
{
    if cs.len() > 0 {
        let last = cs.len() - 1;
        assert(cs.last() == cs[last]);
        lemma_count_skip_absent(nodes, cs.drop_last(), skip);
    }
}

/// Counting all children is counting all but `x`, plus what `x` adds.
pub proof fn lemma_count_skip(nodes: Seq<NodeType>, cs: Seq<usize>, x: usize)
    requires
        forall|a: int, b: int| 0 <= a < b < cs.len() ==> #[trigger] cs[a] != #[trigger] cs[b],
        cs.contains(x),
    ensures
        count_complete(nodes, cs, -1) == count_complete(nodes, cs, x as int) + contrib_complete(
            nodes,
            x,
            -1,
        ),
        count_errors(nodes, cs, -1) == count_errors(nodes, cs, x as int) + contrib_errors(
            nodes,
            x,
            -1,
        ),
    decreases cs.len(),
{
    let last = cs.len() - 1;
    assert(cs.last() == cs[last]);
    let init = cs.drop_last();
    if cs.last() == x {
        assert forall|k: int| 0 <= k < init.len() implies #[trigger] init[k] as int != x as int by {
            assert(init[k] == cs[k]);
        }
        lemma_count_skip_absent(nodes, init, x as int);
    } else {
        let j = choose|j: int| 0 <= j < cs.len() && cs[j] == x;
        assert(init[j] == x);
        lemma_count_skip(nodes, init, x);
    }
}

/// Each child adds to at most one of the two counts.
pub proof fn lemma_count_bound(nodes: Seq<NodeType>, cs: Seq<usize>, skip: int)
    ensures
        count_complete(nodes, cs, skip) + count_errors(nodes, cs, skip) <= cs.len(),
    decreases cs.len(),
{
    if cs.len() > 0 {
        lemma_count_bound(nodes, cs.drop_last(), skip);
    }
}

/// Handles of children with distinct names are distinct.
pub proof fn lemma_children_distinct(nodes: Seq<NodeType>, i: int)
    requires
        0 <= i < nodes.len(),
        structure_ok(nodes, i),
    ensures
        forall|a: int, b: int|
            0 <= a < b < nodes[i].spec_children().len() ==> #[trigger] nodes[i].spec_children()[a]
                != #[trigger] nodes[i].spec_children()[b],
{
    let cs = nodes[i].spec_children();
    assert forall|a: int, b: int| 0 <= a < b < cs.len() implies #[trigger] cs[a] != #[trigger] cs[b] by {
        assert(nodes[cs[a] as int].spec_name() != nodes[cs[b] as int].spec_name());
    }
}


/// While `cur` waits to be counted, its parent is a branch with room for it
/// and has not reached a terminal status through its counts.
pub proof fn lemma_pending_room(a: Seq<NodeType>, cur: usize, p: usize)
    requires
        pending(a, cur as int),
        a[cur as int].spec_parent() == Some(p),
    ensures
        p < cur,
        a[p as int].is_branch(),
        a[p as int].spec_complete() + a[p as int].spec_errors() < a[p as int].spec_children().len(),
        a[p as int].spec_status() == ProgressDisplayVariant::Waiting || a[p as int].spec_status()
            == ProgressDisplayVariant::Running || a[p as int].spec_status()
            == ProgressDisplayVariant::Error,
{
    assert(structure_ok(a, cur as int));
    assert(structure_ok(a, p as int));
    let cs = a[p as int].spec_children();
    lemma_children_distinct(a, p as int);
    lemma_count_skip(a, cs, cur);
    lemma_count_bound(a, cs, -1);
}

/// Node `p` of `a` becomes node `p` of `b` by counting its child `cur`.
pub open spec fn counted_step(a: Seq<NodeType>, b: Seq<NodeType>, cur: int, p: int) -> bool {
    let st = a[cur as int].spec_status();
    &&& b.len() == a.len()
    &&& 0 <= p < a.len()
    &&& forall|i: int| 0 <= i < a.len() && i != p ==> #[trigger] b[i] == a[i]
    &&& same_node_shape(a[p], b[p])
    &&& b[p].spec_complete() == a[p].spec_complete() + (if st == ProgressDisplayVariant::Complete {
        1nat
    } else {
        0nat
    })
    &&& b[p].spec_errors() == a[p].spec_errors() + (if st == ProgressDisplayVariant::Complete {
        0nat
    } else {
        1nat
    })
    &&& b[p].spec_status() == (if a[p].spec_status() == ProgressDisplayVariant::Error {
        ProgressDisplayVariant::Error
    } else {
        branch_rule(b[p].spec_complete(), b[p].spec_errors(), a[p].spec_children().len())
    })
}

/// One step of upward propagation: once the parent `p` has counted `cur`,
/// the arena is well-formed, or `p` itself just became terminal and waits
/// to be counted by its own parent.
pub proof fn lemma_record_step(a: Seq<NodeType>, b: Seq<NodeType>, cur: usize, p: usize)
    requires
        pending(a, cur as int),
        a[cur as int].spec_parent() == Some(p),
        counted_step(a, b, cur as int, p as int),
    ensures
        same_shape(a, b),
        !a[p as int].spec_status().spec_is_terminal() && b[p as int].spec_status().spec_is_terminal()
            && b[p as int].spec_parent() is Some ==> pending(b, p as int),
        !(!a[p as int].spec_status().spec_is_terminal() && b[p as int].spec_status().spec_is_terminal()
            && b[p as int].spec_parent() is Some) ==> tree_wf(b),
{
    lemma_pending_room(a, cur, p);
    assert(structure_ok(a, cur as int));
    let n = a.len();
    assert forall|i: int| 0 <= i < n implies #[trigger] same_node_shape(a[i], b[i]) by {
        if i != p as int {
            assert(b[i] == a[i]);
        }
    }
    assert forall|i: int| 0 <= i < n implies #[trigger] structure_ok(b, i) by {
        assert(structure_ok(a, i));
        assert(same_node_shape(a[i], b[i]));
        if let Some(q) = a[i].spec_parent() {
            assert(same_node_shape(a[q as int], b[q as int]));
        }
        let cs = a[i].spec_children();
        assert forall|k: int| 0 <= k < cs.len() implies i < #[trigger] cs[k] && (cs[k] as int)
            < b.len() && b[cs[k] as int].spec_parent() == Some(i as usize) by {
            assert(same_node_shape(a[cs[k] as int], b[cs[k] as int]));
        }
        assert forall|x: int, y: int| 0 <= x < y < cs.len() implies b[#[trigger] cs[x] as int].spec_name()
            != b[#[trigger] cs[y] as int].spec_name() by {
            assert(same_node_shape(a[cs[x] as int], b[cs[x] as int]));
            assert(same_node_shape(a[cs[y] as int], b[cs[y] as int]));
        }
    }
    let pp = a[p as int].spec_parent();
    let pq: int = match pp {
        Some(q) => q as int,
        None => -1,
    };
    // nodes other than p and its parent keep their counts
    assert forall|i: int|
        0 <= i < n && i != p as int && i != pq implies #[trigger] status_ok(b, i, -1) by {
        assert(status_ok(a, i, -1));
        assert(structure_ok(a, i));
        let cs = a[i].spec_children();
        assert forall|k: int| 0 <= k < cs.len() && cs[k] as int != -1 implies (cs[k] as int) < a.len()
            && (cs[k] as int) < b.len() && a[#[trigger] cs[k] as int].spec_status()
            == b[cs[k] as int].spec_status() by {
            if cs[k] as int == p as int {
                assert(a[p as int].spec_parent() == Some(i as usize));
            }
        }
        lemma_count_frame(a, b, cs, -1);
    }
    // p counts cur
    let cs = a[p as int].spec_children();
    assert(structure_ok(a, p as int));
    lemma_children_distinct(a, p as int);
    lemma_count_skip(a, cs, cur);
    assert forall|k: int| 0 <= k < cs.len() && cs[k] as int != -1 implies (cs[k] as int) < a.len()
        && (cs[k] as int) < b.len() && a[#[trigger] cs[k] as int].spec_status()
        == b[cs[k] as int].spec_status() by {
        assert(p < cs[k]);
    }
    lemma_count_frame(a, b, cs, -1);
    assert(status_ok(a, p as int, cur as int));
    assert(cs.len() > 0);
    let st = a[cur as int].spec_status();
    assert(contrib_complete(a, cur, -1) == (if st == ProgressDisplayVariant::Complete { 1nat } else { 0nat }));
    assert(contrib_errors(a, cur, -1) == (if st == ProgressDisplayVariant::Complete { 0nat } else { 1nat }));
    assert(same_node_shape(a[p as int], b[p as int]));
    assert(status_ok(b, p as int, -1));
    // p's parent
    if let Some(q) = pp {
        let qi = q as int;
        assert(structure_ok(a, p as int));
        assert(structure_ok(a, qi));
        assert(status_ok(a, qi, -1));
        let qs = a[qi].spec_children();
        lemma_children_distinct(a, qi);
        lemma_count_skip(a, qs, p);
        lemma_count_skip(b, qs, p);
        assert forall|k: int| 0 <= k < qs.len() && qs[k] as int != p as int implies (qs[k] as int) < a.len()
            && (qs[k] as int) < b.len() && a[#[trigger] qs[k] as int].spec_status()
            == b[qs[k] as int].spec_status() by {}
        lemma_count_frame(a, b, qs, p as int);
        assert(b[qi] == a[qi]);
        if !a[p as int].spec_status().spec_is_terminal() && b[p as int].spec_status().spec_is_terminal() {
            assert(status_ok(b, qi, p as int));
            assert(pending(b, p as int));
        } else {
            assert(status_ok(b, qi, -1));
            assert forall|i: int| 0 <= i < n implies #[trigger] node_ok(b, i) by {}
        }
    } else {
        assert forall|i: int| 0 <= i < n implies #[trigger] node_ok(b, i) by {}
    }
}


/// `c` is `a` with a new node, at handle `a.len()`, added as the last child
/// of branch `p`.
pub open spec fn child_added(a: Seq<NodeType>, c: Seq<NodeType>, p: int) -> bool {
    let n = a.len() as int;
    let x = c[n];
    &&& 0 <= p < n
    &&& n <= usize::MAX
    &&& c.len() == n + 1
    &&& forall|i: int| 0 <= i < n && i != p ==> #[trigger] c[i] == a[i]
    &&& c[p].is_branch() == a[p].is_branch()
    &&& c[p].spec_name() == a[p].spec_name()
    &&& c[p].spec_parent() == a[p].spec_parent()
    &&& c[p].spec_message() == a[p].spec_message()
    &&& c[p].spec_status() == a[p].spec_status()
    &&& c[p].spec_complete() == a[p].spec_complete()
    &&& c[p].spec_errors() == a[p].spec_errors()
    &&& c[p].spec_children() == a[p].spec_children().push(n as usize)
    &&& x.spec_parent() == Some(p as usize)
    &&& x.spec_children().len() == 0
    &&& x.spec_complete() == 0
    &&& x.spec_errors() == 0
    &&& x.spec_status() == ProgressDisplayVariant::Waiting
    &&& x.spec_message() is None
    &&& forall|k: int|
        0 <= k < a[p].spec_children().len() ==> #[trigger] a[a[p].spec_children()[k] as int].spec_name()
            != x.spec_name()
}

/// Adding a waiting child to a branch that has not finished keeps the arena
/// well-formed, with no count changed.
pub proof fn lemma_child_added(a: Seq<NodeType>, c: Seq<NodeType>, p: int)
    requires
        tree_wf(a),
        child_added(a, c, p),
        a[p].is_branch(),
        !a[p].spec_status().spec_is_terminal(),
    ensures
        tree_wf(c),
{
    let n = a.len() as int;
    let cs = a[p].spec_children();
    assert(node_ok(a, p));
    assert forall|i: int| 0 <= i < c.len() implies #[trigger] structure_ok(c, i) by {
        if i < n {
            assert(node_ok(a, i));
            let ci = c[i].spec_children();
            if i == p {
                assert forall|k: int| 0 <= k < ci.len() implies i < #[trigger] ci[k] && (ci[k] as int)
                    < c.len() && c[ci[k] as int].spec_parent() == Some(i as usize) by {
                    if k < cs.len() {
                        assert(ci[k] == cs[k]);
                    }
                }
                assert forall|x: int, y: int| 0 <= x < y < ci.len() implies c[#[trigger] ci[x] as int].spec_name()
                    != c[#[trigger] ci[y] as int].spec_name() by {
                    assert(ci[x] == cs[x]);
                    if y < cs.len() {
                        assert(ci[y] == cs[y]);
                    }
                }
            } else {
                assert forall|k: int| 0 <= k < ci.len() implies i < #[trigger] ci[k] && (ci[k] as int)
                    < c.len() && c[ci[k] as int].spec_parent() == Some(i as usize) by {
                    assert(ci[k] < n);
                }
                assert forall|x: int, y: int| 0 <= x < y < ci.len() implies c[#[trigger] ci[x] as int].spec_name()
                    != c[#[trigger] ci[y] as int].spec_name() by {
                    assert(ci[x] < n);
                    assert(ci[y] < n);
                }
            }
            if let Some(q) = c[i].spec_parent() {
                if q as int == p {
                    assert(c[p].spec_children()[cs.len() as int] == n as usize);
                    let j = choose|j: int| 0 <= j < cs.len() && cs[j] == i as usize;
                    assert(c[p].spec_children()[j] == i as usize);
                }
            }
        } else {
            assert(c[p].spec_children()[cs.len() as int] == n as usize);
        }
    }
    assert forall|i: int| 0 <= i < n && i != p implies #[trigger] status_ok(c, i, -1) by {
        assert(node_ok(a, i));
        let ci = a[i].spec_children();
        assert forall|k: int| 0 <= k < ci.len() && ci[k] as int != -1 implies (ci[k] as int) < a.len()
            && (ci[k] as int) < c.len() && a[#[trigger] ci[k] as int].spec_status()
            == c[ci[k] as int].spec_status() by {}
        lemma_count_frame(a, c, ci, -1);
    }
    assert forall|k: int| 0 <= k < cs.len() && cs[k] as int != -1 implies (cs[k] as int) < a.len()
        && (cs[k] as int) < c.len() && a[#[trigger] cs[k] as int].spec_status()
        == c[cs[k] as int].spec_status() by {}
    lemma_count_frame(a, c, cs, -1);
    let cs2 = c[p].spec_children();
    assert(cs2.drop_last() =~= cs);
    assert(cs2.last() == n as usize);
    assert(status_ok(c, n, -1));
    lemma_count_bound(a, cs, -1);
    assert(status_ok(a, p, -1));
    assert(count_complete(c, cs2, -1) == count_complete(c, cs, -1));
    assert(count_errors(c, cs2, -1) == count_errors(c, cs, -1));
    assert(status_ok(c, p, -1));
    assert forall|i: int| 0 <= i < c.len() implies #[trigger] node_ok(c, i) by {}
}


/// `c` is `a` with node `h` moved to a terminal status.
pub open spec fn node_finished(a: Seq<NodeType>, c: Seq<NodeType>, h: int) -> bool {
    let x = c[h];
    &&& 0 <= h < a.len()
    &&& c.len() == a.len()
    &&& forall|i: int| 0 <= i < a.len() && i != h ==> #[trigger] c[i] == a[i]
    &&& x.is_branch() == a[h].is_branch()
    &&& x.spec_name() == a[h].spec_name()
    &&& x.spec_parent() == a[h].spec_parent()
    &&& x.spec_children() == a[h].spec_children()
    &&& x.spec_complete() == a[h].spec_complete()
    &&& x.spec_errors() == a[h].spec_errors()
    &&& (x.spec_status() == ProgressDisplayVariant::Error || (x.spec_status()
        == ProgressDisplayVariant::Complete && x.spec_children().len() == 0))
    &&& (x.spec_message() is Some ==> x.spec_status() == ProgressDisplayVariant::Error)
}

/// A node that leaves a status that is not terminal keeps the arena
/// well-formed, but for its parent counting it.
pub proof fn lemma_node_finished(a: Seq<NodeType>, c: Seq<NodeType>, h: usize)
    requires
        tree_wf(a),
        node_finished(a, c, h as int),
        !a[h as int].spec_status().spec_is_terminal(),
    ensures
        c[h as int].spec_parent() is Some ==> pending(c, h as int),
        c[h as int].spec_parent() is None ==> tree_wf(c),
{
    let n = a.len() as int;
    assert forall|i: int| 0 <= i < n implies #[trigger] structure_ok(c, i) by {
        assert(node_ok(a, i));
        let ci = a[i].spec_children();
        assert forall|k: int| 0 <= k < ci.len() implies i < #[trigger] ci[k] && (ci[k] as int)
            < c.len() && c[ci[k] as int].spec_parent() == Some(i as usize) by {}
        assert forall|x: int, y: int| 0 <= x < y < ci.len() implies c[#[trigger] ci[x] as int].spec_name()
            != c[#[trigger] ci[y] as int].spec_name() by {}
    }
    let pq: int = match a[h as int].spec_parent() {
        Some(q) => q as int,
        None => -1,
    };
    assert forall|i: int| 0 <= i < n && i != pq implies #[trigger] status_ok(c, i, -1) by {
        assert(node_ok(a, i));
        let ci = a[i].spec_children();
        assert forall|k: int| 0 <= k < ci.len() && ci[k] as int != -1 implies (ci[k] as int) < a.len()
            && (ci[k] as int) < c.len() && a[#[trigger] ci[k] as int].spec_status()
            == c[ci[k] as int].spec_status() by {
            if ci[k] as int == h as int {
                assert(a[h as int].spec_parent() == Some(i as usize));
            }
        }
        lemma_count_frame(a, c, ci, -1);
        if i == h as int {
            assert(status_ok(c, h as int, -1));
        }
    }
    if let Some(q) = a[h as int].spec_parent() {
        let qi = q as int;
        assert(node_ok(a, h as int));
        assert(node_ok(a, qi));
        let qs = a[qi].spec_children();
        lemma_children_distinct(a, qi);
        lemma_count_skip(a, qs, h);
        assert forall|k: int| 0 <= k < qs.len() && qs[k] as int != h as int implies (qs[k] as int) < a.len()
            && (qs[k] as int) < c.len() && a[#[trigger] qs[k] as int].spec_status()
            == c[qs[k] as int].spec_status() by {}
        lemma_count_frame(a, c, qs, h as int);
        assert(status_ok(c, qi, h as int));
        assert(pending(c, h as int));
    } else {
        assert forall|i: int| 0 <= i < n implies #[trigger] node_ok(c, i) by {}
    }
}

} // verus!
