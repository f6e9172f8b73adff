//! The line accountant: how many terminal rows a subtree occupies, and at
//! which row a node sits.

use vstd::prelude::*;
use vstd::set_lib::{lemma_int_range, lemma_len_subset, lemma_set_disjoint_lens, set_int_range};
use crate::model::{node_ok, structure_ok, lemma_children_distinct, tree_wf};
use crate::node::NodeType;
use crate::status::ProgressDisplayVariant;
use crate::tree::Tracker;

verus! {

/// Rows occupied by the subtree at `h`: a completed branch collapses to
/// nothing; any other branch takes its own row and those of its children
/// that have not completed; a leaf takes a row only to show an error
/// message.
pub open spec fn spec_total_lines(nodes: Seq<NodeType>, h: int) -> nat
    decreases nodes.len() - h, 1int, 0int,
{
    if !(0 <= h < nodes.len()) {
        0
    } else if !nodes[h].is_branch() {
        if nodes[h].spec_message() is Some {
            1
        } else {
            0
        }
    } else if nodes[h].spec_status() == ProgressDisplayVariant::Complete {
        0
    } else {
        1 + spec_child_lines(nodes, h, nodes[h].spec_children().len() as int)
    }
}

/// Rows occupied by the first `k` children of `h` that have not completed.
pub open spec fn spec_child_lines(nodes: Seq<NodeType>, h: int, k: int) -> nat
    decreases nodes.len() - h, 0int, k,
{
    if !(0 <= h < nodes.len()) || k <= 0 || k > nodes[h].spec_children().len() {
        0
    } else {
        let c = nodes[h].spec_children()[k - 1] as int;
        spec_child_lines(nodes, h, k - 1) + (if h < c < nodes.len() && nodes[c].spec_status()
            != ProgressDisplayVariant::Complete {
            spec_total_lines(nodes, c)
        } else {
            0
        })
    }
}

/// Row of node `h`, counted from 0 at the root: the row of its parent, the
/// parent's own row, and the rows of the siblings before it.
pub open spec fn spec_num_lines(nodes: Seq<NodeType>, h: int) -> nat
    decreases h,
{
    if !(0 <= h < nodes.len()) {
        0
    } else {
        match nodes[h].spec_parent() {
            Some(p) => if 0 <= p < h {
                spec_num_lines(nodes, p as int) + 1 + spec_child_lines(
                    nodes,
                    p as int,
                    position_of(nodes[p as int].spec_children(), h as usize),
                )
            } else {
                0
            },
            None => 0,
        }
    }
}

/// Position of `x` in `cs`.
pub open spec fn position_of(cs: Seq<usize>, x: usize) -> int {
    choose|k: int| 0 <= k < cs.len() && cs[k] == x
}

/// Whether `d` lies in the subtree rooted at `i`.
pub open spec fn is_desc(nodes: Seq<NodeType>, d: int, i: int) -> bool
    decreases d,
{
    if !(0 <= d < nodes.len()) {
        false
    } else if d == i {
        true
    } else {
        match nodes[d].spec_parent() {
            Some(q) => 0 <= q < d && is_desc(nodes, q as int, i),
            None => false,
        }
    }
}

/// Being under a node depends on the parent links alone.
pub proof fn lemma_desc_same_parents(x: Seq<NodeType>, y: Seq<NodeType>, d: int, i: int)
    requires
        x.len() == y.len(),
        forall|j: int| 0 <= j < x.len() ==> #[trigger] x[j].spec_parent() == y[j].spec_parent(),
    ensures
        is_desc(x, d, i) == is_desc(y, d, i),
    decreases d,
{
    if 0 <= d < x.len() && d != i {
        assert(x[d].spec_parent() == y[d].spec_parent());
        if let Some(q) = x[d].spec_parent() {
            if 0 <= q < d {
                lemma_desc_same_parents(x, y, q as int, i);
            }
        }
    }
}

/// The nodes of the subtree rooted at `i`.
pub open spec fn desc_set(nodes: Seq<NodeType>, i: int) -> Set<int> {
    Set::new(|d: int| is_desc(nodes, d, i))
}

/// The nodes of the subtrees rooted at the first `k` of `cs`.
pub open spec fn union_desc(nodes: Seq<NodeType>, cs: Seq<usize>, k: int) -> Set<int>
    decreases k,
{
    if k <= 0 {
        Set::empty()
    } else {
        union_desc(nodes, cs, k - 1) + desc_set(nodes, cs[k - 1] as int)
    }
}

/// Sizes of the subtrees rooted at the first `k` of `cs`, added up.
pub open spec fn sum_desc(nodes: Seq<NodeType>, cs: Seq<usize>, k: int) -> nat
    decreases k,
{
    if k <= 0 {
        0
    } else {
        sum_desc(nodes, cs, k - 1) + desc_set(nodes, cs[k - 1] as int).len()
    }
}

pub proof fn lemma_desc_ge(nodes: Seq<NodeType>, d: int, i: int)
    requires
        is_desc(nodes, d, i),
    ensures
        i <= d,
        0 <= d < nodes.len(),
    decreases d,
{
    if d != i {
        let q = nodes[d].spec_parent().unwrap() as int;
        lemma_desc_ge(nodes, q, i);
    }
}

proof fn lemma_desc_set_finite(nodes: Seq<NodeType>, i: int)
    requires
        0 <= i,
    ensures
        desc_set(nodes, i).finite(),
        desc_set(nodes, i).subset_of(set_int_range(i, nodes.len() as int)),
        desc_set(nodes, i).len() <= nodes.len() - i || i >= nodes.len(),
{
    assert forall|d: int| desc_set(nodes, i).contains(d) implies set_int_range(
        i,
        nodes.len() as int,
    ).contains(d) by {
        lemma_desc_ge(nodes, d, i);
    }
    if i < nodes.len() {
        lemma_int_range(i, nodes.len() as int);
        lemma_len_subset(desc_set(nodes, i), set_int_range(i, nodes.len() as int));
    } else {
        assert(desc_set(nodes, i) =~= Set::empty());
    }
}

/// A node under child `c` of `i` is under `i`.
pub proof fn lemma_desc_child(nodes: Seq<NodeType>, d: int, c: int, i: int)
    requires
        nodes.len() <= usize::MAX,
        is_desc(nodes, d, c),
        0 <= i < c < nodes.len(),
        nodes[c].spec_parent() == Some(i as usize),
    ensures
        is_desc(nodes, d, i),
    decreases d,
{
    if d != c {
        let q = nodes[d].spec_parent().unwrap() as int;
        lemma_desc_child(nodes, q, c, i);
    } else {
        assert(is_desc(nodes, i, i));
    }
}

/// Subtrees of two distinct children of a node share no node.
proof fn lemma_desc_disjoint(nodes: Seq<NodeType>, d: int, c1: int, c2: int, i: int)
    requires
        nodes.len() <= usize::MAX,
        c1 != c2,
        0 <= i < c1 < nodes.len(),
        i < c2 < nodes.len(),
        nodes[c1].spec_parent() == Some(i as usize),
        nodes[c2].spec_parent() == Some(i as usize),
    ensures
        !(is_desc(nodes, d, c1) && is_desc(nodes, d, c2)),
    decreases d,
{
    if is_desc(nodes, d, c1) && is_desc(nodes, d, c2) {
        if d == c1 {
            assert(is_desc(nodes, i, c2));
            lemma_desc_ge(nodes, i, c2);
        } else if d == c2 {
            assert(is_desc(nodes, i, c1));
            lemma_desc_ge(nodes, i, c1);
        } else {
            let q = nodes[d].spec_parent().unwrap() as int;
            lemma_desc_disjoint(nodes, q, c1, c2, i);
        }
    }
}

proof fn lemma_union_member(nodes: Seq<NodeType>, cs: Seq<usize>, k: int, d: int)
    requires
        union_desc(nodes, cs, k).contains(d),
    ensures
        exists|j: int| 0 <= j < k && is_desc(nodes, d, #[trigger] cs[j] as int),
    decreases k,
{
    if k > 0 {
        if !desc_set(nodes, cs[k - 1] as int).contains(d) {
            lemma_union_member(nodes, cs, k - 1, d);
        }
    }
}

/// The subtrees of the first `k` children of `i` hold as many nodes as
/// their sizes add up to, all under `i` but for `i` itself.
proof fn lemma_union_len(nodes: Seq<NodeType>, i: int, k: int)
    requires
        nodes.len() <= usize::MAX,
        tree_wf(nodes),
        0 <= i < nodes.len(),
        0 <= k <= nodes[i].spec_children().len(),
    ensures
        union_desc(nodes, nodes[i].spec_children(), k).finite(),
        union_desc(nodes, nodes[i].spec_children(), k).len() == sum_desc(
            nodes,
            nodes[i].spec_children(),
            k,
        ),
        !union_desc(nodes, nodes[i].spec_children(), k).contains(i),
        union_desc(nodes, nodes[i].spec_children(), k).subset_of(desc_set(nodes, i)),
    decreases k,
{
    let cs = nodes[i].spec_children();
    assert(node_ok(nodes, i));
    if k > 0 {
        lemma_union_len(nodes, i, k - 1);
        let c = cs[k - 1] as int;
        lemma_desc_set_finite(nodes, c);
        let u = union_desc(nodes, cs, k - 1);
        let s = desc_set(nodes, c);
        lemma_children_distinct(nodes, i);
        assert forall|d: int| u.contains(d) implies !s.contains(d) by {
            lemma_union_member(nodes, cs, k - 1, d);
            let j = choose|j: int| 0 <= j < k - 1 && is_desc(nodes, d, #[trigger] cs[j] as int);
            if s.contains(d) {
                lemma_desc_disjoint(nodes, d, cs[j] as int, c, i);
            }
        }
        assert(u.disjoint(s));
        lemma_set_disjoint_lens(u, s);
        if s.contains(i) {
            lemma_desc_ge(nodes, i, c);
        }
        assert forall|d: int| s.contains(d) implies desc_set(nodes, i).contains(d) by {
            lemma_desc_child(nodes, d, c, i);
        }
    } else {
        assert(union_desc(nodes, cs, 0) =~= Set::empty());
    }
}

proof fn lemma_child_lines_le_sum(nodes: Seq<NodeType>, i: int, k: int)
    requires
        tree_wf(nodes),
        0 <= i < nodes.len(),
        0 <= k <= nodes[i].spec_children().len(),
        forall|j: int|
            0 <= j < nodes[i].spec_children().len() ==> spec_total_lines(
                nodes,
                #[trigger] nodes[i].spec_children()[j] as int,
            ) <= desc_set(nodes, nodes[i].spec_children()[j] as int).len(),
    ensures
        spec_child_lines(nodes, i, k) <= sum_desc(nodes, nodes[i].spec_children(), k),
    decreases k,
{
    if k > 0 {
        lemma_child_lines_le_sum(nodes, i, k - 1);
    }
}

/// A subtree occupies no more rows than it has nodes.
pub proof fn lemma_lines_le_size(nodes: Seq<NodeType>, i: int)
    requires
        nodes.len() <= usize::MAX,
        tree_wf(nodes),
        0 <= i < nodes.len(),
    ensures
        spec_total_lines(nodes, i) <= desc_set(nodes, i).len(),
        desc_set(nodes, i).len() <= nodes.len() - i,
        spec_total_lines(nodes, i) <= nodes.len(),
    decreases nodes.len() - i,
{
    lemma_desc_set_finite(nodes, i);
    assert(desc_set(nodes, i).contains(i));
    let cs = nodes[i].spec_children();
    assert(node_ok(nodes, i));
    if nodes[i].is_branch() && nodes[i].spec_status() != ProgressDisplayVariant::Complete {
        assert forall|j: int| 0 <= j < cs.len() implies spec_total_lines(
            nodes,
            #[trigger] cs[j] as int,
        ) <= desc_set(nodes, cs[j] as int).len() by {
            lemma_lines_le_size(nodes, cs[j] as int);
        }
        lemma_child_lines_le_sum(nodes, i, cs.len() as int);
        lemma_union_len(nodes, i, cs.len() as int);
        let u = union_desc(nodes, cs, cs.len() as int);
        let one = Set::empty().insert(i);
        assert(one.disjoint(u));
        lemma_set_disjoint_lens(one, u);
        assert((one + u).subset_of(desc_set(nodes, i)));
        lemma_len_subset(one + u, desc_set(nodes, i));
    } else {
        assert(desc_set(nodes, i).len() >= 1) by {
            assert(Set::empty().insert(i).subset_of(desc_set(nodes, i)));
            lemma_len_subset(Set::empty().insert(i), desc_set(nodes, i));
        }
    }
}

/// The first `k` children take no more rows than all of them.
pub proof fn lemma_child_lines_mono(nodes: Seq<NodeType>, h: int, k: int, m: int)
    requires
        0 <= k <= m <= nodes[h].spec_children().len(),
        0 <= h < nodes.len(),
    ensures
        spec_child_lines(nodes, h, k) <= spec_child_lines(nodes, h, m),
    decreases m - k,
{
    if k < m {
        lemma_child_lines_mono(nodes, h, k, m - 1);
    }
}

proof fn lemma_sum_desc_mono(nodes: Seq<NodeType>, cs: Seq<usize>, k: int, m: int)
    requires
        0 <= k <= m,
    ensures
        sum_desc(nodes, cs, k) <= sum_desc(nodes, cs, m),
    decreases m - k,
{
    if k < m {
        lemma_sum_desc_mono(nodes, cs, k, m - 1);
    }
}

/// A node and the subtrees of its children are part of its own subtree.
proof fn lemma_desc_split(nodes: Seq<NodeType>, i: int)
    requires
        nodes.len() <= usize::MAX,
        tree_wf(nodes),
        0 <= i < nodes.len(),
    ensures
        1 + sum_desc(nodes, nodes[i].spec_children(), nodes[i].spec_children().len() as int)
            <= desc_set(nodes, i).len(),
{
    let cs = nodes[i].spec_children();
    lemma_desc_set_finite(nodes, i);
    lemma_union_len(nodes, i, cs.len() as int);
    let u = union_desc(nodes, cs, cs.len() as int);
    let one = Set::empty().insert(i);
    assert(one.disjoint(u));
    lemma_set_disjoint_lens(one, u);
    assert(desc_set(nodes, i).contains(i));
    assert((one + u).subset_of(desc_set(nodes, i)));
    lemma_len_subset(one + u, desc_set(nodes, i));
}

/// The position of a child in the children list of its parent.
proof fn lemma_position(nodes: Seq<NodeType>, h: int, p: usize, k: int)
    requires
        tree_wf(nodes),
        0 <= h < nodes.len(),
        nodes[h].spec_parent() == Some(p),
        0 <= k < nodes[p as int].spec_children().len(),
        nodes[p as int].spec_children()[k] == h as usize,
    ensures
        position_of(nodes[p as int].spec_children(), h as usize) == k,
{
    assert(node_ok(nodes, h));
    assert(node_ok(nodes, p as int));
    lemma_children_distinct(nodes, p as int);
}

/// Rows above node `h` belong to nodes outside its subtree.
pub proof fn lemma_num_lines_bound(nodes: Seq<NodeType>, h: int)
    requires
        nodes.len() <= usize::MAX,
        tree_wf(nodes),
        0 <= h < nodes.len(),
    ensures
        spec_num_lines(nodes, h) + desc_set(nodes, h).len() <= nodes.len(),
    decreases h,
{
    lemma_desc_set_finite(nodes, h);
    assert(node_ok(nodes, h));
    if let Some(p) = nodes[h].spec_parent() {
        let pi = p as int;
        lemma_num_lines_bound(nodes, pi);
        assert(node_ok(nodes, pi));
        let cs = nodes[pi].spec_children();
        let j = choose|j: int| 0 <= j < cs.len() && cs[j] == h as usize;
        lemma_position(nodes, h, pi as usize, j);
        assert forall|x: int| 0 <= x < cs.len() implies spec_total_lines(
            nodes,
            #[trigger] cs[x] as int,
        ) <= desc_set(nodes, cs[x] as int).len() by {
            lemma_lines_le_size(nodes, cs[x] as int);
        }
        lemma_child_lines_le_sum(nodes, pi, j);
        lemma_sum_desc_mono(nodes, cs, j + 1, cs.len() as int);
        lemma_desc_split(nodes, pi);
    }
}

/// The rows of a node end no later than those of its parent, while the
/// parent has not completed.
pub proof fn lemma_rows_nested(nodes: Seq<NodeType>, h: int)
    requires
        nodes.len() <= usize::MAX,
        tree_wf(nodes),
        0 <= h < nodes.len(),
        nodes[h].spec_parent() matches Some(p) && nodes[p as int].spec_status()
            != ProgressDisplayVariant::Complete,
    ensures
        spec_num_lines(nodes, h) + spec_total_lines(nodes, h) <= spec_num_lines(
            nodes,
            nodes[h].spec_parent().unwrap() as int,
        ) + spec_total_lines(nodes, nodes[h].spec_parent().unwrap() as int),
{
    assert(node_ok(nodes, h));
    let pi = nodes[h].spec_parent().unwrap() as int;
    assert(node_ok(nodes, pi));
    let cs = nodes[pi].spec_children();
    let j = choose|j: int| 0 <= j < cs.len() && cs[j] == h as usize;
    lemma_position(nodes, h, pi as usize, j);
    lemma_child_lines_mono(nodes, pi, j + 1, cs.len() as int);
    assert(spec_child_lines(nodes, pi, j + 1) == spec_child_lines(nodes, pi, j) + (if nodes[h].spec_status() != ProgressDisplayVariant::Complete { spec_total_lines(nodes, h) } else { 0 }));
}

impl Tracker {
    /// Row of node `h` in the rendered tree, counted from 0 at the root.
    pub fn num_lines(&self, h: usize) -> (r: usize)
        requires
            h < self@.len(),
        ensures
            r == spec_num_lines(self@, h as int),
        decreases h,
    {
        let n: usize = self.len();
        proof {
            use_type_invariant(self);
            lemma_num_lines_bound(self@, h as int);
            assert(node_ok(self@, h as int));
        }
        match self.get(h).parent() {
            None => 0,
            Some(p) => {
                let up = self.num_lines(p);
                let siblings: &Vec<usize> = match self.get(p) {
                    NodeType::Branch(b) => &b.children,
                    NodeType::Node(_) => {
                        assert(false);
                        return 0;
                    },
                };
                let ghost cs = siblings@;
                let ghost j = choose|j: int| 0 <= j < cs.len() && cs[j] == h;
                proof {
                    assert(node_ok(self@, p as int));
                    lemma_position(self@, h as int, p, j);
                }
                let m: usize = siblings.len();
                let mut sum: usize = 0;
                let mut k: usize = 0;
                while siblings[k] != h
                    invariant
                        m == cs.len(),
                        tree_wf(self@),
                        n == self@.len(),
                        p < h < n,
                        cs == siblings@,
                        cs == self@[p as int].spec_children(),
                        0 <= j < cs.len(),
                        cs[j] == h,
                        position_of(cs, h) == j,
                        k <= j,
                        sum == spec_child_lines(self@, p as int, k as int),
                        up + 1 + spec_child_lines(self@, p as int, j) <= n,
                        up == spec_num_lines(self@, p as int),
                    decreases j - k,
                {
                    proof {
                        assert(node_ok(self@, p as int));
                        lemma_children_distinct(self@, p as int);
                        lemma_child_lines_mono(self@, p as int, k as int + 1, j);
                    }
                    let c = siblings[k];
                    assert(p < c && c < n);
                    assert(spec_child_lines(self@, p as int, k as int + 1) == spec_child_lines(self@, p as int, k as int) + (if self@[c as int].spec_status() != ProgressDisplayVariant::Complete { spec_total_lines(self@, c as int) } else { 0 }));
                    if !self.get(c).status().is_complete() {
                        sum = sum + self.total_lines(c);
                    }
                    k = k + 1;
                }
                up + 1 + sum
            },
        }
    }

    /// Number of terminal rows that the subtree at `h` occupies.
    pub fn total_lines(&self, h: usize) -> (r: usize)
        requires
            h < self@.len(),
        ensures
            r == spec_total_lines(self@, h as int),
        decreases self@.len() - h,
    {
        let n: usize = self.len();
        proof {
            use_type_invariant(self);
            lemma_lines_le_size(self@, h as int);
            assert(node_ok(self@, h as int));
        }
        match self.get(h) {
            NodeType::Node(n) => {
                if n.error_message.is_some() {
                    1
                } else {
                    0
                }
            },
            NodeType::Branch(b) => {
                if b.progress.is_complete() {
                    return 0;
                }
                let mut sum: usize = 1;
                let mut k: usize = 0;
                while k < b.children.len()
                    invariant
                        tree_wf(self@),
                        h < self@.len(),
                        self@[h as int] == NodeType::Branch(*b),
                        b.progress != ProgressDisplayVariant::Complete,
                        k <= b.children@.len(),
                        sum == 1 + spec_child_lines(self@, h as int, k as int),
                        spec_total_lines(self@, h as int) <= n,
                        n == self@.len(),
                    decreases b.children@.len() - k,
                {
                    proof {
                        assert(node_ok(self@, h as int));
                        lemma_child_lines_mono(self@, h as int, k as int + 1, b.children@.len() as int);
                    }
                    let c = b.children[k];
                    assert(h < c && c < n);
                    assert(spec_child_lines(self@, h as int, k as int + 1) == spec_child_lines(self@, h as int, k as int) + (if self@[c as int].spec_status() != ProgressDisplayVariant::Complete { spec_total_lines(self@, c as int) } else { 0 }));
                    if !self.get(c).status().is_complete() {
                        sum = sum + self.total_lines(c);
                    }
                    k = k + 1;
                }
                sum
            },
        }
    }
}

} // verus!
