//! The tree renderer: one text row per terminal line, with branch glyphs,
//! completed subtrees left out and error messages shown.

use vstd::prelude::*;
use crate::model::{node_ok, tree_wf};
use crate::node::NodeType;
use crate::status::ProgressDisplayVariant;
use crate::tree::Tracker;

verus! {

/// Start of the first row of a child: a tee, or a corner for the last child.
pub open spec fn first_prefix(last: bool) -> Seq<char> {
    if last {
        "└── "@
    } else {
        "├── "@
    }
}

/// Start of the further rows of a child branch: a vertical pipe, or blanks
/// below the last child.
pub open spec fn rest_prefix(last: bool) -> Seq<char> {
    if last {
        "    "@
    } else {
        "│   "@
    }
}

/// The rows of a child branch, shifted right under their glyphs.
pub open spec fn indent(rows: Seq<Seq<char>>, last: bool) -> Seq<Seq<char>> {
    Seq::new(
        rows.len(),
        |i: int|
            if i == 0 {
                first_prefix(last) + rows[i]
            } else {
                rest_prefix(last) + rows[i]
            },
    )
}

/// The row of a child leaf that carries error `m`.
pub open spec fn error_row(name: Seq<char>, m: Seq<char>, last: bool) -> Seq<char> {
    first_prefix(last) + name + ": "@ + m
}

/// The rows of the subtree at `h`: its name, then the rows of each child
/// that has not completed, in child order.
pub open spec fn spec_render(nodes: Seq<NodeType>, h: int) -> Seq<Seq<char>>
    decreases nodes.len() - h, 1int, 0int,
{
    if !(0 <= h < nodes.len()) {
        Seq::empty()
    } else {
        seq![nodes[h].spec_name()] + spec_child_rows(
            nodes,
            h,
            nodes[h].spec_children().len() as int,
        )
    }
}

/// The rows that the first `k` children of `h` add.
pub open spec fn spec_child_rows(nodes: Seq<NodeType>, h: int, k: int) -> Seq<Seq<char>>
    decreases nodes.len() - h, 0int, k,
{
    if !(0 <= h < nodes.len()) || k <= 0 || k > nodes[h].spec_children().len() {
        Seq::empty()
    } else {
        let cs = nodes[h].spec_children();
        let c = cs[k - 1] as int;
        let last = k == cs.len();
        spec_child_rows(nodes, h, k - 1) + if h < c < nodes.len() && nodes[c].spec_status()
            != ProgressDisplayVariant::Complete {
            if nodes[c].is_branch() {
                indent(spec_render(nodes, c), last)
            } else {
                match nodes[c].spec_message() {
                    Some(m) => seq![error_row(nodes[c].spec_name(), m, last)],
                    None => Seq::empty(),
                }
            }
        } else {
            Seq::empty()
        }
    }
}

/// The text of each row.
pub open spec fn rows_view(v: Seq<String>) -> Seq<Seq<char>> {
    v.map_values(|s: String| s@)
}

/// Appends the rows of a child branch under their glyphs.
fn push_indented(out: &mut Vec<String>, rows: &Vec<String>, last: bool)
    ensures
        rows_view(final(out)@) == rows_view(old(out)@) + indent(rows_view(rows@), last),
{
    let ghost start = rows_view(out@);
    let mut i: usize = 0;
    while i < rows.len()
        invariant
            i <= rows@.len(),
            rows_view(out@) == start + indent(rows_view(rows@), last).take(i as int),
        decreases rows@.len() - i,
    {
        let mut row = if i == 0 {
            if last {
                String::from_str("└── ")
            } else {
                String::from_str("├── ")
            }
        } else {
            if last {
                String::from_str("    ")
            } else {
                String::from_str("│   ")
            }
        };
        row.append(rows[i].as_str());
        let ghost before = out@;
        out.push(row);
        proof {
            assert(rows_view(out@) =~= rows_view(before).push(row@));
            assert(indent(rows_view(rows@), last).take(i as int + 1) =~= indent(
                rows_view(rows@),
                last,
            ).take(i as int).push(row@));
        }
        i = i + 1;
    }
    proof {
        assert(indent(rows_view(rows@), last).take(rows@.len() as int) =~= indent(
            rows_view(rows@),
            last,
        ));
    }
}

impl Tracker {
    /// The rows of the subtree at `h`.
    fn render_at(&self, h: usize) -> (r: Vec<String>)
        requires
            h < self@.len(),
        ensures
            rows_view(r@) == spec_render(self@, h as int),
        decreases self@.len() - h,
    {
        proof {
            use_type_invariant(self);
            assert(node_ok(self@, h as int));
        }
        let n: usize = self.len();
        let mut out: Vec<String> = Vec::new();
        out.push(self.get(h).name());
        proof {
            assert(rows_view(out@) =~= seq![self@[h as int].spec_name()]);
        }
        let children: &Vec<usize> = match self.get(h) {
            NodeType::Branch(b) => &b.children,
            NodeType::Node(_) => {
                proof {
                    assert(spec_child_rows(self@, h as int, 0) =~= Seq::empty());
                    assert(rows_view(out@) =~= spec_render(self@, h as int));
                }
                return out;
            },
        };
        let m: usize = children.len();
        let mut k: usize = 0;
        while k < m
            invariant
                tree_wf(self@),
                n == self@.len(),
                h < n,
                m == children@.len(),
                children@ == self@[h as int].spec_children(),
                k <= m,
                rows_view(out@) == seq![self@[h as int].spec_name()] + spec_child_rows(
                    self@,
                    h as int,
                    k as int,
                ),
            decreases m - k,
        {
            proof {
                assert(node_ok(self@, h as int));
            }
            let c = children[k];
            let last = k + 1 == m;
            let ghost base = rows_view(out@);
            if !self.get(c).status().is_complete() {
                match self.get(c) {
                    NodeType::Branch(_) => {
                        let sub = self.render_at(c);
                        push_indented(&mut out, &sub, last);
                    },
                    NodeType::Node(leaf) => {
                        match &leaf.error_message {
                            Some(msg) => {
                                let mut row = if last {
                                    String::from_str("└── ")
                                } else {
                                    String::from_str("├── ")
                                };
                                row.append(leaf.name.as_str());
                                row.append(": ");
                                row.append(msg.as_str());
                                out.push(row);
                                proof {
                                    assert(rows_view(out@) =~= base.push(row@));
                                }
                            },
                            None => {},
                        }
                    },
                }
            }
            proof {
                assert(spec_child_rows(self@, h as int, k as int + 1) == spec_child_rows(self@, h as int, k as int) + (if (h as int) < (c as int) < self@.len() && self@[c as int].spec_status() != ProgressDisplayVariant::Complete {
                    if self@[c as int].is_branch() {
                        indent(spec_render(self@, c as int), last)
                    } else {
                        match self@[c as int].spec_message() {
                            Some(m) => seq![error_row(self@[c as int].spec_name(), m, last)],
                            None => Seq::empty(),
                        }
                    }
                } else {
                    Seq::empty()
                }));
                assert(rows_view(out@) =~= seq![self@[h as int].spec_name()] + spec_child_rows(self@, h as int, k as int + 1));
            }
            k = k + 1;
        }
        out
    }

    /// The rows of the whole tree, the root's name first; no rows for a
    /// tree without a root.
    pub fn render(&self) -> (r: Vec<String>)
        ensures
            rows_view(r@) == spec_render(self@, 0),
    {
        if self.len() == 0 {
            let out: Vec<String> = Vec::new();
            proof {
                assert(rows_view(out@) =~= spec_render(self@, 0));
            }
            out
        } else {
            self.render_at(0)
        }
    }
}

} // verus!
