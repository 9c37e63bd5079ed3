//! Span consistency: when the links and spans of a chain of nodes agree with the
//! levels of its nodes.
//!
//! On every level the nodes that take part in it form a singly linked list of their
//! own. The link of a node on level `l` leads to the nearest later node whose level is
//! at least `l`, and its span is the number of level-0 hops to that node. Where no
//! such node follows, the link is absent and the span counts the nodes up to the end
//! of the chain, so that a span always says how many nodes a slot covers.
use vstd::prelude::*;
use crate::node::{Link, Node};

verus! {

/// The slot of node `i` on level `l` agrees with the levels of the nodes after it.
pub open spec fn link_ok<T>(c: Seq<Node<T>>, i: int, l: int) -> bool {
    let span = c[i].links_len@[l] as int;
    match c[i].links@[l] {
        Link::Present => {
            &&& 1 <= span
            &&& i + span < c.len()
            &&& c[i + span].level >= l
            &&& forall|k: int| i < k < i + span ==> (#[trigger] c[k]).level < l
        },
        Link::Absent => {
            &&& span == c.len() - 1 - i
            &&& forall|k: int| i < k < c.len() ==> (#[trigger] c[k]).level < l
        },
    }
}

/// Every node that takes part in level `l` has a consistent slot on that level.
pub open spec fn level_ok<T>(c: Seq<Node<T>>, l: int) -> bool {
    forall|i: int| 0 <= i < c.len() && (#[trigger] c[i]).level >= l ==> link_ok(c, i, l)
}

/// The items of a sequence of nodes, each with the level of its node.
pub open spec fn entries_of<T>(c: Seq<Node<T>>) -> Seq<(T, usize)> {
    Seq::new(c.len(), |i: int| (c[i].item->0, c[i].level))
}

/// The parts of well-formedness that do not depend on the links: every node has one
/// slot per level, no node is higher than the first, and every node but the first
/// holds an item.
pub open spec fn nodes_ok<T>(c: Seq<Node<T>>) -> bool {
    &&& forall|i: int| 0 <= i < c.len() ==> (#[trigger] c[i]).shape_ok() && c[i].level <= c[0].level
    &&& forall|i: int| 1 <= i < c.len() ==> (#[trigger] c[i]).item is Some
}

impl<T> Node<T> {
    /// The items that follow this node, each with the level of its node.
    pub open spec fn entries(self) -> Seq<(T, usize)> {
        entries_of(self.chain().skip(1))
    }

    /// The chain that starts at this node is a well-formed skip list with this node
    /// as its first: the nodes are shaped and bounded as `nodes_ok` says, every node
    /// after the first has its back-reference set, on every level the links and spans
    /// are consistent, and the number of successors fits a `usize`.
    pub open spec fn well_formed(self) -> bool {
        let c = self.chain();
        &&& nodes_ok(c)
        &&& forall|i: int| 1 <= i < c.len() ==> (#[trigger] c[i]).prev == Link::Present
        &&& forall|l: int| 0 <= l <= self.level ==> level_ok(c, l)
        &&& c.len() - 1 <= usize::MAX
    }
}

/// Two nodes agree in level and, where they take part in level `l`, in their slot
/// on that level.
pub open spec fn same_rung<T>(a: Node<T>, b: Node<T>, l: int) -> bool {
    &&& a.level == b.level
    &&& a.level >= l ==> a.links@[l] == b.links@[l] && a.links_len@[l] == b.links_len@[l]
}

/// Consistency on level `l` depends on nothing but the levels of the nodes and their
/// slots on that level.
pub proof fn lemma_level_frame<T>(c1: Seq<Node<T>>, c2: Seq<Node<T>>, l: int)
    requires
        level_ok(c1, l),
        c1.len() == c2.len(),
        forall|k: int| 0 <= k < c1.len() ==> same_rung(#[trigger] c1[k], c2[k], l),
    ensures
        level_ok(c2, l),
{
    assert forall|i: int| 0 <= i < c2.len() && (#[trigger] c2[i]).level >= l implies link_ok(
        c2,
        i,
        l,
    ) by {
        let span = c1[i].links_len@[l] as int;
        if c1[i].links@[l] == Link::Present {
            assert forall|k: int| i < k < i + span implies (#[trigger] c2[k]).level < l by {
                assert(same_rung(c1[k], c2[k], l));
            }
        } else {
            assert forall|k: int| i < k < c2.len() implies (#[trigger] c2[k]).level < l by {
                assert(same_rung(c1[k], c2[k], l));
            }
        }
    }
}

/// Taking one node out of a chain that is consistent on level `l` leaves it
/// consistent on that level, once the slot of the last node before it that takes
/// part in the level has been repaired: where the removed node took part in the
/// level, that slot inherits its link and the two spans are joined, less one for the
/// node itself; where it did not, the span that crossed it shrinks by one.
pub proof fn lemma_unlink_level<T>(
    before: Seq<Node<T>>,
    after: Seq<Node<T>>,
    gone: Node<T>,
    rest: Seq<Node<T>>,
    h: int,
    l: int,
)
    requires
        0 <= h < before.len(),
        before[h].level >= l,
        forall|k: int| h < k < before.len() ==> (#[trigger] before[k]).level < l,
        level_ok(before + seq![gone] + rest, l),
        after.len() == before.len(),
        forall|k: int| 0 <= k < before.len() && k != h ==> same_rung(#[trigger] before[k], after[k], l),
        after[h].level == before[h].level,
        gone.level >= l ==> after[h].links@[l] == gone.links@[l] && after[h].links_len@[l]
            == before[h].links_len@[l] + gone.links_len@[l] - 1,
        gone.level < l ==> after[h].links@[l] == before[h].links@[l] && after[h].links_len@[l]
            == before[h].links_len@[l] - 1,
    ensures
        level_ok(after + rest, l),
{
    let p = before.len() as int;
    let v = before + seq![gone] + rest;
    let w = after + rest;
    assert(v[p] == gone);
    assert forall|i: int| 0 <= i < w.len() && (#[trigger] w[i]).level >= l implies link_ok(
        w,
        i,
        l,
    ) by {
        if i < h {
            let span = v[i].links_len@[l] as int;
            assert forall|k: int| i < k < i + span implies (#[trigger] w[k]).level < l by {
                assert(v[k] == before[k]);
            }
        } else if i == h {
            let d = v[h].links_len@[l] as int;
            assert forall|k: int| h < k < p implies (#[trigger] w[k]).level < l by {
                assert(same_rung(before[k], after[k], l));
            }
            if gone.level >= l {
                let s = gone.links_len@[l] as int;
                if gone.links@[l] == Link::Present {
                    assert forall|k: int| h < k < h + d + s - 1 implies (#[trigger] w[k]).level
                        < l by {
                        if k >= p {
                            assert(w[k] == v[k + 1]);
                        }
                    }
                } else {
                    assert forall|k: int| h < k < w.len() implies (#[trigger] w[k]).level
                        < l by {
                        if k >= p {
                            assert(w[k] == v[k + 1]);
                        }
                    }
                }
            } else {
                if v[h].links@[l] == Link::Present {
                    assert forall|k: int| h < k < h + d - 1 implies (#[trigger] w[k]).level
                        < l by {
                        if k >= p {
                            assert(w[k] == v[k + 1]);
                        }
                    }
                } else {
                    assert forall|k: int| h < k < w.len() implies (#[trigger] w[k]).level
                        < l by {
                        if k >= p {
                            assert(w[k] == v[k + 1]);
                        }
                    }
                }
            }
        } else if i >= p {
            let span = v[i + 1].links_len@[l] as int;
            if v[i + 1].links@[l] == Link::Present {
                assert forall|k: int| i < k < i + span implies (#[trigger] w[k]).level < l by {
                    assert(w[k] == v[k + 1]);
                }
            } else {
                assert forall|k: int| i < k < w.len() implies (#[trigger] w[k]).level < l by {
                    assert(w[k] == v[k + 1]);
                }
            }
        }
    }
}

/// What follows a node of a consistent chain is a consistent chain of its own: links
/// lead forward only, and an absent link spans the nodes up to the end.
pub proof fn lemma_level_suffix<T>(c: Seq<Node<T>>, from: int, l: int)
    requires
        level_ok(c, l),
        0 <= from <= c.len(),
    ensures
        level_ok(c.skip(from), l),
{
}

/// A node linked to the first node of a chain that is consistent on level 0, one
/// hop away, makes with it a chain that is consistent on level 0.
pub proof fn lemma_level0_cons<T>(node: Node<T>, c: Seq<Node<T>>)
    requires
        level_ok(c, 0),
        c.len() >= 1,
        node.links@[0] == Link::Present,
        node.links_len@[0] == 1,
    ensures
        level_ok(seq![node] + c, 0),
{
}

} // verus!
