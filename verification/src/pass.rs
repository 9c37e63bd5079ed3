//! The steps of one pass over a list: taking the next node off the chain, recording
//! a kept node as the head of its levels, repairing the levels after a dropped node,
//! and threading the kept nodes back onto one chain.
//!
//! While a pass lasts, the nodes kept so far stand alone in a vector, the head of
//! the list first, and the nodes still to visit hang together as a chain. The list
//! that the pass is about is the one followed by the other; every step keeps it
//! consistent on the levels above 0, and `relink` restores level 0 at the end.
use vstd::prelude::*;
use crate::node::{chain_of, Link, Node};
use crate::spans::{
    entries_of, lemma_level_frame, lemma_unlink_level, level_ok, link_ok, nodes_ok,
};

verus! {

/// `heads[l]` is the index of the last node of `kept` that takes part in level `l`.
pub open spec fn heads_ok<T>(kept: Seq<Node<T>>, heads: Seq<usize>) -> bool {
    &&& heads.len() == kept[0].level + 1
    &&& forall|l: int|
        0 <= l < heads.len() ==> {
            &&& (#[trigger] heads[l]) < kept.len()
            &&& kept[heads[l] as int].level >= l
            &&& forall|k: int| heads[l] < k < kept.len() ==> (#[trigger] kept[k]).level < l
        }
}

/// The nodes that a vector of owned nodes holds.
pub open spec fn unboxed<T>(nodes: Seq<Box<Node<T>>>) -> Seq<Node<T>> {
    Seq::new(nodes.len(), |i: int| *nodes[i])
}

/// The nodes are shaped and bounded, and consistent on every level above 0.
pub open spec fn upper_ok<T>(c: Seq<Node<T>>) -> bool {
    &&& c.len() >= 1
    &&& nodes_ok(c)
    &&& forall|l: int| 1 <= l <= c[0].level ==> level_ok(c, l)
}

/// Two nodes that differ at most in their links on level 0.
pub open spec fn same_upper<T>(a: Node<T>, b: Node<T>) -> bool {
    &&& a.level == b.level
    &&& a.item == b.item
    &&& a.links@.len() == b.links@.len()
    &&& a.links_len@.len() == b.links_len@.len()
    &&& forall|l: int| 1 <= l <= a.level ==> a.links@[l] == b.links@[l]
    &&& forall|l: int| 1 <= l <= a.level ==> a.links_len@[l] == b.links_len@[l]
}

/// A node that stands alone on level 0.
pub open spec fn unhooked<T>(node: Node<T>) -> bool {
    &&& node.next is None
    &&& node.links@[0] == Link::Absent
    &&& node.links_len@[0] == 0
}

/// Consistency above level 0 survives any change to level 0.
pub proof fn lemma_upper_frame<T>(c1: Seq<Node<T>>, c2: Seq<Node<T>>)
    requires
        upper_ok(c1),
        c1.len() == c2.len(),
        forall|k: int| 0 <= k < c1.len() ==> same_upper(#[trigger] c1[k], c2[k]),
    ensures
        upper_ok(c2),
{
    assert forall|i: int| 0 <= i < c2.len() implies (#[trigger] c2[i]).shape_ok() && c2[i].level
        <= c2[0].level by {
        assert(c1[i].shape_ok());
    }
    assert forall|i: int| 1 <= i < c2.len() implies (#[trigger] c2[i]).item is Some by {
        assert(c1[i].item is Some);
    }
    assert forall|l: int| 1 <= l <= c2[0].level implies level_ok(c2, l) by {
        lemma_level_frame(c1, c2, l);
    }
}

/// What `unlink` leaves untouched in a node: everything but its slots above level 0.
pub open spec fn same_base<T>(a: Node<T>, b: Node<T>) -> bool {
    &&& a.item == b.item
    &&& a.level == b.level
    &&& a.prev == b.prev
    &&& a.next == b.next
    &&& a.links@.len() == b.links@.len()
    &&& a.links_len@.len() == b.links_len@.len()
    &&& a.links@[0] == b.links@[0]
    &&& a.links_len@[0] == b.links_len@[0]
}

/// Repairs every level above 0 after `gone`, the node that followed the last of
/// `kept`, has been taken out of the chain.
///
/// On each level the slot to repair is that of the level's head, the last kept node
/// that takes part in the level. Where `gone` took part in the level too, the head's
/// link led to it: the head inherits the link of `gone` and the two spans are joined,
/// less one for `gone` itself. Where it did not, the head's span crossed it and
/// shrinks by one.
pub(crate) fn unlink<T>(
    kept: &mut Vec<Box<Node<T>>>,
    level_heads: &Vec<usize>,
    gone: &Node<T>,
    Ghost(rest): Ghost<Seq<Node<T>>>,
)
    requires
        upper_ok(unboxed(old(kept)@) + seq![*gone] + rest),
        heads_ok(unboxed(old(kept)@), level_heads@),
        unboxed(old(kept)@).len() >= 1,
        unboxed(old(kept)@).len() + rest.len() <= usize::MAX,
        forall|k: int|
            0 <= k < unboxed(old(kept)@).len() ==> unhooked(#[trigger] unboxed(old(kept)@)[k]),
    ensures
        unboxed(final(kept)@).len() == unboxed(old(kept)@).len(),
        same_base(unboxed(old(kept)@)[0], unboxed(final(kept)@)[0]),
        unboxed(final(kept)@).last().item == unboxed(old(kept)@).last().item,
        entries_of(unboxed(final(kept)@).skip(1)) == entries_of(unboxed(old(kept)@).skip(1)),
        upper_ok(unboxed(final(kept)@) + rest),
        heads_ok(unboxed(final(kept)@), level_heads@),
        forall|k: int|
            0 <= k < unboxed(final(kept)@).len() ==> unhooked(#[trigger] unboxed(final(kept)@)[k]),
{
    let ghost start = unboxed(kept@);
    let ghost top = unboxed(kept@)[0].level;
    assert(start[0].shape_ok() && start[0].links.len() == start[0].links@.len());
    let top_level = kept[0].level;
    let mut level: usize = 1;
    while level <= top_level
        invariant
            1 <= level <= top_level + 1,
            top_level == top,
            top == start[0].level,
            top < usize::MAX,
            unboxed(kept@).len() == start.len(),
            start.len() >= 1,
            start.len() + rest.len() <= usize::MAX,
            heads_ok(start, level_heads@),
            nodes_ok(start + seq![*gone] + rest),
            forall|k: int| 0 <= k < start.len() ==> same_base(start[k], #[trigger] unboxed(kept@)[k]),
            forall|l: int| 1 <= l < level ==> level_ok(unboxed(kept@) + rest, l),
            forall|l: int| level <= l <= top ==> level_ok(unboxed(kept@) + seq![*gone] + rest, l),
        decreases top_level + 1 - level,
    {
        let ghost before = unboxed(kept@);
        let ghost with_gone = before + seq![*gone] + rest;
        let ghost p = before.len() as int;
        let h = level_heads[level];
        proof {
            assert(level_ok(with_gone, level as int));
            assert(with_gone[p] == *gone);
            assert(link_ok(with_gone, h as int, level as int));
            assert((start + seq![*gone] + rest)[h as int] == start[h as int]);
            assert((start + seq![*gone] + rest)[p] == *gone);
        }
        if level <= gone.level {
            let joined = kept[h].links_len[level] + gone.links_len[level] - 1;
            kept[h].links_len[level] = joined;
            kept[h].links[level] = gone.links[level];
        } else {
            kept[h].links_len[level] -= 1;
        }
        proof {
            let after = unboxed(kept@);
            assert forall|k: int| 0 <= k < start.len() implies same_base(start[k], #[trigger] after[k]) by {
                assert(same_base(start[k], before[k]));
            }
            assert forall|l: int| 1 <= l < level + 1 implies level_ok(after + rest, l) by {
                if l < level {
                    lemma_level_frame(before + rest, after + rest, l);
                } else {
                    lemma_unlink_level(before, after, *gone, rest, h as int, l);
                }
            }
            assert forall|l: int| level + 1 <= l <= top implies level_ok(
                after + seq![*gone] + rest,
                l,
            ) by {
                let c1 = before + seq![*gone] + rest;
                let c2 = after + seq![*gone] + rest;
                lemma_level_frame(c1, c2, l);
            }
        }
        level += 1;
    }
    proof {
        lemma_same_base(start, unboxed(kept@), *gone, rest, level_heads@);
    }
}

/// What `unlink` has when it is done: the nodes it worked on kept their base, so
/// they are shaped, bounded, filled, alone on level 0 and headed as before.
proof fn lemma_same_base<T>(
    before: Seq<Node<T>>,
    after: Seq<Node<T>>,
    gone: Node<T>,
    rest: Seq<Node<T>>,
    heads: Seq<usize>,
)
    requires
        before.len() >= 1,
        after.len() == before.len(),
        forall|k: int| 0 <= k < before.len() ==> same_base(before[k], #[trigger] after[k]),
        nodes_ok(before + seq![gone] + rest),
        heads_ok(before, heads),
        forall|k: int| 0 <= k < before.len() ==> unhooked(#[trigger] before[k]),
        forall|l: int| 1 <= l <= before[0].level ==> level_ok(after + rest, l),
    ensures
        same_base(before[0], after[0]),
        after.last().item == before.last().item,
        entries_of(after.skip(1)) == entries_of(before.skip(1)),
        upper_ok(after + rest),
        heads_ok(after, heads),
        forall|k: int| 0 <= k < after.len() ==> unhooked(#[trigger] after[k]),
{
    let v1 = before + seq![gone] + rest;
    let v2 = after + rest;
    let p = before.len() as int;
    assert forall|i: int| 0 <= i < v2.len() implies (#[trigger] v2[i]).shape_ok() && v2[i].level
        <= v2[0].level by {
        if i < p {
            assert(v1[i] == before[i]);
        } else {
            assert(v2[i] == v1[i + 1]);
        }
    }
    assert forall|i: int| 1 <= i < v2.len() implies (#[trigger] v2[i]).item is Some by {
        if i < p {
            assert(v1[i] == before[i]);
        } else {
            assert(v2[i] == v1[i + 1]);
        }
    }
}

/// Level 0 of a chain as `take_tail` and `replace_tail` leave it: every node but the
/// last is linked to its successor, one hop away; the last has no link and spans
/// nothing; every node but the first has its back-reference set.
pub open spec fn level0_ok<T>(c: Seq<Node<T>>) -> bool {
    &&& forall|i: int|
        0 <= i < c.len() - 1 ==> (#[trigger] c[i]).links@[0] == Link::Present
            && c[i].links_len@[0] == 1
    &&& c.len() >= 1 ==> c.last().links@[0] == Link::Absent && c.last().links_len@[0] == 0
    &&& forall|i: int| 1 <= i < c.len() ==> (#[trigger] c[i]).prev == Link::Present
}

/// A chain linked hop by hop is consistent on level 0.
pub proof fn lemma_level0<T>(c: Seq<Node<T>>)
    requires
        level0_ok(c),
    ensures
        level_ok(c, 0),
{
}

/// Threads the kept nodes back onto one chain, last to first, and returns the first.
pub(crate) fn relink<T>(kept: Vec<Box<Node<T>>>) -> (head: Node<T>)
    requires
        upper_ok(unboxed(kept@)),
        forall|k: int| 0 <= k < unboxed(kept@).len() ==> unhooked(#[trigger] unboxed(kept@)[k]),
    ensures
        head.well_formed(),
        head.prev == unboxed(kept@)[0].prev,
        head.item == unboxed(kept@)[0].item,
        head.level == unboxed(kept@)[0].level,
        head.entries() == entries_of(unboxed(kept@).skip(1)),
{
    let ghost start = unboxed(kept@);
    let mut kept = kept;
    let mut tail: Option<Box<Node<T>>> = None;
    assert(kept@.len() == kept.len());
    while kept.len() > 0
        invariant
            upper_ok(start),
            forall|k: int| 0 <= k < start.len() ==> unhooked(#[trigger] start[k]),
            unboxed(kept@).len() + chain_of(tail).len() == start.len(),
            start.len() <= usize::MAX,
            forall|k: int| 0 <= k < unboxed(kept@).len() ==> unboxed(kept@)[k] == start[k],
            forall|k: int|
                unboxed(kept@).len() <= k < start.len() ==> same_upper(
                    #[trigger] start[k],
                    chain_of(tail)[k - unboxed(kept@).len()],
                ),
            level0_ok(chain_of(tail)),
            chain_of(tail).len() >= 1 ==> chain_of(tail)[0].prev == start[unboxed(kept@).len() as int].prev,
        decreases kept.len(),
    {
        let ghost below = chain_of(tail);
        let mut node = kept.pop().unwrap();
        match tail {
            Some(next) => {
                let _ = node.replace_tail(next);
                assert forall|j: int| 2 <= j <= below.len() implies chain_of(Some(node))[j]
                    == below[j - 1] by {}
            },
            None => {
                assert(chain_of(Some(node)).len() == 1);
            },
        }
        tail = Some(node);
    }
    let head = *tail.unwrap();
    proof {
        let c = head.chain();
        lemma_upper_frame(start, c);
        lemma_level0(c);
    }
    head
}

/// A node without item, successor or slots, to stand in for a node that is being
/// rebuilt elsewhere.
pub(crate) fn vacant<T>() -> (node: Node<T>)
    ensures
        node.item is None,
        node.level == 0,
        node.prev == Link::Absent,
        node.next is None,
        node.links@.len() == 0,
        node.links_len@.len() == 0,
{
    Node {
        item: None,
        level: 0,
        prev: Link::Absent,
        links: Vec::new(),
        links_len: Vec::new(),
        next: None,
    }
}

/// The last node of the chain, if there is one, has no link on level 0 and spans
/// nothing there.
pub open spec fn ends_unhooked<T>(c: Seq<Node<T>>) -> bool {
    c.len() >= 1 ==> c.last().links@[0] == Link::Absent && c.last().links_len@[0] == 0
}

/// A chain that is consistent on level 0 ends in a node without a link there.
pub proof fn lemma_ends_unhooked<T>(c: Seq<Node<T>>)
    requires
        level_ok(c, 0),
    ensures
        ends_unhooked(c),
{
}

/// Takes the first node off the chain that `rest` owns and leaves in `rest` what
/// followed it. The node comes out alone on level 0; above level 0 neither it nor
/// the nodes after it have changed.
pub(crate) fn detach_first<T>(rest: &mut Option<Box<Node<T>>>) -> (first: Option<Box<Node<T>>>)
    requires
        chain_of(*old(rest)).len() >= 1 ==> chain_of(*old(rest))[0].shape_ok(),
        ends_unhooked(chain_of(*old(rest))),
    ensures
        match first {
            None => *old(rest) is None && *final(rest) is None,
            Some(node) => {
                let before = chain_of(*old(rest));
                let after = chain_of(*final(rest));
                &&& before.len() == after.len() + 1
                &&& same_upper(before[0], *node)
                &&& node.prev == before[0].prev
                &&& unhooked(*node)
                &&& forall|k: int| 0 <= k < after.len() ==> same_upper(before[k + 1], #[trigger] after[k])
                &&& ends_unhooked(after)
            },
        },
{
    let ghost before = chain_of(*rest);
    match rest.take() {
        None => None,
        Some(mut node) => {
            let ghost attached = *node;
            *rest = node.take_tail();
            assert(chain_of(*rest).len() == chain_of(attached.next).len());
            Some(node)
        },
    }
}

/// What holds of the list of a pass once its next node has been detached: it is as
/// consistent above level 0 as before, and the node and the chain after it hold the
/// entries that the chain held.
pub proof fn lemma_detached<T>(
    kept: Seq<Node<T>>,
    before: Seq<Node<T>>,
    node: Node<T>,
    after: Seq<Node<T>>,
)
    requires
        upper_ok(kept + before),
        before.len() == after.len() + 1,
        same_upper(before[0], node),
        forall|k: int| 0 <= k < after.len() ==> same_upper(before[k + 1], #[trigger] after[k]),
    ensures
        upper_ok(kept + seq![node] + after),
        node.shape_ok(),
        kept.len() >= 1 ==> node.item is Some && node.level <= kept[0].level,
        entries_of(before)[0] == (node.item->0, node.level),
        entries_of(after) == entries_of(before).skip(1),
{
    let v0 = kept + before;
    let v1 = kept + seq![node] + after;
    let p = kept.len() as int;
    lemma_upper_frame(v0, v1);
    assert(v1[p] == node);
}

/// Makes `index` the head of every level up to `upto`.
pub(crate) fn promote(level_heads: &mut Vec<usize>, upto: usize, index: usize)
    requires
        upto < old(level_heads)@.len(),
    ensures
        final(level_heads)@.len() == old(level_heads)@.len(),
        forall|l: int| 0 <= l <= upto ==> final(level_heads)@[l] == index,
        forall|l: int| upto < l < old(level_heads)@.len() ==> final(level_heads)@[l] == old(level_heads)@[l],
{
    assert(level_heads@.len() == level_heads.len());
    let mut level: usize = 0;
    while level <= upto
        invariant
            level <= upto + 1,
            upto < usize::MAX,
            upto < level_heads@.len(),
            level_heads@.len() == old(level_heads)@.len(),
            forall|l: int| 0 <= l < level ==> level_heads@[l] == index,
            forall|l: int| level <= l < level_heads@.len() ==> level_heads@[l] == old(level_heads)@[l],
        decreases upto + 1 - level,
    {
        level_heads[level] = index;
        level += 1;
    }
}

/// A node kept at the end of the kept nodes is the head of each of its levels; the
/// levels above it keep their heads.
pub proof fn lemma_promoted<T>(
    kept: Seq<Node<T>>,
    node: Node<T>,
    before: Seq<usize>,
    after: Seq<usize>,
)
    requires
        kept.len() >= 1,
        heads_ok(kept, before),
        node.level <= kept[0].level,
        after.len() == before.len(),
        forall|l: int| 0 <= l <= node.level ==> after[l] == kept.len(),
        forall|l: int| node.level < l < before.len() ==> after[l] == before[l],
    ensures
        heads_ok(kept.push(node), after),
{
}

} // verus!
