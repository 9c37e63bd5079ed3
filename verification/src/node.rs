//! The node of a skip list and the primitives that splice its level-0 chain.
//!
//! A node owns the node that follows it on level 0. Every other reference between
//! nodes (the back-reference to the predecessor, the forward links on levels one and
//! above) is non-owning, and is held as a [`Link`] marker: it records that the
//! reference exists, and the node it designates is found by position. The predecessor
//! is the node that owns this one; the target of the link on level `l` is the node
//! `links_len[l]` level-0 hops ahead.
use vstd::prelude::*;
use vstd::string::to_string_from_display_ensures;
use crate::spans::{
    lemma_level0_cons, lemma_level_frame, lemma_level_suffix, level_ok, link_ok,
};

verus! {

/// What a non-owning reference slot holds.
#[derive(Clone, Copy, PartialEq, Eq, Debug, Structural)]
pub enum Link {
    /// The slot refers to no node.
    Absent,
    /// The slot refers to a node of the same chain.
    Present,
}

/// One node of a skip list, together with everything that follows it on level 0.
pub struct Node<T> {
    /// The stored item; `None` only in a head node.
    pub item: Option<T>,
    /// The highest level this node takes part in.
    pub level: usize,
    /// The back-reference to the level-0 predecessor.
    pub prev: Link,
    /// One slot per level, `level + 1` in all. Slot 0 restates whether `next` holds a
    /// node; slot `l` says whether a later node takes part in level `l`.
    pub links: Vec<Link>,
    /// The length of each link, counted in level-0 hops.
    pub links_len: Vec<usize>,
    /// The node that follows on level 0, owned by this one.
    pub next: Option<Box<Node<T>>>,
}

/// The nodes reachable from an optional owning link, in level-0 order.
pub open spec fn chain_of<T>(link: Option<Box<Node<T>>>) -> Seq<Node<T>>
    decreases link,
{
    match link {
        None => Seq::empty(),
        Some(node) => seq![*node] + chain_of(node.next),
    }
}

impl<T> Node<T> {
    /// This node followed by all its level-0 successors, in order.
    pub open spec fn chain(self) -> Seq<Node<T>> {
        seq![self] + chain_of(self.next)
    }

    /// Both slot vectors have one slot per level.
    pub open spec fn shape_ok(self) -> bool {
        &&& self.links@.len() == self.level + 1
        &&& self.links_len@.len() == self.level + 1
    }

    /// A node that nothing precedes and nothing follows, with every slot empty.
    pub open spec fn is_detached(self) -> bool {
        &&& self.prev == Link::Absent
        &&& self.next is None
        &&& self.shape_ok()
        &&& forall|l: int| 0 <= l <= self.level ==> self.links@[l] == Link::Absent
        &&& forall|l: int| 0 <= l <= self.level ==> self.links_len@[l] == 0
    }

    /// Create a new head node for a list of `total_levels` levels.
    pub fn head(total_levels: usize) -> (node: Self)
        requires
            total_levels >= 1,
        ensures
            node.item is None,
            node.level == total_levels - 1,
            node.is_detached(),
            node.well_formed(),
    {
        let node = Node {
            item: None,
            level: total_levels - 1,
            prev: Link::Absent,
            links: vec![Link::Absent; total_levels],
            links_len: vec![0usize; total_levels],
            next: None,
        };
        proof {
            lemma_alone(node);
        }
        node
    }

    /// Create a new node with the given item. Every link starts out absent.
    pub fn new(item: T, level: usize) -> (node: Self)
        requires
            level < usize::MAX,
        ensures
            node.item == Some(item),
            node.level == level,
            node.is_detached(),
            node.well_formed(),
    {
        let node = Node {
            item: Some(item),
            level,
            prev: Link::Absent,
            links: vec![Link::Absent; level + 1],
            links_len: vec![0usize; level + 1],
            next: None,
        };
        proof {
            lemma_alone(node);
        }
        node
    }

    /// Consumes the node, returning the item it contains.
    pub fn into_inner(self) -> (item: Option<T>)
        ensures
            item == self.item,
    {
        let mut node = self;
        node.item.take()
    }

    /// The item as it displays; the empty text for a node without item.
    pub fn to_string(&self) -> (text: String) where T: core::fmt::Display
        ensures
            match self.item {
                Some(item) => to_string_from_display_ensures::<T>(&item, text),
                None => text@ == Seq::<char>::empty(),
            },
    {
        match &self.item {
            Some(item) => item.to_string(),
            None => String::new(),
        }
    }

    /// Returns `true` if the node is a head node, that is, if nothing precedes it.
    pub fn is_head(&self) -> (b: bool)
        ensures
            b == (self.prev == Link::Absent),
    {
        self.prev == Link::Absent
    }

    /// Returns the next node in the list, at level 0.
    pub fn next_ref(&self) -> (next: Option<&Self>)
        ensures
            next == match self.next {
                Some(node) => Some(&*node),
                None => None,
            },
    {
        match &self.next {
            Some(node) => Some(&**node),
            None => None,
        }
    }

    /// Returns the mutable reference to the next node in the list, at level 0.
    ///
    /// Whatever the caller writes through the reference is what this node owns
    /// afterwards; nothing else of this node changes.
    pub fn next_mut(&mut self) -> (next: Option<&mut Self>)
        ensures
            match old(self).next {
                Some(node) => {
                    &&& next is Some
                    &&& *next.unwrap() == *node
                    &&& *final(self) == (Node {
                        next: Some(Box::new(*final(next.unwrap()))),
                        ..*old(self)
                    })
                },
                None => next is None && *final(self) == *old(self),
            },
    {
        match &mut self.next {
            Some(node) => Some(&mut **node),
            None => None,
        }
    }

    /// Takes the next node and clears its back-reference.
    ///
    /// Only level 0 is repaired: the caller answers for the links of level one and
    /// above that pointed into the detached part.
    pub fn take_tail(&mut self) -> (tail: Option<Box<Self>>)
        requires
            old(self).shape_ok(),
        ensures
            match old(self).next {
                Some(node) => {
                    &&& tail == Some(Box::new(Node { prev: Link::Absent, ..*node }))
                    &&& final(self).next is None
                    &&& final(self).links@ == old(self).links@.update(0, Link::Absent)
                    &&& final(self).links_len@ == old(self).links_len@.update(0, 0usize)
                    &&& final(self).item == old(self).item
                    &&& final(self).level == old(self).level
                    &&& final(self).prev == old(self).prev
                },
                None => tail is None && *final(self) == *old(self),
            },
            level_ok(old(self).chain(), 0) ==> level_ok(final(self).chain(), 0) && level_ok(
                chain_of(tail),
                0,
            ),
    {
        let ghost whole = self.chain();
        match self.next.take() {
            Some(mut node) => {
                let ghost attached = *node;
                node.prev = Link::Absent;
                self.links[0] = Link::Absent;
                self.links_len[0] = 0;
                proof {
                    if level_ok(whole, 0) {
                        assert(whole.skip(1) =~= attached.chain());
                        lemma_detached_level0(whole, attached, *node);
                    }
                }
                Some(node)
            },
            None => None,
        }
    }

    /// Replaces the next node and returns the old one, its back-reference cleared.
    ///
    /// Only level 0 is repaired: the caller answers for the links of level one and
    /// above on both sides of the splice.
    pub fn replace_tail(&mut self, new_next: Box<Self>) -> (old_next: Option<Box<Self>>)
        requires
            old(self).shape_ok(),
        ensures
            old_next == match old(self).next {
                Some(node) => Some(Box::new(Node { prev: Link::Absent, ..*node })),
                None => None,
            },
            final(self).next == Some(Box::new(Node { prev: Link::Present, ..*new_next })),
            final(self).links@ == old(self).links@.update(0, Link::Present),
            final(self).links_len@ == old(self).links_len@.update(0, 1usize),
            final(self).item == old(self).item,
            final(self).level == old(self).level,
            final(self).prev == old(self).prev,
            level_ok(new_next.chain(), 0) ==> level_ok(final(self).chain(), 0),
            level_ok(old(self).chain(), 0) ==> level_ok(chain_of(old_next), 0),
    {
        let old_next = self.take_tail();
        let ghost given = *new_next;
        let mut new_next = new_next;
        new_next.prev = Link::Present;
        let ghost hooked = *new_next;
        self.next = Some(new_next);
        self.links[0] = Link::Present;
        self.links_len[0] = 1;
        proof {
            if level_ok(given.chain(), 0) {
                lemma_level_frame(given.chain(), hooked.chain(), 0);
                lemma_level0_cons(*self, hooked.chain());
            }
        }
        old_next
    }
}

impl<T> Drop for Node<T> {
    /// Drops the nodes that follow, one after the other, so that the depth of the
    /// call stack does not grow with the length of the list.
    fn drop(&mut self)
        opens_invariants none
        no_unwind
    {
        let mut next: Option<Box<Node<T>>> = None;
        core::mem::swap(&mut self.next, &mut next);
        loop
            decreases chain_of(next).len(),
        {
            match next {
                Some(mut node) => {
                    next = None;
                    core::mem::swap(&mut node.next, &mut next);
                },
                None => {
                    break ;
                },
            }
        }
    }
}

/// A detached node is a well-formed list of its own, with nothing in it.
pub proof fn lemma_alone<T>(node: Node<T>)
    requires
        node.is_detached(),
    ensures
        node.well_formed(),
        node.entries().len() == 0,
{
    assert(node.chain() =~= seq![node]);
    assert forall|l: int| 0 <= l <= node.level implies level_ok(node.chain(), l) by {
        assert(link_ok(node.chain(), 0, l));
    }
}

/// The chain that `take_tail` hands out is consistent on level 0 where the chain it
/// was taken from is: it is what followed the first node, with the back-reference of
/// its own first node cleared.
proof fn lemma_detached_level0<T>(whole: Seq<Node<T>>, attached: Node<T>, detached: Node<T>)
    requires
        level_ok(whole, 0),
        whole.len() >= 1,
        whole.skip(1) == attached.chain(),
        detached == (Node { prev: Link::Absent, ..attached }),
    ensures
        level_ok(detached.chain(), 0),
{
    lemma_level_suffix(whole, 1, 0);
    lemma_level_frame(attached.chain(), detached.chain(), 0);
}

} // verus!
