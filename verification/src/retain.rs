//! Bulk conditional removal.
//!
//! `retain` walks the level-0 chain once, from the head. Each node is detached and
//! shown to the predicate together with the item of the last node kept before it; a
//! node that is kept goes back onto the chain, a node that is not is dropped, and the
//! links and spans that crossed it are repaired on every level. The nodes kept so
//! far are held by index while the walk lasts, so that the last node of each level
//! can be reached without a second reference into the chain; the steps of the walk
//! are those of the `pass` module.
use vstd::prelude::*;
use crate::node::{chain_of, Link, Node};
use crate::pass::{
    detach_first, ends_unhooked, heads_ok, lemma_detached, lemma_ends_unhooked, lemma_promoted,
    promote, relink, unboxed, unhooked, unlink, upper_ok, vacant,
};
use crate::spans::entries_of;

verus! {

/// An optional item seen through a reference, as a predicate receives it.
pub open spec fn opt_ref<T>(item: &Option<T>) -> Option<&T> {
    match item {
        Some(value) => Some(value),
        None => None,
    }
}

/// The item of the last node kept so far: the last of `kept`, or that of the first
/// node of the list where nothing has been kept yet.
pub open spec fn last_item<T>(first: Option<T>, kept: Seq<(T, usize)>) -> Option<T> {
    if kept.len() == 0 {
        first
    } else {
        Some(kept.last().0)
    }
}

/// `after` is what one pass of `pred` over `before` may leave behind.
///
/// The entries are visited in order. Each is shown to `pred` together with the item
/// of the last entry kept before it (`first` where there is none); it stays, with
/// its level, where `pred` may answer `true`, and goes where `pred` may answer
/// `false`.
pub open spec fn retained<T, F: FnMut(Option<&T>, &T) -> bool>(
    pred: F,
    first: Option<T>,
    before: Seq<(T, usize)>,
    after: Seq<(T, usize)>,
) -> bool
    decreases before.len(),
{
    if before.len() == 0 {
        after.len() == 0
    } else {
        let entry = before.last();
        ||| {
            &&& after.len() > 0
            &&& after.last() == entry
            &&& retained(pred, first, before.drop_last(), after.drop_last())
            &&& pred.ensures((opt_ref(&last_item(first, after.drop_last())), &entry.0), true)
        }
        ||| {
            &&& retained(pred, first, before.drop_last(), after)
            &&& pred.ensures((opt_ref(&last_item(first, after)), &entry.0), false)
        }
    }
}

/// `pred` may be called on every pair that a pass over `entries` can show it: an
/// entry together with `first`, or together with any entry before it.
pub open spec fn accepts<T, F: FnMut(Option<&T>, &T) -> bool>(
    pred: F,
    first: Option<T>,
    entries: Seq<(T, usize)>,
) -> bool {
    &&& forall|j: int|
        0 <= j < entries.len() ==> pred.requires((opt_ref(&first), &(#[trigger] entries[j]).0))
    &&& forall|i: int, j: int|
        #![trigger entries[i], entries[j]]
        0 <= i < j < entries.len() ==> pred.requires((Some(&entries[i].0), &entries[j].0))
}

impl<T> Node<T> {
    /// Retains the nodes that satisfy `pred` and returns the number of removed nodes.
    ///
    /// Requires `self` to be the head of the skip list.
    ///
    /// `pred` takes the item of the current node (`None` where the current node is
    /// the head) and the item of the node after it. Where it returns `false`, that
    /// next node is dropped, and the node after the dropped one is shown to `pred`
    /// with the same current node.
    #[must_use]
    pub fn retain<F>(&mut self, mut pred: F) -> (removed: usize) where
        F: FnMut(Option<&T>, &T) -> bool,

        requires
            old(self).prev == Link::Absent,
            old(self).well_formed(),
            accepts(pred, old(self).item, old(self).entries()),
        ensures
            final(self).prev == Link::Absent,
            final(self).well_formed(),
            final(self).item == old(self).item,
            final(self).level == old(self).level,
            retained(pred, old(self).item, old(self).entries(), final(self).entries()),
            removed == old(self).entries().len() - final(self).entries().len(),
    {
        let ghost first = self.item;
        let ghost all = self.entries();
        let ghost origin = self.chain();
        let ghost pred0 = pred;
        let mut whole = vacant();
        core::mem::swap(self, &mut whole);
        let top = whole.level;
        assert(origin[0].shape_ok() && whole.links.len() == whole.links@.len());
        let mut rest = Some(Box::new(whole));
        proof {
            lemma_ends_unhooked(origin);
        }
        let head = detach_first(&mut rest).unwrap();
        let mut kept: Vec<Box<Node<T>>> = Vec::new();
        kept.push(head);
        let mut level_heads: Vec<usize> = vec![0usize; top + 1];
        let mut removed: usize = 0;
        let ghost mut done: int = 0;
        let ghost mut src: int = -1;
        proof {
            lemma_detached(Seq::empty(), origin, *head, chain_of(rest));
            assert(Seq::<Node<T>>::empty() + seq![*head] + chain_of(rest) =~= unboxed(kept@)
                + chain_of(rest));
        }
        loop
            invariant
                pred == pred0,
                top < usize::MAX,
                unboxed(kept@).len() >= 1,
                upper_ok(unboxed(kept@) + chain_of(rest)),
                unboxed(kept@)[0].level == top,
                unboxed(kept@)[0].item == first,
                unboxed(kept@)[0].prev == Link::Absent,
                heads_ok(unboxed(kept@), level_heads@),
                forall|k: int|
                    0 <= k < unboxed(kept@).len() ==> unhooked(#[trigger] unboxed(kept@)[k]),
                ends_unhooked(chain_of(rest)),
                0 <= done <= all.len() <= usize::MAX,
                entries_of(chain_of(rest)) == all.skip(done),
                retained(pred, first, all.take(done), entries_of(unboxed(kept@).skip(1))),
                removed == done - (unboxed(kept@).len() - 1),
                unboxed(kept@).len() > 1 ==> 0 <= src < done && unboxed(kept@).last().item
                    == Some(all[src].0),
                accepts(pred, first, all),
            ensures
                rest is None,
            decreases chain_of(rest).len(),
        {
            let ghost before = chain_of(rest);
            let ghost kept0 = unboxed(kept@);
            assert(before.len() >= 1 ==> (kept0 + before)[kept0.len() as int] == before[0]);
            match detach_first(&mut rest) {
                None => {
                    break ;
                },
                Some(node) => {
                    proof {
                        lemma_detached(kept0, before, *node, chain_of(rest));
                        assert(all.take(done + 1).drop_last() =~= all.take(done));
                    }
                    let last = kept.len() - 1;
                    let keep = pred(kept[last].item.as_ref(), node.item.as_ref().unwrap());
                    if keep {
                        let ghost heads0 = level_heads@;
                        promote(&mut level_heads, node.level, kept.len());
                        kept.push(node);
                        proof {
                            lemma_promoted(kept0, *node, heads0, level_heads@);
                            assert(unboxed(kept@) =~= kept0.push(*node));
                            assert(unboxed(kept@) + chain_of(rest) =~= kept0 + seq![*node]
                                + chain_of(rest));
                            assert(entries_of(unboxed(kept@).skip(1)).drop_last() =~= entries_of(
                                kept0.skip(1),
                            ));
                            src = done;
                        }
                    } else {
                        removed += 1;
                        unlink(&mut kept, &level_heads, &node, Ghost(chain_of(rest)));
                    }
                    proof {
                        done = done + 1;
                    }
                },
            }
        }
        proof {
            assert(all.take(done) =~= all);
        }
        *self = relink(kept);
        removed
    }
}

} // verus!
