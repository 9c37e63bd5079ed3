//! Laws of the node layer, proved from the contracts of its operations.
use vstd::prelude::*;
use crate::node::{Link, Node};
use crate::retain::{last_item, opt_ref, retained};
use crate::spans::level_ok;

verus! {

/// The node reached from `node` by `hops` steps along the owning level-0 link, if
/// the chain is that long.
pub open spec fn hop<T>(node: Node<T>, hops: nat) -> Option<Node<T>>
    decreases hops,
{
    if hops == 0 {
        Some(node)
    } else {
        match node.next {
            None => None,
            Some(next) => hop(*next, (hops - 1) as nat),
        }
    }
}

/// `pred` never has both answers for one pair of items.
pub open spec fn decided<T, F: FnMut(Option<&T>, &T) -> bool>(pred: F) -> bool {
    forall|current: Option<&T>, next: &T|
        !(#[trigger] pred.ensures((current, next), true) && #[trigger] pred.ensures(
            (current, next),
            false,
        ))
}

/// The chain of a node lists the nodes in the order in which hops along the level-0
/// link reach them: hop `k` arrives at entry `k`, and past the end no hop arrives.
pub proof fn lemma_chain_is_hops<T>(node: Node<T>, k: nat)
    ensures
        k < node.chain().len() ==> hop(node, k) == Some(node.chain()[k as int]),
        k >= node.chain().len() ==> hop(node, k) is None,
    decreases k,
{
    if k > 0 {
        match node.next {
            None => {
            },
            Some(next) => {
                lemma_chain_is_hops(*next, (k - 1) as nat);
            },
        }
    }
}

/// Span consistency: in a well-formed list, on every level `l` and for every node
/// that takes part in it and has a link there, `links_len[l]` hops on level 0 lead
/// from the node to the nearest later node that takes part in level `l`, which is the
/// node the link refers to.
pub proof fn lemma_span_consistency<T>(head: Node<T>, i: int, l: int)
    requires
        head.well_formed(),
        0 <= i < head.chain().len(),
        0 <= l <= head.chain()[i].level,
        head.chain()[i].links@[l] == Link::Present,
    ensures
        ({
            let span = head.chain()[i].links_len@[l] as nat;
            &&& span >= 1
            &&& hop(head.chain()[i], span) is Some
            &&& hop(head.chain()[i], span) == hop(head, (i + span) as nat)
            &&& hop(head.chain()[i], span)->0.level >= l
            &&& forall|k: nat| 1 <= k < span ==> (#[trigger] hop(head.chain()[i], k))->0.level < l
        }),
{
    let c = head.chain();
    let span = c[i].links_len@[l] as nat;
    assert(level_ok(c, l));
    lemma_chain_is_hops(head, i as nat);
    lemma_hops_compose(head, i as nat, span);
    lemma_chain_is_hops(head, (i + span) as nat);
    assert forall|k: nat| 1 <= k < span implies (#[trigger] hop(c[i], k))->0.level < l by {
        lemma_hops_compose(head, i as nat, k);
        lemma_chain_is_hops(head, (i + k) as nat);
    }
}

/// Hopping `a` times and then `b` times is hopping `a + b` times.
pub proof fn lemma_hops_compose<T>(node: Node<T>, a: nat, b: nat)
    requires
        hop(node, a) is Some,
    ensures
        hop(hop(node, a)->0, b) == hop(node, a + b),
    decreases a,
{
    if a > 0 {
        lemma_hops_compose(*node.next->0, (a - 1) as nat, b);
    }
}

/// The head invariant: in a well-formed list whose first node has no predecessor,
/// that node is the only one whose back-reference is absent.
pub proof fn lemma_one_head<T>(head: Node<T>, i: int)
    requires
        head.well_formed(),
        head.prev == Link::Absent,
        0 <= i < head.chain().len(),
    ensures
        (head.chain()[i].prev == Link::Absent) <==> i == 0,
{
}

/// Retaining is idempotent: where `pred` is decided, a second pass over what a first
/// pass left behind keeps every entry, so it removes nothing.
pub proof fn lemma_retain_idempotent<T, F: FnMut(Option<&T>, &T) -> bool>(
    pred: F,
    first: Option<T>,
    before: Seq<(T, usize)>,
    after: Seq<(T, usize)>,
    again: Seq<(T, usize)>,
)
    requires
        decided(pred),
        retained(pred, first, before, after),
        retained(pred, first, after, again),
    ensures
        again == after,
    decreases before.len(),
{
    if before.len() == 0 {
    } else {
        let entry = before.last();
        if after.len() > 0 && after.last() == entry && retained(
            pred,
            first,
            before.drop_last(),
            after.drop_last(),
        ) && pred.ensures((opt_ref(&last_item(first, after.drop_last())), &entry.0), true) {
            if again.len() > 0 && again.last() == entry && retained(
                pred,
                first,
                after.drop_last(),
                again.drop_last(),
            ) {
                lemma_retain_idempotent(
                    pred,
                    first,
                    before.drop_last(),
                    after.drop_last(),
                    again.drop_last(),
                );
                assert(after =~= after.drop_last().push(after.last()));
            } else {
                lemma_retain_idempotent(pred, first, before.drop_last(), after.drop_last(), again);
            }
        } else {
            lemma_retain_idempotent(pred, first, before.drop_last(), after, again);
        }
    }
}

/// What a pass leaves of `before` where the answer for each pair of items is
/// `keep(current, next)`.
pub open spec fn kept_by<T>(
    keep: spec_fn(Option<T>, T) -> bool,
    first: Option<T>,
    before: Seq<(T, usize)>,
) -> Seq<(T, usize)>
    decreases before.len(),
{
    if before.len() == 0 {
        before
    } else {
        let sofar = kept_by(keep, first, before.drop_last());
        if keep(last_item(first, sofar), before.last().0) {
            sofar.push(before.last())
        } else {
            sofar
        }
    }
}

/// `pred` answers as `keep` says, whenever it answers.
pub open spec fn answers<T, F: FnMut(Option<&T>, &T) -> bool>(
    pred: F,
    keep: spec_fn(Option<T>, T) -> bool,
) -> bool {
    forall|current: Option<T>, next: T, answer: bool|
        #[trigger] pred.ensures((opt_ref(&current), &next), answer) ==> answer == keep(
            current,
            next,
        )
}

/// Where the answers of `pred` are a function of the two items, so is what a pass
/// leaves behind: it is `kept_by` that function, and nothing else.
pub proof fn lemma_retained_is_kept_by<T, F: FnMut(Option<&T>, &T) -> bool>(
    pred: F,
    keep: spec_fn(Option<T>, T) -> bool,
    first: Option<T>,
    before: Seq<(T, usize)>,
    after: Seq<(T, usize)>,
)
    requires
        answers(pred, keep),
        retained(pred, first, before, after),
    ensures
        after == kept_by(keep, first, before),
    decreases before.len(),
{
    if before.len() == 0 {
    } else {
        let entry = before.last();
        if after.len() > 0 && after.last() == entry && retained(
            pred,
            first,
            before.drop_last(),
            after.drop_last(),
        ) && pred.ensures((opt_ref(&last_item(first, after.drop_last())), &entry.0), true) {
            lemma_retained_is_kept_by(pred, keep, first, before.drop_last(), after.drop_last());
        } else {
            lemma_retained_is_kept_by(pred, keep, first, before.drop_last(), after);
        }
    }
}

} // verus!
