//! Identifiers: data that names an entity.
use vstd::prelude::*;

verus! {

/// Data which can be used as an identifier. Given two identifiers we only need to
/// tell whether they are equal, that is, whether they name the same entity.
pub trait Identifier: Eq {

}

impl<T> Identifier for T where T: Eq {

}

/// Identifiers which, besides being told apart, may be compared.
pub trait PartialOrdIdentifier: Identifier + PartialOrd {

}

impl<T> PartialOrdIdentifier for T where T: Eq + PartialOrd {

}

/// An endless sequence of identifiers: it starts with a given identifier, and each
/// further one is computed from the one before it by a given function.
pub struct IdentifierIterator<F, I> {
    current_id: I,
    get_next_id: F,
}

impl<F, I> IdentifierIterator<F, I> {
    /// The identifier that the next call of `next` hands out a clone of.
    pub closed spec fn current(self) -> I {
        self.current_id
    }

    /// The function that computes each identifier from the one before it.
    pub closed spec fn step(self) -> F {
        self.get_next_id
    }
}

impl<F, I> IdentifierIterator<F, I> where F: Fn(I) -> I, I: Clone {
    /// Hands out the current identifier and moves on to the one that follows it.
    pub fn next(&mut self) -> (id: Option<I>)
        requires
            forall|c: I| #[trigger] cloned(old(self).current(), c) ==> old(self).step().requires((c,)),
        ensures
            id is Some,
            cloned(old(self).current(), id->0),
            exists|c: I|
                #[trigger] cloned(old(self).current(), c) && old(self).step().ensures(
                    (c,),
                    final(self).current(),
                ),
            final(self).step() == old(self).step(),
    {
        let nxt = self.current_id.clone();
        let seed = self.current_id.clone();
        assert(cloned(old(self).current(), seed));
        self.current_id = (self.get_next_id)(seed);
        Some(nxt)
    }
}

/// Turns an identifier into the sequence of identifiers that starts with it.
pub trait IntoIdentifierIterator {
    type Item: Identifier;

    /// The sequence that starts with `self` and goes on by `next`.
    fn into_ids_iterator<F>(self, next: F) -> (ids: IdentifierIterator<F, Self::Item>) where
        F: Fn(Self::Item) -> Self::Item,

        ensures
            ids.step() == next,
    ;
}

impl<T> IntoIdentifierIterator for T where T: Clone + Identifier {
    type Item = Self;

    fn into_ids_iterator<F>(self, next: F) -> (ids: IdentifierIterator<F, Self::Item>) where
        F: Fn(Self::Item) -> Self::Item,

        ensures
            ids.current() == self,
    {
        IdentifierIterator { current_id: self, get_next_id: next }
    }
}

} // verus!
