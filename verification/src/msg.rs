//! A message between two actors.
use vstd::prelude::*;
use vstd::std_specs::convert::IntoSpec;
use crate::from_id::FromId;
use crate::identifiers::ActorId;
use crate::to_id::ToId;

verus! {

/// A message, known by the actor it comes from and the actor it goes to.
#[derive(Debug)]
pub struct Message<A> where A: ActorId + core::fmt::Debug {
    fid: FromId<A>,
    tid: ToId<A>,
}

impl<A> Message<A> where A: ActorId + core::fmt::Debug {
    /// The sender of the message.
    pub closed spec fn sender(self) -> FromId<A> {
        self.fid
    }

    /// The receiver of the message.
    pub closed spec fn receiver(self) -> ToId<A> {
        self.tid
    }

    /// A message from `f` to `t`, each given as anything that converts into the
    /// identifier in question.
    pub fn new<F, T>(f: F, t: T) -> (msg: Self) where F: Into<FromId<A>>, T: Into<ToId<A>>
        ensures
            F::obeys_into_spec() ==> msg.sender() == f.into_spec(),
            T::obeys_into_spec() ==> msg.receiver() == t.into_spec(),
    {
        Self { fid: f.into(), tid: t.into() }
    }

    pub fn fid(&self) -> (fid: &FromId<A>)
        ensures
            *fid == self.sender(),
    {
        &self.fid
    }

    pub fn tid(&self) -> (tid: &ToId<A>)
        ensures
            *tid == self.receiver(),
    {
        &self.tid
    }
}

} // verus!
