//! The identifier of the receiver of a message.
use vstd::prelude::*;
use vstd::std_specs::cmp::{PartialEqSpec, PartialEqSpecImpl};
use vstd::std_specs::convert::FromSpecImpl;
use vstd::string::to_string_from_display_ensures;
use crate::identifiers::ActorId;
use crate::text::{debug_text, push_text};
use crate::from_id::FromId;

verus! {

/// The identifier of the actor a message goes to.
#[derive(Debug)]
pub struct ToId<A: ActorId>(pub A);

impl<A> ToId<A> where A: ActorId {
    pub fn new(aid: A) -> (id: Self)
        ensures
            id.0 == aid,
    {
        Self(aid)
    }

    /// The identifier as its actor identifier displays.
    pub fn to_string(&self) -> (text: String) where A: core::fmt::Display
        ensures
            to_string_from_display_ensures::<A>(&self.0, text),
    {
        self.0.to_string()
    }

    /// The identifier for a reader of logs: the debug form of the actor identifier
    /// between `tid=[` and `]`.
    pub fn to_debug(&self) -> (text: String) where A: core::fmt::Debug
        ensures
            exists|inner: Seq<char>| text@ == "tid=["@ + inner + "]"@,
    {
        let inner = debug_text(&self.0);
        let mut text = "tid=[".to_owned();
        push_text(&mut text, inner.as_str());
        push_text(&mut text, "]");
        assert(text@ == "tid=["@ + inner@ + "]"@);
        text
    }
}

impl<A> Clone for ToId<A> where A: ActorId + Clone {
    fn clone(&self) -> (copy: Self)
        ensures
            cloned(self.0, copy.0),
    {
        Self(self.0.clone())
    }
}

impl<A> Default for ToId<A> where A: ActorId + Default {
    fn default() -> (id: Self)
        ensures
            A::default.ensures((), id.0),
    {
        Self(Default::default())
    }
}

impl<A> PartialEq for ToId<A> where A: ActorId + PartialEq {
    fn eq(&self, other: &Self) -> (equal: bool) {
        self.0 == other.0
    }
}

impl<A> PartialEqSpecImpl for ToId<A> where A: ActorId + PartialEq {
    open spec fn obeys_eq_spec() -> bool {
        A::obeys_eq_spec()
    }

    open spec fn eq_spec(&self, other: &Self) -> bool {
        self.0.eq_spec(&other.0)
    }
}

impl<A> Eq for ToId<A> where A: ActorId + Eq {

}

impl<A> AsRef<A> for ToId<A> where A: ActorId {
    fn as_ref(&self) -> (aid: &A)
        ensures
            *aid == self.0,
    {
        &self.0
    }
}

impl<A> From<A> for ToId<A> where A: ActorId {
    fn from(aid: A) -> (id: Self) {
        Self(aid)
    }
}

impl<A> FromSpecImpl<A> for ToId<A> where A: ActorId {
    open spec fn obeys_from_spec() -> bool {
        true
    }

    open spec fn from_spec(aid: A) -> Self {
        ToId(aid)
    }
}

impl<A> From<FromId<A>> for ToId<A> where A: ActorId {
    fn from(fid: FromId<A>) -> (id: Self) {
        Self(fid.0)
    }
}

impl<A> FromSpecImpl<FromId<A>> for ToId<A> where A: ActorId {
    open spec fn obeys_from_spec() -> bool {
        true
    }

    open spec fn from_spec(fid: FromId<A>) -> Self {
        ToId(fid.0)
    }
}

} // verus!
