//! The identifier of a message: the actor it belongs to and a number of its own.
use vstd::prelude::*;
use vstd::std_specs::cmp::{PartialEqSpec, PartialEqSpecImpl};
use vstd::string::to_string_from_display_ensures;
use crate::identifiers::ActorId;
use crate::ids::Identifier;
use crate::text::{debug_text, push_text};

verus! {

/// The identifier of a message.
#[derive(Debug)]
pub struct MsgId<A, I> where A: ActorId, I: Identifier {
    /// The actor the message belongs to.
    pub aid: A,
    /// What tells the message from the others of that actor.
    pub mid: I,
}

impl<A, I> MsgId<A, I> where A: ActorId, I: Identifier + Default {
    /// The first message identifier of the actor `aid`: its own part is the default
    /// value of its type.
    pub fn new(aid: A) -> (id: Self)
        ensures
            id.aid == aid,
            I::default.ensures((), id.mid),
    {
        Self { aid, mid: Default::default() }
    }

    pub fn aid(&self) -> (aid: &A)
        ensures
            *aid == self.aid,
    {
        &self.aid
    }

    pub fn mid(&self) -> (mid: &I)
        ensures
            *mid == self.mid,
    {
        &self.mid
    }
}

impl<A, I> MsgId<A, I> where A: ActorId, I: Identifier {
    /// The identifier as a user reads it: `(`, the actor, `:`, the message's own
    /// part, `)`, each as it displays.
    pub fn to_string(&self) -> (text: String) where A: core::fmt::Display, I: core::fmt::Display
        ensures
            exists|aid: String, mid: String|
                {
                    &&& to_string_from_display_ensures::<A>(&self.aid, aid)
                    &&& to_string_from_display_ensures::<I>(&self.mid, mid)
                    &&& text@ == "("@ + aid@ + ":"@ + mid@ + ")"@
                },
    {
        let aid = self.aid.to_string();
        let mid = self.mid.to_string();
        let mut text = "(".to_owned();
        push_text(&mut text, aid.as_str());
        push_text(&mut text, ":");
        push_text(&mut text, mid.as_str());
        push_text(&mut text, ")");
        assert(to_string_from_display_ensures::<A>(&self.aid, aid) && to_string_from_display_ensures::<I>(
            &self.mid,
            mid,
        ) && text@ == "("@ + aid@ + ":"@ + mid@ + ")"@);
        text
    }

    /// The identifier for a reader of logs: `mid=(`, the actor, `:`, the message's
    /// own part, `)`, each in its debug form.
    pub fn to_debug(&self) -> (text: String) where A: core::fmt::Debug, I: core::fmt::Debug
        ensures
            exists|aid: Seq<char>, mid: Seq<char>| text@ == "mid=("@ + aid + ":"@ + mid + ")"@,
    {
        let aid = debug_text(&self.aid);
        let mid = debug_text(&self.mid);
        let mut text = "mid=(".to_owned();
        push_text(&mut text, aid.as_str());
        push_text(&mut text, ":");
        push_text(&mut text, mid.as_str());
        push_text(&mut text, ")");
        assert(text@ == "mid=("@ + aid@ + ":"@ + mid@ + ")"@);
        text
    }
}

impl<A, I> Clone for MsgId<A, I> where A: ActorId + Clone, I: Identifier + Clone {
    fn clone(&self) -> (copy: Self)
        ensures
            cloned(self.aid, copy.aid),
            cloned(self.mid, copy.mid),
    {
        Self { aid: self.aid.clone(), mid: self.mid.clone() }
    }
}

impl<A, I> PartialEq for MsgId<A, I> where A: ActorId + PartialEq, I: Identifier + PartialEq {
    fn eq(&self, other: &Self) -> (equal: bool) {
        self.aid == other.aid && self.mid == other.mid
    }
}

impl<A, I> PartialEqSpecImpl for MsgId<A, I> where A: ActorId + PartialEq, I: Identifier + PartialEq {
    open spec fn obeys_eq_spec() -> bool {
        A::obeys_eq_spec() && I::obeys_eq_spec()
    }

    open spec fn eq_spec(&self, other: &Self) -> bool {
        self.aid.eq_spec(&other.aid) && self.mid.eq_spec(&other.mid)
    }
}

impl<A, I> Eq for MsgId<A, I> where A: ActorId + Eq, I: Identifier + Eq {

}

} // verus!
