//! Identifiers of the actors that send and receive a message, and of messages.
use vstd::prelude::*;
use crate::ids::Identifier;

verus! {

/// An identifier that names an actor.
pub trait ActorId: Identifier {

}

impl<T: Identifier> ActorId for T {

}

} // verus!
