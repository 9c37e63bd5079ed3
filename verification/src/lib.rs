//! A leveled, span-counting skip list node layer, together with a few small
//! identifier and buffer types.
//!
//! The centre of the crate is [`node::Node`]: one node of a skip list that owns its
//! level-0 successor and records, per level, whether a successor exists on that level
//! and how many level-0 hops away it stands. [`spans`] says when a chain of such nodes
//! is well formed, [`retain`] removes nodes in bulk while keeping it so, and [`laws`]
//! states what follows for every list and every predicate.
pub mod cow;
pub mod from_id;
pub mod identifiers;
pub mod ids;
pub mod laws;
pub mod msg;
pub mod msg_id;
pub mod node;
pub mod retain;
pub mod spans;
pub mod to_id;
mod pass;
mod text;
