//! A line-framed chat relay: the handshake that lets a connection in, the
//! message frame, and the queue-and-fan-out core that delivers every accepted
//! record to every subscriber, with the history that a client keeps of what it
//! was sent. All of it is free of I/O, so a server drives it from whatever
//! sockets and tasks it likes.

use vstd::prelude::*;

pub mod broadcast;
pub mod handshake;
pub mod headers;
pub mod history;
pub mod inspect;
pub mod json;
pub mod message;
pub mod queue;
pub mod relay;
pub mod text;
pub mod transform;

pub use crate::message::Message;

verus! {

/// Runs `f` and hands back what it returned. With `?` inside the closure this
/// gives early exit from a block of fallible steps.
pub fn try_do<R>(f: impl FnOnce() -> R) -> (r: R)
    requires
        call_requires(f, ()),
    ensures
        call_ensures(f, (), r),
{
    f()
}

} // verus!
