//! The event-record layout and the interest-mask flags shared with the
//! kernel's interest list.
//!
//! A registration submits a 32-bit interest bitmask together with an opaque
//! machine-word token; a readiness notification echoes both back. The kernel
//! never interprets the token, so it is the caller's way of correlating a
//! notification with the socket it registered.

use vstd::prelude::*;

verus! {

/// Interest flag: the descriptor is readable.
pub const EPOLLIN: u32 = 0x1;

/// Interest flag: report only transitions into readiness (edge-triggered),
/// not the level state. A consumer must then drain the descriptor until it
/// would block, or data already delivered is never reported again.
pub const EPOLLET: u32 = 0x80000000;

/// One readiness record: the interest/readiness bitmask observed and the
/// token supplied at registration time.
///
/// The surrounding program keeps a byte-compatible copy of this record for
/// the kernel calls; here it is plain data that the contracts can speak of.
#[derive(Clone, Copy, Debug, PartialEq, Eq, Structural)]
pub struct Event {
    pub events: u32,
    pub epoll_data: usize,
}

impl Event {
    /// The token this notification correlates with: the value the caller
    /// chose when it registered the descriptor.
    pub fn token(&self) -> (t: usize)
        ensures
            t == self.epoll_data,
    {
        self.epoll_data
    }
}

} // verus!
