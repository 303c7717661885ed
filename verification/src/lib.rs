//! A verified model of a readiness-based I/O multiplexing core.
//!
//! The library mirrors a thin wrapper over a Linux-style polling facility:
//! an interest registry that owns the kernel handle, a poller that classifies
//! the outcome of a blocking wait, and a single-threaded control loop that
//! drains edge-triggered sockets until every peer has closed. The kernel
//! calls themselves are performed by the surrounding program; this crate
//! holds the record layouts, the state, and every decision, each with a
//! proved contract.

pub mod control;
pub mod event;
pub mod http;
pub mod poll;

pub use control::EventLoop;
pub use event::Event;
pub use poll::Poll;
pub use poll::PollError;
pub use poll::Registry;
