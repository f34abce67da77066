//! Protocol logic without I/O.
//!
//! A protocol is written as a synchronous state machine. A driver, which owns
//! the sockets and the clock, feeds it with `handle_*` calls and drains what it
//! produced with `poll_*` calls. This crate holds the contract between the two
//! ([`Protocol`]), the laws that an implementor proves beside it
//! ([`ExactPolls`], [`Deterministic`]), the two adapters that let a protocol
//! be used through a mutable borrow or through a `Box`, the queue model that
//! the contract is stated over ([`fifo`]), and what follows from it for a
//! driver ([`laws`]).

pub mod fifo;
pub mod laws;
pub mod protocol;

pub use protocol::Deterministic;
pub use protocol::ExactPolls;
pub use protocol::Protocol;
