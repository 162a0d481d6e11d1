//! A TFTP client and server library with machine-checked contracts.
//!
//! The wire format, the option negotiation and both ends of a transfer are
//! pure functions and state machines.  Sockets, files and clocks stay with
//! the program that drives them.
pub mod addr;
pub mod buffer;
pub mod cli;
pub mod client;
pub mod delivery;
pub mod error;
pub mod exchange;
pub mod incoming;
pub mod netascii;
pub mod outgoing;
pub mod path_safe;
pub mod proto;
pub mod sender;
pub mod server;
pub mod session;

pub use error::Error;
