//! A verified TFTP (RFC 1350 with the option extensions of RFC 2347/2348/2349)
//! packet codec, option negotiator, netascii transcoder and per-transfer
//! state machine.
//!
//! The library is pure: it maps bytes to packets and back, and drives one
//! lock-step transfer as a state machine from events to actions. Sockets,
//! files and timers live with the caller.

use vstd::prelude::*;

pub mod engine;
pub mod error_code;
pub mod mode;
pub mod negotiate;
pub mod netascii;
pub mod opcode;
pub mod options;
pub mod packet;
pub mod rq;
pub mod wire;
pub mod wrq;

verus! {

/// Error returned when raw bytes do not form a valid packet or field.
/// Malformed datagrams are never answered on the wire; the caller drops them.
#[derive(Clone, Copy, Debug, PartialEq, Eq, Structural)]
pub enum DecodeError {
    InvalidInput,
}

} // verus!
