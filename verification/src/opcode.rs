//! The TFTP opcode: the first two big-endian bytes of every packet.

use vstd::prelude::*;

use crate::DecodeError;

verus! {

/// The five opcodes of RFC 1350. The option-acknowledgement packet of
/// RFC 2347 uses the reserved wire value 6, which is not a member of this
/// closed enumeration; the packet codec handles it separately.
#[derive(Clone, Copy, Debug, PartialEq, Eq, Structural)]
pub enum Opcode {
    Rrq,
    Wrq,
    Data,
    Ack,
    Error,
}

/// The 16-bit wire value of an opcode.
pub open spec fn opcode_value(op: Opcode) -> u16 {
    match op {
        Opcode::Rrq => 1,
        Opcode::Wrq => 2,
        Opcode::Data => 3,
        Opcode::Ack => 4,
        Opcode::Error => 5,
    }
}

/// The opcode a 16-bit wire value stands for, if any.
pub open spec fn opcode_of(v: u16) -> Option<Opcode> {
    if v == 1 {
        Some(Opcode::Rrq)
    } else if v == 2 {
        Some(Opcode::Wrq)
    } else if v == 3 {
        Some(Opcode::Data)
    } else if v == 4 {
        Some(Opcode::Ack)
    } else if v == 5 {
        Some(Opcode::Error)
    } else {
        None
    }
}

impl Opcode {
    /// The wire value of this opcode.
    pub fn to_u16(self) -> (r: u16)
        ensures
            r == opcode_value(self),
    {
        match self {
            Opcode::Rrq => 1,
            Opcode::Wrq => 2,
            Opcode::Data => 3,
            Opcode::Ack => 4,
            Opcode::Error => 5,
        }
    }

    /// Decode a 16-bit wire value; every value outside 1..=5 is invalid.
    pub fn from_u16(v: u16) -> (r: Result<Opcode, DecodeError>)
        ensures
            r matches Ok(op) ==> opcode_of(v) == Some(op),
            r is Ok <==> opcode_of(v) is Some,
            r is Err ==> r == Err::<Opcode, DecodeError>(DecodeError::InvalidInput),
    {
        if v == 1 {
            Ok(Opcode::Rrq)
        } else if v == 2 {
            Ok(Opcode::Wrq)
        } else if v == 3 {
            Ok(Opcode::Data)
        } else if v == 4 {
            Ok(Opcode::Ack)
        } else if v == 5 {
            Ok(Opcode::Error)
        } else {
            Err(DecodeError::InvalidInput)
        }
    }
}

/// Law: encoding an opcode and decoding the value gives the opcode back.
pub proof fn lemma_opcode_round_trip(op: Opcode)
    ensures
        opcode_of(opcode_value(op)) == Some(op),
{
}

/// Law: a 16-bit value decodes to an opcode exactly when it lies in 1..=5.
pub proof fn lemma_opcode_valid_range(v: u16)
    ensures
        opcode_of(v) is Some <==> 1 <= v <= 5,
{
}

} // verus!
