//! The TFTP transfer mode and its case-insensitive textual wire form.

use vstd::prelude::*;
use vstd::string::StringSliceAdditionalSpecFns;

use crate::DecodeError;

verus! {

/// The three transfer modes of RFC 1350. `Mail` is parsed for compatibility
/// only; this engine never initiates a mail transfer.
#[derive(Clone, Copy, Debug, PartialEq, Eq, Structural)]
pub enum Mode {
    NetAscii,
    Octet,
    Mail,
}

/// ASCII lower-casing of one byte.
pub open spec fn lower_byte(b: u8) -> u8 {
    if 65 <= b <= 90 {
        (b + 32) as u8
    } else {
        b
    }
}

/// ASCII lower-casing of a byte string.
pub open spec fn lower_bytes(s: Seq<u8>) -> Seq<u8> {
    s.map_values(|b: u8| lower_byte(b))
}

/// The canonical (lower-case) wire spelling of a mode.
pub open spec fn mode_wire(m: Mode) -> Seq<u8> {
    match m {
        Mode::NetAscii => seq![110u8, 101u8, 116u8, 97u8, 115u8, 99u8, 105u8, 105u8],
        Mode::Octet => seq![111u8, 99u8, 116u8, 101u8, 116u8],
        Mode::Mail => seq![109u8, 97u8, 105u8, 108u8],
    }
}

/// The mode a byte string names, compared case-insensitively; unknown text
/// names no mode.
pub open spec fn mode_from_bytes(b: Seq<u8>) -> Option<Mode> {
    if lower_bytes(b) == mode_wire(Mode::NetAscii) {
        Some(Mode::NetAscii)
    } else if lower_bytes(b) == mode_wire(Mode::Octet) {
        Some(Mode::Octet)
    } else if lower_bytes(b) == mode_wire(Mode::Mail) {
        Some(Mode::Mail)
    } else {
        None
    }
}

/// The character form of the canonical mode name.
pub open spec fn mode_text(m: Mode) -> Seq<char> {
    match m {
        Mode::NetAscii => "netascii"@,
        Mode::Octet => "octet"@,
        Mode::Mail => "mail"@,
    }
}

/// Byte-string equality.
pub(crate) fn bytes_eq(a: &[u8], b: &[u8]) -> (r: bool)
    ensures
        r <==> a@ == b@,
{
    if a.len() != b.len() {
        return false;
    }
    let mut i: usize = 0;
    while i < a.len()
        invariant
            i <= a@.len(),
            a@.len() == b@.len(),
            forall|j: int| 0 <= j < i ==> a@[j] == b@[j],
        decreases a@.len() - i,
    {
        if a[i] != b[i] {
            return false;
        }
        i += 1;
    }
    proof {
        assert(a@ =~= b@);
    }
    true
}

/// ASCII lower-casing of a byte slice.
pub(crate) fn to_lower(b: &[u8]) -> (r: Vec<u8>)
    ensures
        r@ == lower_bytes(b@),
{
    let mut out: Vec<u8> = Vec::new();
    let mut i: usize = 0;
    while i < b.len()
        invariant
            i <= b@.len(),
            out@.len() == i,
            forall|j: int| 0 <= j < i ==> out@[j] == lower_byte(b@[j]),
        decreases b@.len() - i,
    {
        let x = b[i];
        if 65 <= x && x <= 90 {
            out.push(x + 32);
        } else {
            out.push(x);
        }
        i += 1;
    }
    proof {
        assert(out@ =~= lower_bytes(b@));
    }
    out
}

impl Mode {
    /// Decode the mode from its wire bytes, case-insensitively.
    pub fn from_wire_bytes(b: &[u8]) -> (r: Result<Mode, DecodeError>)
        ensures
            r matches Ok(m) ==> mode_from_bytes(b@) == Some(m),
            r is Ok <==> mode_from_bytes(b@) is Some,
            r is Err ==> r == Err::<Mode, DecodeError>(DecodeError::InvalidInput),
    {
        let low = to_lower(b);
        let netascii: Vec<u8> = Mode::NetAscii.wire_name();
        let octet: Vec<u8> = Mode::Octet.wire_name();
        let mail: Vec<u8> = Mode::Mail.wire_name();
        if bytes_eq(low.as_slice(), netascii.as_slice()) {
            Ok(Mode::NetAscii)
        } else if bytes_eq(low.as_slice(), octet.as_slice()) {
            Ok(Mode::Octet)
        } else if bytes_eq(low.as_slice(), mail.as_slice()) {
            Ok(Mode::Mail)
        } else {
            Err(DecodeError::InvalidInput)
        }
    }

    /// Parse a mode name given as text, case-insensitively.
    pub fn from_name(s: &str) -> (r: Result<Mode, DecodeError>)
        ensures
            r matches Ok(m) ==> mode_from_bytes(s.spec_bytes()) == Some(m),
            r is Ok <==> mode_from_bytes(s.spec_bytes()) is Some,
            r is Err ==> r == Err::<Mode, DecodeError>(DecodeError::InvalidInput),
    {
        Mode::from_wire_bytes(s.as_bytes())
    }

    /// The canonical wire spelling of this mode.
    pub fn wire_name(self) -> (r: Vec<u8>)
        ensures
            r@ == mode_wire(self),
    {
        let mut out: Vec<u8> = Vec::new();
        match self {
            Mode::NetAscii => {
                out.push(110);
                out.push(101);
                out.push(116);
                out.push(97);
                out.push(115);
                out.push(99);
                out.push(105);
                out.push(105);
            },
            Mode::Octet => {
                out.push(111);
                out.push(99);
                out.push(116);
                out.push(101);
                out.push(116);
            },
            Mode::Mail => {
                out.push(109);
                out.push(97);
                out.push(105);
                out.push(108);
            },
        }
        proof {
            assert(out@ =~= mode_wire(self));
        }
        out
    }

    /// The canonical mode name as text.
    pub fn name(self) -> (r: String)
        ensures
            r@ == mode_text(self),
    {
        match self {
            Mode::NetAscii => "netascii".to_owned(),
            Mode::Octet => "octet".to_owned(),
            Mode::Mail => "mail".to_owned(),
        }
    }
}

/// Law: mode parsing sees only the lower-cased text, so any two spellings
/// that agree up to ASCII case parse alike.
pub proof fn lemma_mode_case_insensitive(b1: Seq<u8>, b2: Seq<u8>)
    requires
        lower_bytes(b1) == lower_bytes(b2),
    ensures
        mode_from_bytes(b1) == mode_from_bytes(b2),
{
}

/// Law: the canonical spelling of every mode parses back to that mode.
pub proof fn lemma_mode_round_trip(m: Mode)
    ensures
        mode_from_bytes(mode_wire(m)) == Some(m),
{
    assert(lower_bytes(mode_wire(m)) =~= mode_wire(m));
    assert(mode_wire(Mode::NetAscii).len() == 8);
    assert(mode_wire(Mode::Octet).len() == 5);
    assert(mode_wire(Mode::Mail).len() == 4);
}

} // verus!
