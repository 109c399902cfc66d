//! The read/write request body: `filename NUL mode NUL [key NUL value NUL]*`.

use vstd::prelude::*;
use vstd::slice::{slice_subrange, slice_to_vec};
use vstd::utf8::{
    char_is_scalar, char_u32_cast, decode_utf8, encode_scalar, encode_utf8, encode_utf8_decode_utf8,
    encode_utf8_valid_utf8, valid_utf8,
};

use crate::mode::{mode_from_bytes, mode_wire, Mode};
use crate::options::{
    bytes_nul_free, opts_nul_free, options_wire, pairs_view, parse_options, parse_options_bytes,
    encode_options, lemma_options_round_trip, lemma_parse_options_nul_free, OptPair,
};
use crate::wire::{find_first_nul, lemma_nul_pos, lemma_nul_pos_of, nul_pos, push_bytes};
use crate::DecodeError;

verus! {

/// A request body as transported: a filename, a transfer mode and the
/// negotiable options the peer asked for.
#[derive(Clone, Debug, PartialEq, Eq)]
pub struct Rq {
    pub filename: String,
    pub mode: Mode,
    pub options: Vec<OptPair>,
}

/// The mathematical content of a request.
pub struct RqView {
    pub filename: Seq<char>,
    pub mode: Mode,
    pub options: Seq<(Seq<u8>, Seq<u8>)>,
}

impl View for Rq {
    type V = RqView;

    open spec fn view(&self) -> RqView {
        RqView { filename: self.filename@, mode: self.mode, options: pairs_view(self.options@) }
    }
}

/// Text free of the NUL character, so it can be NUL-terminated on the wire.
pub open spec fn chars_nul_free(s: Seq<char>) -> bool {
    forall|i: int| 0 <= i < s.len() ==> s[i] != '\0'
}

/// A request that can be framed: the filename is non-empty and neither it
/// nor any option key or value embeds a NUL.
pub open spec fn rq_wf(r: RqView) -> bool {
    &&& r.filename.len() > 0
    &&& chars_nul_free(r.filename)
    &&& opts_nul_free(r.options)
}

/// The wire form of a request body.
pub open spec fn rq_wire(r: RqView) -> Seq<u8> {
    encode_utf8(r.filename) + seq![0u8] + mode_wire(r.mode) + seq![0u8] + options_wire(r.options)
}

/// Parse the wire form of a request body. `None` when a terminator is
/// missing, the filename is empty or not UTF-8, or the mode is unknown.
pub open spec fn parse_rq(b: Seq<u8>) -> Option<RqView> {
    let i = nul_pos(b);
    if !(0 < i < b.len()) {
        None
    } else if !valid_utf8(b.take(i)) {
        None
    } else {
        let rest = b.skip(i + 1);
        let j = nul_pos(rest);
        if !(0 <= j < rest.len()) {
            None
        } else {
            match mode_from_bytes(rest.take(j)) {
                None => None,
                Some(m) => match parse_options(rest.skip(j + 1)) {
                    None => None,
                    Some(opts) => Some(
                        RqView { filename: decode_utf8(b.take(i)), mode: m, options: opts },
                    ),
                },
            }
        }
    }
}

/// The encoding of one scalar contains a NUL byte exactly when the scalar
/// is zero, and it is never empty.
proof fn lemma_encode_scalar_nul(s: u32)
    requires
        vstd::utf8::is_scalar(s),
    ensures
        s != 0 ==> bytes_nul_free(encode_scalar(s)),
        s == 0 ==> encode_scalar(s)[0] == 0,
        encode_scalar(s).len() >= 1,
{
    if vstd::utf8::has_width_1_encoding(s) {
        assert(((s & 0x7F) as u8) == s as u8 && (s as u8 == 0 <==> s == 0)) by (bit_vector)
            requires
                s <= 0x7F,
        ;
    } else if vstd::utf8::has_width_2_encoding(s) {
        let x = ((s >> 6) & 0x1F) as u8;
        let y = (s & 0x3F) as u8;
        assert((0xC0u8 | x) != 0 && (0x80u8 | y) != 0) by (bit_vector);
    } else if vstd::utf8::has_width_3_encoding(s) {
        let x = ((s >> 12) & 0x0F) as u8;
        let y = ((s >> 6) & 0x3F) as u8;
        let z = (s & 0x3F) as u8;
        assert((0xE0u8 | x) != 0 && (0x80u8 | y) != 0 && (0x80u8 | z) != 0) by (bit_vector);
    } else {
        let x = ((s >> 18) & 0x7) as u8;
        let y = ((s >> 12) & 0x3F) as u8;
        let z = ((s >> 6) & 0x3F) as u8;
        let w = (s & 0x3F) as u8;
        assert((0xF0u8 | x) != 0 && (0x80u8 | y) != 0 && (0x80u8 | z) != 0 && (0x80u8 | w) != 0)
            by (bit_vector);
    }
}

/// The UTF-8 encoding of a text contains a NUL byte exactly when the text
/// contains the NUL character.
pub proof fn lemma_encode_utf8_nul_free(chars: Seq<char>)
    ensures
        chars_nul_free(chars) <==> bytes_nul_free(encode_utf8(chars)),
    decreases chars.len(),
{
    if chars.len() == 0 {
    } else {
        let c = chars[0];
        let s = c as u32;
        char_is_scalar(c);
        char_u32_cast(c, s);
        let e = encode_scalar(s);
        let tail = chars.drop_first();
        let rest = encode_utf8(tail);
        assert(encode_utf8(chars) == e + rest);
        lemma_encode_utf8_nul_free(tail);
        lemma_encode_scalar_nul(s);
        assert(c == '\0' <==> s == 0) by {
            if s == 0 {
                assert((0u32 as char) == c);
                assert(('\0' as u32) == 0u32);
                char_u32_cast('\0', 0u32);
            }
        }
        if chars_nul_free(chars) {
            assert(chars_nul_free(tail)) by {
                assert(forall|i: int| 0 <= i < tail.len() ==> tail[i] == chars[i + 1]);
            }
            assert forall|k: int| 0 <= k < encode_utf8(chars).len() implies encode_utf8(
                chars,
            )[k] != 0 by {
                if k < e.len() {
                    assert(encode_utf8(chars)[k] == e[k]);
                } else {
                    assert(encode_utf8(chars)[k] == rest[k - e.len()]);
                }
            }
        }
        if bytes_nul_free(encode_utf8(chars)) {
            assert(bytes_nul_free(rest)) by {
                assert(forall|k: int|
                    0 <= k < rest.len() ==> rest[k] == encode_utf8(chars)[k + e.len()]);
            }
            assert(e[0] == encode_utf8(chars)[0]);
            assert(c != '\0');
            assert forall|i: int| 0 <= i < chars.len() implies chars[i] != '\0' by {
                if i > 0 {
                    assert(chars[i] == tail[i - 1]);
                }
            }
        }
    }
}

/// Relies on `String::from_utf8`: it succeeds exactly on valid UTF-8 input,
/// and the returned string is the one whose UTF-8 encoding is that input.
#[verifier::external_body]
pub(crate) fn bytes_to_string(v: Vec<u8>) -> (r: Option<String>)
    ensures
        r is Some <==> valid_utf8(v@),
        r matches Some(s) ==> encode_utf8(s@) == v@,
{
    String::from_utf8(v).ok()
}

impl Rq {
    /// Decode a request body from the bytes that follow the opcode.
    pub fn from_bytes(bytes: &[u8]) -> (r: Result<Rq, DecodeError>)
        ensures
            r matches Ok(rq) ==> parse_rq(bytes@) == Some(rq@) && rq_wf(rq@),
            r is Ok <==> parse_rq(bytes@) is Some,
            r is Err ==> r == Err::<Rq, DecodeError>(DecodeError::InvalidInput),
    {
        proof {
            lemma_nul_pos(bytes@);
        }
        let i = match find_first_nul(bytes) {
            Some(i) => i,
            None => {
                return Err(DecodeError::InvalidInput);
            },
        };
        if i == 0 {
            return Err(DecodeError::InvalidInput);
        }
        let fname_bytes = slice_to_vec(slice_subrange(bytes, 0, i));
        proof {
            assert(fname_bytes@ =~= bytes@.take(i as int));
        }
        let filename = match bytes_to_string(fname_bytes) {
            Some(s) => s,
            None => {
                return Err(DecodeError::InvalidInput);
            },
        };
        let blen = bytes.len();
        let rest = slice_subrange(bytes, i + 1, blen);
        proof {
            assert(rest@ =~= bytes@.skip(i + 1));
        }
        let j = match find_first_nul(rest) {
            Some(j) => j,
            None => {
                return Err(DecodeError::InvalidInput);
            },
        };
        let mode = match Mode::from_wire_bytes(slice_subrange(rest, 0, j)) {
            Ok(m) => m,
            Err(_) => {
                proof {
                    assert(rest@.subrange(0, j as int) =~= rest@.take(j as int));
                }
                return Err(DecodeError::InvalidInput);
            },
        };
        let options = match parse_options_bytes(slice_subrange(rest, j + 1, rest.len())) {
            Ok(o) => o,
            Err(_) => {
                proof {
                    assert(rest@.subrange(0, j as int) =~= rest@.take(j as int));
                    assert(rest@.subrange(j + 1, rest@.len() as int) =~= rest@.skip(j + 1));
                }
                return Err(DecodeError::InvalidInput);
            },
        };
        let rq = Rq { filename, mode, options };
        proof {
            assert(rest@.subrange(0, j as int) =~= rest@.take(j as int));
            assert(rest@.subrange(j + 1, rest@.len() as int) =~= rest@.skip(j + 1));
            encode_utf8_decode_utf8(rq.filename@);
            assert(rq.filename@ == decode_utf8(bytes@.take(i as int)));
            assert(parse_rq(bytes@) == Some(rq@));
            // Well-formedness of the parsed request.
            assert(bytes_nul_free(encode_utf8(rq.filename@))) by {
                assert(forall|k: int|
                    0 <= k < i ==> bytes@.take(i as int)[k] == bytes@[k] && bytes@[k] != 0);
            }
            lemma_encode_utf8_nul_free(rq.filename@);
            assert(rq.filename@.len() > 0) by {
                if rq.filename@.len() == 0 {
                    assert(encode_utf8(rq.filename@).len() == 0);
                }
            }
            lemma_parse_options_nul_free(rest@.skip(j + 1));
        }
        Ok(rq)
    }

    /// Encode this request body onto the wire.
    pub fn into_bytes(self) -> (r: Vec<u8>)
        ensures
            r@ == rq_wire(self@),
    {
        let mut out: Vec<u8> = Vec::new();
        push_bytes(&mut out, self.filename.as_str().as_bytes());
        out.push(0);
        let mw = self.mode.wire_name();
        push_bytes(&mut out, mw.as_slice());
        out.push(0);
        let ob = encode_options(&self.options);
        push_bytes(&mut out, ob.as_slice());
        proof {
            assert(out@ =~= rq_wire(self@));
        }
        out
    }
}

/// Law: a well-formed request parses back from its wire form unchanged.
pub proof fn lemma_rq_round_trip(r: RqView)
    requires
        rq_wf(r),
    ensures
        parse_rq(rq_wire(r)) == Some(r),
{
    let f = encode_utf8(r.filename);
    encode_utf8_valid_utf8(r.filename);
    encode_utf8_decode_utf8(r.filename);
    lemma_encode_utf8_nul_free(r.filename);
    let b = rq_wire(r);
    assert(f.len() > 0) by {
        char_is_scalar(r.filename[0]);
        lemma_encode_scalar_nul(r.filename[0] as u32);
        assert(f == encode_scalar(r.filename[0] as u32) + encode_utf8(r.filename.drop_first()));
    }
    assert(b[f.len() as int] == 0);
    assert forall|k: int| 0 <= k < f.len() implies b[k] != 0 by {
        assert(b[k] == f[k]);
    }
    lemma_nul_pos_of(b, f.len() as int);
    assert(b.take(f.len() as int) =~= f);
    let rest = b.skip(f.len() as int + 1);
    assert(rest =~= mode_wire(r.mode) + seq![0u8] + options_wire(r.options));
    let mlen = mode_wire(r.mode).len() as int;
    assert(bytes_nul_free(mode_wire(r.mode))) by {
        match r.mode {
            Mode::NetAscii => assert(bytes_nul_free(mode_wire(Mode::NetAscii))),
            Mode::Octet => assert(bytes_nul_free(mode_wire(Mode::Octet))),
            Mode::Mail => assert(bytes_nul_free(mode_wire(Mode::Mail))),
        }
    }
    assert(rest[mlen] == 0);
    assert forall|k: int| 0 <= k < mlen implies rest[k] != 0 by {
        assert(rest[k] == mode_wire(r.mode)[k]);
    }
    lemma_nul_pos_of(rest, mlen);
    assert(rest.take(mlen) =~= mode_wire(r.mode));
    crate::mode::lemma_mode_round_trip(r.mode);
    assert(rest.skip(mlen + 1) =~= options_wire(r.options));
    lemma_options_round_trip(r.options);
}

} // verus!
