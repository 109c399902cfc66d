//! The five TFTP packet kinds plus the option acknowledgement, and the
//! codec between packets and raw datagram payloads.

use vstd::prelude::*;
use vstd::slice::{slice_subrange, slice_to_vec};
use vstd::utf8::{
    decode_utf8, encode_utf8, encode_utf8_decode_utf8, encode_utf8_valid_utf8, valid_utf8,
};

use crate::error_code::{error_code_of, error_code_value, ErrorCode};
use crate::options::{
    bytes_nul_free, encode_options, lemma_options_round_trip, lemma_parse_options_nul_free,
    options_wire, opts_nul_free, pairs_view, parse_options, parse_options_bytes, OptPair,
};
use crate::rq::{
    bytes_to_string, chars_nul_free, lemma_encode_utf8_nul_free, lemma_rq_round_trip, parse_rq,
    rq_wf, rq_wire, Rq, RqView,
};
use crate::wire::{
    be16, be16_hi, be16_lo, find_first_nul, lemma_nul_pos, lemma_nul_pos_of, nul_pos, push_bytes,
    read_be16, write_be16,
};
use crate::DecodeError;

verus! {

/// One block of file data: `opcode(2)=3 block(2) payload`.
#[derive(Clone, Debug, PartialEq, Eq)]
pub struct Data {
    pub block: u16,
    pub payload: Vec<u8>,
}

/// An acknowledgement: `opcode(2)=4 block(2)`. Block 0 acknowledges a
/// request or an option acknowledgement.
#[derive(Clone, Copy, Debug, PartialEq, Eq, Structural)]
pub struct Ack {
    pub block: u16,
}

/// An error report: `opcode(2)=5 code(2) message NUL`.
#[derive(Clone, Debug, PartialEq, Eq)]
pub struct ErrorPacket {
    pub code: ErrorCode,
    pub message: String,
}

/// An option acknowledgement: `opcode(2)=6 [key NUL value NUL]*`.
#[derive(Clone, Debug, PartialEq, Eq)]
pub struct Oack {
    pub options: Vec<OptPair>,
}

/// Any packet of the protocol.
#[derive(Clone, Debug, PartialEq, Eq)]
pub enum Packet {
    Rrq(Rq),
    Wrq(Rq),
    Data(Data),
    Ack(Ack),
    Error(ErrorPacket),
    Oack(Oack),
}

/// The mathematical content of a packet.
pub enum PacketView {
    Rrq(RqView),
    Wrq(RqView),
    Data(u16, Seq<u8>),
    Ack(u16),
    Error(ErrorCode, Seq<char>),
    Oack(Seq<(Seq<u8>, Seq<u8>)>),
}

impl View for Packet {
    type V = PacketView;

    open spec fn view(&self) -> PacketView {
        match self {
            Packet::Rrq(r) => PacketView::Rrq(r@),
            Packet::Wrq(r) => PacketView::Wrq(r@),
            Packet::Data(d) => PacketView::Data(d.block, d.payload@),
            Packet::Ack(a) => PacketView::Ack(a.block),
            Packet::Error(e) => PacketView::Error(e.code, e.message@),
            Packet::Oack(o) => PacketView::Oack(pairs_view(o.options@)),
        }
    }
}

/// A packet that can be framed on the wire: its texts and option lists
/// embed no NUL.
pub open spec fn packet_wf(p: PacketView) -> bool {
    match p {
        PacketView::Rrq(r) => rq_wf(r),
        PacketView::Wrq(r) => rq_wf(r),
        PacketView::Data(_, _) => true,
        PacketView::Ack(_) => true,
        PacketView::Error(_, m) => chars_nul_free(m),
        PacketView::Oack(opts) => opts_nul_free(opts),
    }
}

/// The wire form of a packet, big-endian throughout.
pub open spec fn packet_wire(p: PacketView) -> Seq<u8> {
    match p {
        PacketView::Rrq(r) => seq![0u8, 1u8] + rq_wire(r),
        PacketView::Wrq(r) => seq![0u8, 2u8] + rq_wire(r),
        PacketView::Data(b, pl) => seq![0u8, 3u8, be16_hi(b), be16_lo(b)] + pl,
        PacketView::Ack(b) => seq![0u8, 4u8, be16_hi(b), be16_lo(b)],
        PacketView::Error(c, m) => seq![
            0u8,
            5u8,
            be16_hi(error_code_value(c)),
            be16_lo(error_code_value(c)),
        ] + encode_utf8(m) + seq![0u8],
        PacketView::Oack(opts) => seq![0u8, 6u8] + options_wire(opts),
    }
}

/// Parse a raw datagram payload. Acknowledgement and error packets are
/// parsed strictly: trailing bytes after their fixed fields or after the
/// message terminator are invalid.
pub open spec fn parse_packet(b: Seq<u8>) -> Option<PacketView> {
    if b.len() < 2 {
        None
    } else {
        let op = be16(b[0], b[1]);
        let rest = b.skip(2);
        if op == 1 {
            match parse_rq(rest) {
                Some(r) => Some(PacketView::Rrq(r)),
                None => None,
            }
        } else if op == 2 {
            match parse_rq(rest) {
                Some(r) => Some(PacketView::Wrq(r)),
                None => None,
            }
        } else if op == 3 {
            if rest.len() < 2 {
                None
            } else {
                Some(PacketView::Data(be16(rest[0], rest[1]), rest.skip(2)))
            }
        } else if op == 4 {
            if rest.len() != 2 {
                None
            } else {
                Some(PacketView::Ack(be16(rest[0], rest[1])))
            }
        } else if op == 5 {
            if rest.len() < 2 {
                None
            } else {
                match error_code_of(be16(rest[0], rest[1])) {
                    None => None,
                    Some(c) => {
                        let mb = rest.skip(2);
                        let i = nul_pos(mb);
                        if !(0 <= i < mb.len() && i + 1 == mb.len()) {
                            None
                        } else if !valid_utf8(mb.take(i)) {
                            None
                        } else {
                            Some(PacketView::Error(c, decode_utf8(mb.take(i))))
                        }
                    },
                }
            }
        } else if op == 6 {
            match parse_options(rest) {
                Some(o) => Some(PacketView::Oack(o)),
                None => None,
            }
        } else {
            None
        }
    }
}

/// Decode a raw datagram payload into a packet.
pub fn decode(bytes: &[u8]) -> (r: Result<Packet, DecodeError>)
    ensures
        r matches Ok(p) ==> parse_packet(bytes@) == Some(p@) && packet_wf(p@),
        r is Ok <==> parse_packet(bytes@) is Some,
        r is Err ==> r == Err::<Packet, DecodeError>(DecodeError::InvalidInput),
{
    let blen = bytes.len();
    if blen < 2 {
        return Err(DecodeError::InvalidInput);
    }
    let op = read_be16(bytes[0], bytes[1]);
    let rest = slice_subrange(bytes, 2, blen);
    proof {
        assert(rest@ =~= bytes@.skip(2));
    }
    if op == 1 || op == 2 {
        let rq = match Rq::from_bytes(rest) {
            Ok(rq) => rq,
            Err(_) => {
                return Err(DecodeError::InvalidInput);
            },
        };
        if op == 1 {
            Ok(Packet::Rrq(rq))
        } else {
            Ok(Packet::Wrq(rq))
        }
    } else if op == 3 {
        if rest.len() < 2 {
            return Err(DecodeError::InvalidInput);
        }
        let block = read_be16(rest[0], rest[1]);
        let payload = slice_to_vec(slice_subrange(rest, 2, rest.len()));
        proof {
            assert(payload@ =~= rest@.skip(2));
        }
        Ok(Packet::Data(Data { block, payload }))
    } else if op == 4 {
        if rest.len() != 2 {
            return Err(DecodeError::InvalidInput);
        }
        let block = read_be16(rest[0], rest[1]);
        Ok(Packet::Ack(Ack { block }))
    } else if op == 5 {
        if rest.len() < 2 {
            return Err(DecodeError::InvalidInput);
        }
        let code = match ErrorCode::from_u16(read_be16(rest[0], rest[1])) {
            Ok(c) => c,
            Err(_) => {
                return Err(DecodeError::InvalidInput);
            },
        };
        let mb = slice_subrange(rest, 2, rest.len());
        proof {
            assert(mb@ =~= rest@.skip(2));
            lemma_nul_pos(mb@);
        }
        let i = match find_first_nul(mb) {
            Some(i) => i,
            None => {
                return Err(DecodeError::InvalidInput);
            },
        };
        if i + 1 != mb.len() {
            return Err(DecodeError::InvalidInput);
        }
        let msg_bytes = slice_to_vec(slice_subrange(mb, 0, i));
        proof {
            assert(msg_bytes@ =~= mb@.take(i as int));
        }
        let message = match bytes_to_string(msg_bytes) {
            Some(s) => s,
            None => {
                return Err(DecodeError::InvalidInput);
            },
        };
        proof {
            encode_utf8_decode_utf8(message@);
            assert(bytes_nul_free(encode_utf8(message@))) by {
                assert(forall|k: int|
                    0 <= k < i ==> mb@.take(i as int)[k] == mb@[k] && mb@[k] != 0);
            }
            lemma_encode_utf8_nul_free(message@);
        }
        Ok(Packet::Error(ErrorPacket { code, message }))
    } else if op == 6 {
        let options = match parse_options_bytes(rest) {
            Ok(o) => o,
            Err(_) => {
                return Err(DecodeError::InvalidInput);
            },
        };
        proof {
            lemma_parse_options_nul_free(rest@);
        }
        Ok(Packet::Oack(Oack { options }))
    } else {
        Err(DecodeError::InvalidInput)
    }
}

/// Encode a packet into a raw datagram payload, the exact inverse of
/// `decode` on well-formed packets.
pub fn encode(p: Packet) -> (r: Vec<u8>)
    ensures
        r@ == packet_wire(p@),
{
    let mut out: Vec<u8> = Vec::new();
    out.push(0);
    match p {
        Packet::Rrq(rq) => {
            out.push(1);
            let body = rq.into_bytes();
            push_bytes(&mut out, body.as_slice());
        },
        Packet::Wrq(rq) => {
            out.push(2);
            let body = rq.into_bytes();
            push_bytes(&mut out, body.as_slice());
        },
        Packet::Data(d) => {
            out.push(3);
            let (hi, lo) = write_be16(d.block);
            out.push(hi);
            out.push(lo);
            push_bytes(&mut out, d.payload.as_slice());
        },
        Packet::Ack(a) => {
            out.push(4);
            let (hi, lo) = write_be16(a.block);
            out.push(hi);
            out.push(lo);
        },
        Packet::Error(e) => {
            out.push(5);
            let (hi, lo) = write_be16(e.code.to_u16());
            out.push(hi);
            out.push(lo);
            push_bytes(&mut out, e.message.as_str().as_bytes());
            out.push(0);
        },
        Packet::Oack(o) => {
            out.push(6);
            let body = encode_options(&o.options);
            push_bytes(&mut out, body.as_slice());
        },
    }
    proof {
        assert(out@ =~= packet_wire(p@));
    }
    out
}

/// Law: every well-formed packet decodes back from its encoding unchanged.
pub proof fn lemma_packet_round_trip(p: PacketView)
    requires
        packet_wf(p),
    ensures
        parse_packet(packet_wire(p)) == Some(p),
{
    let b = packet_wire(p);
    match p {
        PacketView::Rrq(r) => {
            assert(b.skip(2) =~= rq_wire(r));
            lemma_rq_round_trip(r);
        },
        PacketView::Wrq(r) => {
            assert(b.skip(2) =~= rq_wire(r));
            lemma_rq_round_trip(r);
        },
        PacketView::Data(blk, pl) => {
            let rest = b.skip(2);
            assert(rest =~= seq![be16_hi(blk), be16_lo(blk)] + pl);
            assert(be16(be16_hi(blk), be16_lo(blk)) == blk);
            assert(rest.skip(2) =~= pl);
        },
        PacketView::Ack(blk) => {
            let rest = b.skip(2);
            assert(rest =~= seq![be16_hi(blk), be16_lo(blk)]);
            assert(be16(be16_hi(blk), be16_lo(blk)) == blk);
        },
        PacketView::Error(c, m) => {
            let v = error_code_value(c);
            let rest = b.skip(2);
            assert(rest =~= seq![be16_hi(v), be16_lo(v)] + encode_utf8(m) + seq![0u8]);
            assert(be16(be16_hi(v), be16_lo(v)) == v);
            crate::error_code::lemma_error_code_round_trip(c);
            let mb = rest.skip(2);
            let f = encode_utf8(m);
            assert(mb =~= f + seq![0u8]);
            encode_utf8_valid_utf8(m);
            encode_utf8_decode_utf8(m);
            lemma_encode_utf8_nul_free(m);
            assert(mb[f.len() as int] == 0);
            assert forall|k: int| 0 <= k < f.len() implies mb[k] != 0 by {
                assert(mb[k] == f[k]);
            }
            lemma_nul_pos_of(mb, f.len() as int);
            assert(mb.take(f.len() as int) =~= f);
        },
        PacketView::Oack(opts) => {
            assert(b.skip(2) =~= options_wire(opts));
            lemma_options_round_trip(opts);
        },
    }
}

} // verus!
