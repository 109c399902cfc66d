//! Resolving requested options against the locally supported values
//! (RFC 2347/2348/2349): `blksize` and `timeout` are clamped to their
//! valid ranges, `tsize` reports the actual transfer size, and
//! unrecognized keys are ignored.

use vstd::prelude::*;

use crate::mode::{bytes_eq, lower_bytes, to_lower};
use crate::options::{pairs_view, OptPair};

verus! {

/// A non-empty run of ASCII decimal digits.
pub open spec fn is_digits(s: Seq<u8>) -> bool {
    s.len() > 0 && forall|i: int| 0 <= i < s.len() ==> 48 <= #[trigger] s[i] <= 57
}

/// The number a run of decimal digits denotes.
pub open spec fn dec_val(s: Seq<u8>) -> int
    decreases s.len(),
{
    if s.len() == 0 {
        0
    } else {
        dec_val(s.take(s.len() - 1)) * 10 + (s.last() - 48)
    }
}

/// The canonical decimal digits of a non-negative number.
pub open spec fn dec_repr(v: int) -> Seq<u8>
    recommends
        v >= 0,
    decreases v,
{
    if v <= 9 {
        seq![(48 + v) as u8]
    } else {
        dec_repr(v / 10) + seq![(48 + v % 10) as u8]
    }
}

/// A digit string denotes a non-negative number.
proof fn lemma_dec_val_nonneg(s: Seq<u8>)
    requires
        forall|i: int| 0 <= i < s.len() ==> 48 <= #[trigger] s[i] <= 57,
    ensures
        dec_val(s) >= 0,
    decreases s.len(),
{
    if s.len() > 0 {
        let t = s.take(s.len() - 1);
        assert(forall|i: int| 0 <= i < t.len() ==> 48 <= #[trigger] t[i] <= 57);
        lemma_dec_val_nonneg(t);
    }
}

/// Extending a digit string never shrinks the number it denotes.
proof fn lemma_dec_val_prefix(s: Seq<u8>, m: int)
    requires
        forall|i: int| 0 <= i < s.len() ==> 48 <= #[trigger] s[i] <= 57,
        0 <= m <= s.len(),
    ensures
        dec_val(s.take(m)) <= dec_val(s),
    decreases s.len() - m,
{
    if m < s.len() {
        let t = s.take(s.len() - 1);
        assert(forall|i: int| 0 <= i < t.len() ==> 48 <= #[trigger] t[i] <= 57);
        lemma_dec_val_nonneg(t);
        assert(t.take(m) =~= s.take(m));
        lemma_dec_val_prefix(t, m);
        assert(48 <= s[s.len() - 1] <= 57);
    } else {
        assert(s.take(m) =~= s);
    }
}

/// Parse an ASCII decimal number; `None` when the text is empty, has a
/// non-digit, or does not fit a `u64`.
pub fn parse_decimal(b: &[u8]) -> (r: Option<u64>)
    ensures
        r is Some <==> is_digits(b@) && dec_val(b@) <= u64::MAX,
        r matches Some(v) ==> v == dec_val(b@),
{
    if b.len() == 0 {
        return None;
    }
    let mut acc: u64 = 0;
    let mut i: usize = 0;
    while i < b.len()
        invariant
            0 < b@.len(),
            i <= b@.len(),
            forall|j: int| 0 <= j < i ==> 48 <= #[trigger] b@[j] <= 57,
            acc == dec_val(b@.take(i as int)),
        decreases b@.len() - i,
    {
        let d = b[i];
        if d < 48 || d > 57 {
            return None;
        }
        let dv = (d - 48) as u64;
        if acc > (u64::MAX - dv) / 10 {
            proof {
                assert(b@.take(i + 1).take(i as int) =~= b@.take(i as int));
                assert(b@.take(i + 1).last() == b@[i as int]);
                assert(dec_val(b@.take(i + 1)) == acc * 10 + dv);
                assert(dec_val(b@.take(i + 1)) > u64::MAX);
                if is_digits(b@) {
                    lemma_dec_val_prefix(b@, i + 1);
                }
            }
            return None;
        }
        proof {
            assert(b@.take(i + 1).take(i as int) =~= b@.take(i as int));
            assert(b@.take(i + 1).last() == b@[i as int]);
        }
        acc = acc * 10 + dv;
        i += 1;
    }
    proof {
        assert(b@.take(b@.len() as int) =~= b@);
    }
    Some(acc)
}

/// Append the canonical decimal digits of a number.
fn push_decimal(out: &mut Vec<u8>, v: u64)
    ensures
        final(out)@ == old(out)@ + dec_repr(v as int),
    decreases v,
{
    if v <= 9 {
        out.push(48 + (v as u8));
        proof {
            assert(final(out)@ =~= old(out)@ + dec_repr(v as int));
        }
    } else {
        push_decimal(out, v / 10);
        out.push(48 + ((v % 10) as u8));
        proof {
            assert(final(out)@ =~= old(out)@ + dec_repr(v as int));
        }
    }
}

/// The canonical decimal digits of a number, as bytes.
pub fn format_decimal(v: u64) -> (r: Vec<u8>)
    ensures
        r@ == dec_repr(v as int),
{
    let mut out: Vec<u8> = Vec::new();
    push_decimal(&mut out, v);
    proof {
        assert(out@ =~= dec_repr(v as int));
    }
    out
}

/// The lower-case `blksize` option key.
pub open spec fn blksize_key() -> Seq<u8> {
    seq![98u8, 108u8, 107u8, 115u8, 105u8, 122u8, 101u8]
}

/// The lower-case `timeout` option key.
pub open spec fn timeout_key() -> Seq<u8> {
    seq![116u8, 105u8, 109u8, 101u8, 111u8, 117u8, 116u8]
}

/// The lower-case `tsize` option key.
pub open spec fn tsize_key() -> Seq<u8> {
    seq![116u8, 115u8, 105u8, 122u8, 101u8]
}

/// A requested block size clamped into the supported range: at least 8,
/// at most the local maximum (itself never above 65464).
pub open spec fn clamp_blksize(v: int, max_bs: u16) -> u16 {
    if v < 8 {
        8
    } else if v > max_bs {
        max_bs
    } else {
        v as u16
    }
}

/// A requested timeout clamped into 1..=255 seconds.
pub open spec fn clamp_timeout(v: int) -> u8 {
    if v < 1 {
        1
    } else if v > 255 {
        255
    } else {
        v as u8
    }
}

/// The accepted option list echoed in the option acknowledgement: each
/// recognized key present in the request, first occurrence only, with its
/// accepted value; keys absent from the request stay absent.
pub open spec fn negotiate_opts(
    opts: Seq<(Seq<u8>, Seq<u8>)>,
    max_bs: u16,
    tsize: Option<u64>,
    seen_b: bool,
    seen_t: bool,
    seen_s: bool,
) -> Seq<(Seq<u8>, Seq<u8>)>
    decreases opts.len(),
{
    if opts.len() == 0 {
        Seq::empty()
    } else {
        let key = lower_bytes(opts[0].0);
        let val = opts[0].1;
        let rest = opts.drop_first();
        if key == blksize_key() && !seen_b && is_digits(val) && dec_val(val) <= u64::MAX {
            seq![(blksize_key(), dec_repr(clamp_blksize(dec_val(val), max_bs) as int))]
                + negotiate_opts(rest, max_bs, tsize, true, seen_t, seen_s)
        } else if key == timeout_key() && !seen_t && is_digits(val) && dec_val(val) <= u64::MAX {
            seq![(timeout_key(), dec_repr(clamp_timeout(dec_val(val)) as int))] + negotiate_opts(
                rest,
                max_bs,
                tsize,
                seen_b,
                true,
                seen_s,
            )
        } else if key == tsize_key() && !seen_s && tsize is Some && is_digits(val) && dec_val(val)
            <= u64::MAX {
            seq![(tsize_key(), dec_repr(tsize->0 as int))] + negotiate_opts(
                rest,
                max_bs,
                tsize,
                seen_b,
                seen_t,
                true,
            )
        } else {
            negotiate_opts(rest, max_bs, tsize, seen_b, seen_t, seen_s)
        }
    }
}

/// The block size the transfer will use: the first valid `blksize`
/// request, clamped, or the RFC 1350 default of 512.
pub open spec fn negotiated_blksize(opts: Seq<(Seq<u8>, Seq<u8>)>, max_bs: u16) -> u16
    decreases opts.len(),
{
    if opts.len() == 0 {
        512
    } else {
        let key = lower_bytes(opts[0].0);
        let val = opts[0].1;
        if key == blksize_key() && is_digits(val) && dec_val(val) <= u64::MAX {
            clamp_blksize(dec_val(val), max_bs)
        } else {
            negotiated_blksize(opts.drop_first(), max_bs)
        }
    }
}

/// The accepted timeout in seconds: the first valid `timeout` request,
/// clamped, or none.
pub open spec fn negotiated_timeout(opts: Seq<(Seq<u8>, Seq<u8>)>) -> Option<u8>
    decreases opts.len(),
{
    if opts.len() == 0 {
        None
    } else {
        let key = lower_bytes(opts[0].0);
        let val = opts[0].1;
        if key == timeout_key() && is_digits(val) && dec_val(val) <= u64::MAX {
            Some(clamp_timeout(dec_val(val)))
        } else {
            negotiated_timeout(opts.drop_first())
        }
    }
}

/// Law: whatever was requested, the negotiated block size is either the
/// RFC 1350 default of 512 (no valid `blksize` request) or lies between 8
/// and the local maximum; it never exceeds 65464.
pub proof fn lemma_blksize_bounded(opts: Seq<(Seq<u8>, Seq<u8>)>, max_bs: u16)
    requires
        8 <= max_bs <= 65464,
    ensures
        negotiated_blksize(opts, max_bs) == 512 || (8 <= negotiated_blksize(opts, max_bs)
            <= max_bs),
        negotiated_blksize(opts, max_bs) <= 65464,
    decreases opts.len(),
{
    if opts.len() > 0 {
        let key = lower_bytes(opts[0].0);
        let val = opts[0].1;
        if key == blksize_key() && is_digits(val) && dec_val(val) <= u64::MAX {
            lemma_dec_val_nonneg(val);
        } else {
            lemma_blksize_bounded(opts.drop_first(), max_bs);
        }
    }
}

/// The block size a client must adopt from an option acknowledgement: the
/// default when the answer names none, the answered value when it lies
/// between 8 and what was requested, and nothing (the answer is refused)
/// otherwise.
pub open spec fn oack_blksize(opts: Seq<(Seq<u8>, Seq<u8>)>, requested: u16) -> Option<u16>
    decreases opts.len(),
{
    if opts.len() == 0 {
        Some(512)
    } else {
        let key = lower_bytes(opts[0].0);
        let val = opts[0].1;
        if key == blksize_key() {
            if is_digits(val) && 8 <= dec_val(val) <= requested {
                Some(dec_val(val) as u16)
            } else {
                None
            }
        } else {
            oack_blksize(opts.drop_first(), requested)
        }
    }
}

/// Validate the `blksize` of an option acknowledgement against what the
/// request asked for (RFC 2348: the answer may lower the value, never
/// raise it).
pub fn accepted_block_size(reply: &Vec<OptPair>, requested: u16) -> (r: Result<
    u16,
    crate::DecodeError,
>)
    ensures
        r matches Ok(v) ==> oack_blksize(pairs_view(reply@), requested) == Some(v),
        r is Ok <==> oack_blksize(pairs_view(reply@), requested) is Some,
        r is Err ==> r == Err::<u16, crate::DecodeError>(crate::DecodeError::InvalidInput),
{
    let ghost pv = pairs_view(reply@);
    let mut k: usize = 0;
    proof {
        assert(pv.skip(0) =~= pv);
    }
    while k < reply.len()
        invariant
            k <= reply@.len(),
            pv == pairs_view(reply@),
            oack_blksize(pv, requested) == oack_blksize(pv.skip(k as int), requested),
        decreases reply@.len() - k,
    {
        proof {
            assert(pv.skip(k as int)[0] == pv[k as int]);
            assert(pv[k as int] == (reply@[k as int].key@, reply@[k as int].value@));
            assert(pv.skip(k as int).drop_first() =~= pv.skip(k + 1));
        }
        let key_l = to_lower(reply[k].key.as_slice());
        let bk = blksize_key_vec();
        if bytes_eq(key_l.as_slice(), bk.as_slice()) {
            match parse_decimal(reply[k].value.as_slice()) {
                Some(v) if 8 <= v && v <= requested as u64 => {
                    return Ok(v as u16);
                },
                _ => {
                    proof {
                        if is_digits(reply@[k as int].value@) {
                            lemma_dec_val_nonneg(reply@[k as int].value@);
                            if dec_val(reply@[k as int].value@) > u64::MAX {
                                lemma_dec_val_prefix(
                                    reply@[k as int].value@,
                                    reply@[k as int].value@.len() as int,
                                );
                            }
                        }
                    }
                    return Err(crate::DecodeError::InvalidInput);
                },
            }
        }
        k += 1;
    }
    proof {
        assert(pv.skip(pv.len() as int) =~= Seq::<(Seq<u8>, Seq<u8>)>::empty());
    }
    Ok(512)
}

/// The `blksize` key as bytes.
fn blksize_key_vec() -> (r: Vec<u8>)
    ensures
        r@ == blksize_key(),
{
    let mut out: Vec<u8> = Vec::new();
    out.push(98);
    out.push(108);
    out.push(107);
    out.push(115);
    out.push(105);
    out.push(122);
    out.push(101);
    proof {
        assert(out@ =~= blksize_key());
    }
    out
}

/// The `timeout` key as bytes.
fn timeout_key_vec() -> (r: Vec<u8>)
    ensures
        r@ == timeout_key(),
{
    let mut out: Vec<u8> = Vec::new();
    out.push(116);
    out.push(105);
    out.push(109);
    out.push(101);
    out.push(111);
    out.push(117);
    out.push(116);
    proof {
        assert(out@ =~= timeout_key());
    }
    out
}

/// The `tsize` key as bytes.
fn tsize_key_vec() -> (r: Vec<u8>)
    ensures
        r@ == tsize_key(),
{
    let mut out: Vec<u8> = Vec::new();
    out.push(116);
    out.push(115);
    out.push(105);
    out.push(122);
    out.push(101);
    proof {
        assert(out@ =~= tsize_key());
    }
    out
}

/// What negotiation settled on: the options to echo in an option
/// acknowledgement (none means no acknowledgement is sent and RFC 1350
/// defaults apply), the block size, and the accepted timeout if any.
pub struct Negotiated {
    pub reply: Vec<OptPair>,
    pub block_size: u16,
    pub timeout: Option<u8>,
}

/// Resolve the options of a request against the local maximum block size
/// and, for read requests, the actual transfer size to report.
pub fn negotiate(opts: &Vec<OptPair>, max_bs: u16, tsize: Option<u64>) -> (r: Negotiated)
    requires
        8 <= max_bs <= 65464,
    ensures
        pairs_view(r.reply@) == negotiate_opts(
            pairs_view(opts@),
            max_bs,
            tsize,
            false,
            false,
            false,
        ),
        r.block_size == negotiated_blksize(pairs_view(opts@), max_bs),
        r.timeout == negotiated_timeout(pairs_view(opts@)),
{
    let ghost pv = pairs_view(opts@);
    let mut reply: Vec<OptPair> = Vec::new();
    let mut block_size: u16 = 512;
    let mut timeout: Option<u8> = None;
    let mut seen_b: bool = false;
    let mut seen_t: bool = false;
    let mut seen_s: bool = false;
    let mut k: usize = 0;
    proof {
        assert(pv.skip(0) =~= pv);
        assert(pairs_view(reply@) =~= Seq::<(Seq<u8>, Seq<u8>)>::empty());
        assert(pairs_view(reply@) + negotiate_opts(pv, max_bs, tsize, false, false, false)
            =~= negotiate_opts(pv, max_bs, tsize, false, false, false));
    }
    while k < opts.len()
        invariant
            8 <= max_bs <= 65464,
            k <= opts@.len(),
            pv == pairs_view(opts@),
            negotiate_opts(pv, max_bs, tsize, false, false, false) == pairs_view(reply@)
                + negotiate_opts(pv.skip(k as int), max_bs, tsize, seen_b, seen_t, seen_s),
            negotiated_blksize(pv, max_bs) == (if seen_b {
                block_size as u16
            } else {
                negotiated_blksize(pv.skip(k as int), max_bs)
            }),
            !seen_b ==> block_size == 512,
            negotiated_timeout(pv) == (if seen_t {
                timeout
            } else {
                negotiated_timeout(pv.skip(k as int))
            }),
            !seen_t ==> timeout is None,
        decreases opts@.len() - k,
    {
        proof {
            assert(pv.skip(k as int)[0] == pv[k as int]);
            assert(pv[k as int] == (opts@[k as int].key@, opts@[k as int].value@));
            assert(pv.skip(k as int).drop_first() =~= pv.skip(k + 1));
        }
        let key_l = to_lower(opts[k].key.as_slice());
        let bk = blksize_key_vec();
        let tk = timeout_key_vec();
        let sk = tsize_key_vec();
        let is_b = bytes_eq(key_l.as_slice(), bk.as_slice());
        let is_t = bytes_eq(key_l.as_slice(), tk.as_slice());
        let is_s = bytes_eq(key_l.as_slice(), sk.as_slice());
        let parsed = parse_decimal(opts[k].value.as_slice());
        if is_b && !seen_b && parsed.is_some() {
            let v = parsed.unwrap();
            let c: u16 = if v < 8 {
                8
            } else if v > max_bs as u64 {
                max_bs
            } else {
                v as u16
            };
            let value = format_decimal(c as u64);
            proof {
                assert(c == clamp_blksize(dec_val(opts@[k as int].value@), max_bs));
                assert(pairs_view(reply@.push(OptPair { key: bk, value })) =~= pairs_view(
                    reply@,
                ).push((blksize_key(), dec_repr(c as int))));
                assert(pairs_view(reply@) + (seq![
                    (blksize_key(), dec_repr(c as int)),
                ] + negotiate_opts(pv.skip(k + 1), max_bs, tsize, true, seen_t, seen_s))
                    =~= pairs_view(reply@).push((blksize_key(), dec_repr(c as int)))
                    + negotiate_opts(pv.skip(k + 1), max_bs, tsize, true, seen_t, seen_s));
            }
            reply.push(OptPair { key: bk, value });
            block_size = c;
            seen_b = true;
        } else if is_t && !seen_t && parsed.is_some() {
            let v = parsed.unwrap();
            let c: u8 = if v < 1 {
                1
            } else if v > 255 {
                255
            } else {
                v as u8
            };
            let value = format_decimal(c as u64);
            proof {
                assert(c == clamp_timeout(dec_val(opts@[k as int].value@)));
                assert(pairs_view(reply@.push(OptPair { key: tk, value })) =~= pairs_view(
                    reply@,
                ).push((timeout_key(), dec_repr(c as int))));
                assert(pairs_view(reply@) + (seq![
                    (timeout_key(), dec_repr(c as int)),
                ] + negotiate_opts(pv.skip(k + 1), max_bs, tsize, seen_b, true, seen_s))
                    =~= pairs_view(reply@).push((timeout_key(), dec_repr(c as int)))
                    + negotiate_opts(pv.skip(k + 1), max_bs, tsize, seen_b, true, seen_s));
            }
            reply.push(OptPair { key: tk, value });
            timeout = Some(c);
            seen_t = true;
        } else if is_s && !seen_s && parsed.is_some() && tsize.is_some() {
            let ts = tsize.unwrap();
            let value = format_decimal(ts);
            proof {
                assert(pairs_view(reply@.push(OptPair { key: sk, value })) =~= pairs_view(
                    reply@,
                ).push((tsize_key(), dec_repr(ts as int))));
                assert(pairs_view(reply@) + (seq![
                    (tsize_key(), dec_repr(ts as int)),
                ] + negotiate_opts(pv.skip(k + 1), max_bs, tsize, seen_b, seen_t, true))
                    =~= pairs_view(reply@).push((tsize_key(), dec_repr(ts as int)))
                    + negotiate_opts(pv.skip(k + 1), max_bs, tsize, seen_b, seen_t, true));
            }
            reply.push(OptPair { key: sk, value });
            seen_s = true;
        }
        k += 1;
    }
    proof {
        assert(pv.skip(pv.len() as int) =~= Seq::<(Seq<u8>, Seq<u8>)>::empty());
        assert(pairs_view(reply@) + Seq::<(Seq<u8>, Seq<u8>)>::empty() =~= pairs_view(reply@));
    }
    Negotiated { reply, block_size, timeout }
}

} // verus!
