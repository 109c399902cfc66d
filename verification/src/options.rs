//! The NUL-terminated key/value option list that request and
//! option-acknowledgement packets carry (RFC 2347).

use vstd::prelude::*;

use crate::wire::{find_first_nul, lemma_nul_pos, lemma_nul_pos_of, nul_pos, push_bytes};
use crate::DecodeError;

verus! {

/// One `key`/`value` option, both held as NUL-free byte strings.
#[derive(Clone, Debug, PartialEq, Eq)]
pub struct OptPair {
    pub key: Vec<u8>,
    pub value: Vec<u8>,
}

impl View for OptPair {
    type V = (Seq<u8>, Seq<u8>);

    open spec fn view(&self) -> (Seq<u8>, Seq<u8>) {
        (self.key@, self.value@)
    }
}

/// The option pairs a vector of options stands for.
pub open spec fn pairs_view(v: Seq<OptPair>) -> Seq<(Seq<u8>, Seq<u8>)> {
    v.map_values(|p: OptPair| (p.key@, p.value@))
}

/// A byte string without a NUL byte, so it can be NUL-terminated on the
/// wire.
pub open spec fn bytes_nul_free(s: Seq<u8>) -> bool {
    forall|j: int| 0 <= j < s.len() ==> s[j] != 0
}

/// No key or value of the list contains a NUL byte, the condition under
/// which the list can be framed on the wire.
pub open spec fn opts_nul_free(opts: Seq<(Seq<u8>, Seq<u8>)>) -> bool {
    forall|k: int|
        0 <= k < opts.len() ==> bytes_nul_free(#[trigger] opts[k].0) && bytes_nul_free(opts[k].1)
}

/// The wire form of an option list: `key NUL value NUL` for each pair.
pub open spec fn options_wire(opts: Seq<(Seq<u8>, Seq<u8>)>) -> Seq<u8>
    decreases opts.len(),
{
    if opts.len() == 0 {
        Seq::empty()
    } else {
        opts[0].0 + seq![0u8] + opts[0].1 + seq![0u8] + options_wire(opts.drop_first())
    }
}

/// Parse the wire form of an option list; `None` when a key or value is
/// unterminated.
pub open spec fn parse_options(b: Seq<u8>) -> Option<Seq<(Seq<u8>, Seq<u8>)>>
    decreases b.len(),
{
    if b.len() == 0 {
        Some(Seq::empty())
    } else {
        let i = nul_pos(b);
        if !(0 <= i < b.len()) {
            None
        } else {
            let rest = b.skip(i + 1);
            let j = nul_pos(rest);
            if !(0 <= j < rest.len()) {
                None
            } else {
                match parse_options(rest.skip(j + 1)) {
                    Some(t) => Some(seq![(b.take(i), rest.take(j))] + t),
                    None => None,
                }
            }
        }
    }
}

/// Framing one more pair in front of a list extends its wire form at the
/// back, pair by pair.
proof fn lemma_options_wire_push(s: Seq<(Seq<u8>, Seq<u8>)>, x: (Seq<u8>, Seq<u8>))
    ensures
        options_wire(s.push(x)) == options_wire(s) + x.0 + seq![0u8] + x.1 + seq![0u8],
    decreases s.len(),
{
    if s.len() == 0 {
        assert(s.push(x)[0] == x);
        assert(s.push(x).drop_first() =~= Seq::<(Seq<u8>, Seq<u8>)>::empty());
        assert(options_wire(s.push(x)) == s.push(x)[0].0 + seq![0u8] + s.push(x)[0].1 + seq![0u8]
            + options_wire(s.push(x).drop_first()));
        assert(options_wire(s.push(x)) =~= options_wire(s) + x.0 + seq![0u8] + x.1 + seq![0u8]);
    } else {
        let t = s.drop_first();
        assert(s.push(x)[0] == s[0]);
        assert(s.push(x).drop_first() =~= t.push(x));
        lemma_options_wire_push(t, x);
        assert(options_wire(s.push(x)) == s[0].0 + seq![0u8] + s[0].1 + seq![0u8] + options_wire(
            t.push(x),
        ));
        assert(options_wire(s.push(x)) =~= options_wire(s) + x.0 + seq![0u8] + x.1 + seq![0u8]);
    }
}

/// Law: a NUL-free option list parses back from its wire form unchanged.
pub proof fn lemma_options_round_trip(opts: Seq<(Seq<u8>, Seq<u8>)>)
    requires
        opts_nul_free(opts),
    ensures
        parse_options(options_wire(opts)) == Some(opts),
    decreases opts.len(),
{
    if opts.len() == 0 {
    } else {
        let key = opts[0].0;
        let value = opts[0].1;
        let tail = opts.drop_first();
        let b = options_wire(opts);
        assert(b == key + seq![0u8] + value + seq![0u8] + options_wire(tail));
        assert(b.len() > 0);
        assert(b[key.len() as int] == 0);
        assert forall|j: int| 0 <= j < key.len() implies b[j] != 0 by {
            assert(b[j] == key[j]);
        }
        lemma_nul_pos_of(b, key.len() as int);
        assert(b.take(key.len() as int) =~= key);
        let rest = b.skip(key.len() as int + 1);
        assert(rest =~= value + seq![0u8] + options_wire(tail));
        assert(rest[value.len() as int] == 0);
        assert forall|j: int| 0 <= j < value.len() implies rest[j] != 0 by {
            assert(rest[j] == value[j]);
        }
        lemma_nul_pos_of(rest, value.len() as int);
        assert(rest.take(value.len() as int) =~= value);
        assert(rest.skip(value.len() as int + 1) =~= options_wire(tail));
        assert(opts_nul_free(tail)) by {
            assert(forall|k: int| #![auto] 0 <= k < tail.len() ==> tail[k] == opts[k + 1]);
        }
        lemma_options_round_trip(tail);
        assert(seq![(key, value)] + tail =~= opts);
    }
}

/// Every key and value that `parse_options` yields is NUL-free.
pub proof fn lemma_parse_options_nul_free(b: Seq<u8>)
    requires
        parse_options(b) is Some,
    ensures
        opts_nul_free(parse_options(b)->Some_0),
    decreases b.len(),
{
    if b.len() == 0 {
    } else {
        let i = nul_pos(b);
        lemma_nul_pos(b);
        let rest = b.skip(i + 1);
        let j = nul_pos(rest);
        lemma_nul_pos(rest);
        lemma_parse_options_nul_free(rest.skip(j + 1));
        let t = parse_options(rest.skip(j + 1))->Some_0;
        let opts = parse_options(b)->Some_0;
        assert(opts == seq![(b.take(i), rest.take(j))] + t);
        assert forall|k: int|
            0 <= k < opts.len() implies bytes_nul_free(#[trigger] opts[k].0) && bytes_nul_free(
            opts[k].1,
        ) by {
            if k == 0 {
                assert(forall|m: int| 0 <= m < i ==> b.take(i)[m] == b[m]);
                assert(forall|m: int| 0 <= m < j ==> rest.take(j)[m] == rest[m]);
            } else {
                assert(opts[k] == t[k - 1]);
            }
        }
    }
}

/// Encode an option list onto the wire.
pub fn encode_options(opts: &Vec<OptPair>) -> (r: Vec<u8>)
    ensures
        r@ == options_wire(pairs_view(opts@)),
{
    let mut out: Vec<u8> = Vec::new();
    let mut k: usize = 0;
    while k < opts.len()
        invariant
            k <= opts@.len(),
            out@ == options_wire(pairs_view(opts@.take(k as int))),
        decreases opts@.len() - k,
    {
        push_bytes(&mut out, opts[k].key.as_slice());
        out.push(0);
        push_bytes(&mut out, opts[k].value.as_slice());
        out.push(0);
        proof {
            assert(pairs_view(opts@.take(k + 1)) =~= pairs_view(opts@.take(k as int)).push(
                (opts@[k as int].key@, opts@[k as int].value@),
            ));
            lemma_options_wire_push(
                pairs_view(opts@.take(k as int)),
                (opts@[k as int].key@, opts@[k as int].value@),
            );
            assert(out@ =~= options_wire(pairs_view(opts@.take(k + 1))));
        }
        k += 1;
    }
    proof {
        assert(opts@.take(opts@.len() as int) =~= opts@);
    }
    out
}

/// Decode the wire form of an option list.
pub fn parse_options_bytes(b: &[u8]) -> (r: Result<Vec<OptPair>, DecodeError>)
    ensures
        r matches Ok(v) ==> parse_options(b@) == Some(pairs_view(v@)),
        r is Ok <==> parse_options(b@) is Some,
        r is Err ==> r == Err::<Vec<OptPair>, DecodeError>(DecodeError::InvalidInput),
{
    let mut acc: Vec<OptPair> = Vec::new();
    let mut pos: usize = 0;
    proof {
        assert(b@.skip(0) =~= b@);
        assert(pairs_view(acc@) =~= Seq::<(Seq<u8>, Seq<u8>)>::empty());
        if parse_options(b@) is Some {
            let t = parse_options(b@)->Some_0;
            assert(pairs_view(acc@) + t =~= t);
        }
    }
    while pos < b.len()
        invariant
            pos <= b@.len(),
            parse_options(b@) == (match parse_options(b@.skip(pos as int)) {
                Some(t) => Some(pairs_view(acc@) + t),
                None => None::<Seq<(Seq<u8>, Seq<u8>)>>,
            }),
        decreases b@.len() - pos,
    {
        let sub = vstd::slice::slice_subrange(b, pos, b.len());
        let i = match find_first_nul(sub) {
            Some(i) => i,
            None => {
                return Err(DecodeError::InvalidInput);
            },
        };
        let key = vstd::slice::slice_to_vec(vstd::slice::slice_subrange(sub, 0, i));
        let sub2 = vstd::slice::slice_subrange(b, pos + i + 1, b.len());
        let j = match find_first_nul(sub2) {
            Some(j) => j,
            None => {
                proof {
                    assert(b@.skip(pos as int).skip(i + 1) =~= sub2@);
                }
                return Err(DecodeError::InvalidInput);
            },
        };
        let value = vstd::slice::slice_to_vec(vstd::slice::slice_subrange(sub2, 0, j));
        proof {
            let s = b@.skip(pos as int);
            assert(s.skip(i + 1) =~= sub2@);
            assert(s.take(i as int) =~= key@);
            assert(sub2@.take(j as int) =~= value@);
            assert(sub2@.skip(j + 1) =~= b@.skip(pos + i + 1 + j + 1));
            assert(pairs_view(acc@.push(OptPair { key, value })) =~= pairs_view(acc@).push(
                (key@, value@),
            ));
            if parse_options(b@.skip(pos + i + 1 + j + 1)) is Some {
                let t = parse_options(b@.skip(pos + i + 1 + j + 1))->Some_0;
                assert(pairs_view(acc@) + (seq![(key@, value@)] + t) =~= pairs_view(acc@).push(
                    (key@, value@),
                ) + t);
            }
        }
        acc.push(OptPair { key, value });
        pos = pos + i + 1 + j + 1;
    }
    proof {
        assert(b@.skip(pos as int) =~= Seq::<u8>::empty());
        assert(pairs_view(acc@) + Seq::<(Seq<u8>, Seq<u8>)>::empty() =~= pairs_view(acc@));
    }
    Ok(acc)
}

} // verus!
