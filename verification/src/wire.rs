//! Byte-level primitives shared by the packet codec: locating NUL
//! terminators and the big-endian 16-bit fields of the wire format.

use vstd::prelude::*;

verus! {

/// Index of the first NUL byte, or the length of the sequence when none.
pub open spec fn nul_pos(b: Seq<u8>) -> int
    decreases b.len(),
{
    if b.len() == 0 {
        0
    } else if b[0] == 0 {
        0
    } else {
        1 + nul_pos(b.drop_first())
    }
}

/// What `nul_pos` finds: the first NUL, with nothing but non-NUL before it.
pub proof fn lemma_nul_pos(b: Seq<u8>)
    ensures
        0 <= nul_pos(b) <= b.len(),
        nul_pos(b) < b.len() ==> b[nul_pos(b)] == 0,
        forall|j: int| 0 <= j < nul_pos(b) ==> b[j] != 0,
    decreases b.len(),
{
    if b.len() == 0 {
    } else if b[0] == 0 {
    } else {
        let t = b.drop_first();
        lemma_nul_pos(t);
        assert forall|j: int| 0 <= j < nul_pos(b) implies b[j] != 0 by {
            if j > 0 {
                assert(b[j] == t[j - 1]);
            }
        }
    }
}

/// `nul_pos` is determined: a position that is NUL (or the end) with only
/// non-NUL bytes before it is the position `nul_pos` gives.
pub proof fn lemma_nul_pos_of(b: Seq<u8>, i: int)
    requires
        0 <= i <= b.len(),
        i < b.len() ==> b[i] == 0,
        i == b.len() ==> (forall|j: int| 0 <= j < b.len() ==> b[j] != 0),
        forall|j: int| 0 <= j < i ==> b[j] != 0,
    ensures
        nul_pos(b) == i,
    decreases b.len(),
{
    if b.len() == 0 {
    } else if b[0] == 0 {
        assert(i == 0);
    } else {
        let t = b.drop_first();
        assert(i >= 1);
        assert forall|j: int| 0 <= j < i - 1 implies t[j] != 0 by {
            assert(t[j] == b[j + 1]);
        }
        if i == b.len() {
            assert forall|j: int| 0 <= j < t.len() implies t[j] != 0 by {
                assert(t[j] == b[j + 1]);
            }
        } else {
            assert(t[i - 1] == b[i] == 0);
        }
        lemma_nul_pos_of(t, i - 1);
    }
}

/// Find the first NUL byte of a slice, if there is one.
pub fn find_first_nul(b: &[u8]) -> (r: Option<usize>)
    ensures
        r matches Some(i) ==> i == nul_pos(b@) && i < b@.len(),
        r is None ==> nul_pos(b@) == b@.len(),
{
    let mut i: usize = 0;
    while i < b.len()
        invariant
            i <= b@.len(),
            forall|j: int| 0 <= j < i ==> b@[j] != 0,
        decreases b@.len() - i,
    {
        if b[i] == 0 {
            proof {
                lemma_nul_pos_of(b@, i as int);
            }
            return Some(i);
        }
        i += 1;
    }
    proof {
        lemma_nul_pos_of(b@, b@.len() as int);
    }
    None
}

/// The 16-bit value of two big-endian bytes.
pub open spec fn be16(hi: u8, lo: u8) -> u16 {
    (hi * 256 + lo) as u16
}

/// The two big-endian bytes of a 16-bit value.
pub open spec fn be16_hi(v: u16) -> u8 {
    (v / 256) as u8
}

/// The low byte of a 16-bit value in big-endian order.
pub open spec fn be16_lo(v: u16) -> u8 {
    (v % 256) as u8
}

/// Append every byte of a slice to a vector.
pub fn push_bytes(out: &mut Vec<u8>, b: &[u8])
    ensures
        final(out)@ == old(out)@ + b@,
{
    let mut i: usize = 0;
    while i < b.len()
        invariant
            i <= b@.len(),
            out@ == old(out)@ + b@.take(i as int),
        decreases b@.len() - i,
    {
        out.push(b[i]);
        proof {
            assert(old(out)@ + b@.take(i + 1) =~= (old(out)@ + b@.take(i as int)).push(
                b@[i as int],
            ));
        }
        i += 1;
    }
    proof {
        assert(b@.take(b@.len() as int) =~= b@);
    }
}

/// Read a 16-bit big-endian value from two bytes.
pub fn read_be16(hi: u8, lo: u8) -> (r: u16)
    ensures
        r == be16(hi, lo),
{
    (hi as u16) * 256 + (lo as u16)
}

/// Split a 16-bit value into its two big-endian bytes.
pub fn write_be16(v: u16) -> (r: (u8, u8))
    ensures
        r.0 == be16_hi(v),
        r.1 == be16_lo(v),
        be16(r.0, r.1) == v,
    {
    ((v / 256) as u8, (v % 256) as u8)
}

} // verus!
