//! The netascii byte-stream transcoder (RFC 764/854 rules): line feeds
//! travel as CR LF and a bare carriage return travels as CR NUL. The
//! streaming coders carry at most one pending byte (a carriage return)
//! across block boundaries.

use vstd::prelude::*;

verus! {

/// Decode a complete netascii byte stream to host form (line feed line
/// endings): CR LF becomes LF, CR NUL becomes CR; anything else, a bare
/// trailing CR included, passes through.
pub open spec fn na_decode(s: Seq<u8>) -> Seq<u8>
    decreases s.len(),
{
    if s.len() == 0 {
        Seq::empty()
    } else if s[0] == 13 {
        if s.len() >= 2 && s[1] == 10 {
            seq![10u8] + na_decode(s.skip(2))
        } else if s.len() >= 2 && s[1] == 0 {
            seq![13u8] + na_decode(s.skip(2))
        } else if s.len() == 1 {
            seq![13u8]
        } else {
            seq![13u8] + na_decode(s.skip(1))
        }
    } else {
        seq![s[0]] + na_decode(s.skip(1))
    }
}

/// Encode a host byte stream (line feed line endings) to netascii: LF
/// becomes CR LF, CR LF stays CR LF, and any other CR becomes CR NUL.
pub open spec fn na_encode(s: Seq<u8>) -> Seq<u8>
    decreases s.len(),
{
    if s.len() == 0 {
        Seq::empty()
    } else if s[0] == 10 {
        seq![13u8, 10u8] + na_encode(s.skip(1))
    } else if s[0] == 13 {
        if s.len() >= 2 && s[1] == 10 {
            seq![13u8, 10u8] + na_encode(s.skip(2))
        } else {
            seq![13u8, 0u8] + na_encode(s.skip(1))
        }
    } else {
        seq![s[0]] + na_encode(s.skip(1))
    }
}

/// Decoding distributes over a split, provided the front part does not
/// end in a carriage return whose meaning the back part could change.
pub proof fn lemma_na_decode_concat(a: Seq<u8>, b: Seq<u8>)
    requires
        a.len() > 0 && a.last() == 13 ==> b.len() == 0 || (b[0] != 10 && b[0] != 0),
    ensures
        na_decode(a + b) == na_decode(a) + na_decode(b),
    decreases a.len(),
{
    if a.len() == 0 {
        assert(a + b =~= b);
        assert(na_decode(a) + na_decode(b) =~= na_decode(b));
    } else {
        let s = a + b;
        assert(s[0] == a[0]);
        if a[0] == 13 {
            if a.len() == 1 {
                if b.len() == 0 {
                    assert(s =~= a);
                    assert(na_decode(a) + na_decode(b) =~= na_decode(a));
                } else {
                    assert(s.len() >= 2 && s[1] == b[0]);
                    assert(s.skip(1) =~= b);
                    assert(na_decode(s) == seq![13u8] + na_decode(b));
                    assert(na_decode(a) + na_decode(b) =~= seq![13u8] + na_decode(b));
                }
            } else if a[1] == 10 {
                assert(s.len() >= 2 && s[1] == 10);
                assert(s.skip(2) =~= a.skip(2) + b);
                lemma_na_decode_concat(a.skip(2), b);
                assert(na_decode(s) =~= na_decode(a) + na_decode(b));
            } else if a[1] == 0 {
                assert(s.skip(2) =~= a.skip(2) + b);
                lemma_na_decode_concat(a.skip(2), b);
                assert(na_decode(s) =~= na_decode(a) + na_decode(b));
            } else {
                assert(s.skip(1) =~= a.skip(1) + b);
                lemma_na_decode_concat(a.skip(1), b);
                assert(na_decode(s) =~= na_decode(a) + na_decode(b));
            }
        } else {
            assert(s.skip(1) =~= a.skip(1) + b);
            lemma_na_decode_concat(a.skip(1), b);
            assert(na_decode(s) =~= na_decode(a) + na_decode(b));
        }
    }
}

/// Encoding distributes over a split, provided the front part does not
/// end in a carriage return that the back part completes to CR LF.
pub proof fn lemma_na_encode_concat(a: Seq<u8>, b: Seq<u8>)
    requires
        a.len() > 0 && a.last() == 13 ==> b.len() == 0 || b[0] != 10,
    ensures
        na_encode(a + b) == na_encode(a) + na_encode(b),
    decreases a.len(),
{
    if a.len() == 0 {
        assert(a + b =~= b);
        assert(na_encode(a) + na_encode(b) =~= na_encode(b));
    } else {
        let s = a + b;
        assert(s[0] == a[0]);
        if a[0] == 10 {
            assert(s.skip(1) =~= a.skip(1) + b);
            lemma_na_encode_concat(a.skip(1), b);
            assert(na_encode(s) =~= na_encode(a) + na_encode(b));
        } else if a[0] == 13 {
            if a.len() == 1 {
                if b.len() == 0 {
                    assert(s =~= a);
                    assert(na_encode(a) + na_encode(b) =~= na_encode(a));
                } else {
                    assert(s.len() >= 2 && s[1] == b[0] && b[0] != 10);
                    assert(s.skip(1) =~= b);
                    assert(na_encode(s) == seq![13u8, 0u8] + na_encode(b));
                    assert(na_encode(a) + na_encode(b) =~= seq![13u8, 0u8] + na_encode(b));
                }
            } else if a[1] == 10 {
                assert(s.len() >= 2 && s[1] == 10);
                assert(s.skip(2) =~= a.skip(2) + b);
                lemma_na_encode_concat(a.skip(2), b);
                assert(na_encode(s) =~= na_encode(a) + na_encode(b));
            } else {
                assert(s.len() >= 2 && s[1] == a[1] && a[1] != 10);
                assert(s.skip(1) =~= a.skip(1) + b);
                lemma_na_encode_concat(a.skip(1), b);
                assert(na_encode(s) =~= na_encode(a) + na_encode(b));
            }
        } else {
            assert(s.skip(1) =~= a.skip(1) + b);
            lemma_na_encode_concat(a.skip(1), b);
            assert(na_encode(s) =~= na_encode(a) + na_encode(b));
        }
    }
}

/// Equal sequences stay equal when a common last byte is cancelled.
proof fn lemma_cancel_last(a: Seq<u8>, b: Seq<u8>, x: u8)
    requires
        a + seq![x] == b + seq![x],
    ensures
        a == b,
{
    assert((a + seq![x]).len() == a.len() + 1);
    assert((b + seq![x]).len() == b.len() + 1);
    assert(a.len() == b.len());
    assert forall|j: int| 0 <= j < a.len() implies a[j] == b[j] by {
        assert((a + seq![x])[j] == a[j]);
        assert((b + seq![x])[j] == b[j]);
    }
    assert(a =~= b);
}

/// Equal sequences stay equal when a common suffix is cancelled.
proof fn lemma_cancel_suffix(a: Seq<u8>, b: Seq<u8>, c: Seq<u8>)
    requires
        a + c == b + c,
    ensures
        a == b,
{
    assert((a + c).len() == a.len() + c.len());
    assert((b + c).len() == b.len() + c.len());
    assert(a.len() == b.len());
    assert forall|j: int| 0 <= j < a.len() implies a[j] == b[j] by {
        assert((a + c)[j] == a[j]);
        assert((b + c)[j] == b[j]);
    }
    assert(a =~= b);
}

/// The single byte a coder may hold back: a carriage return, or nothing.
pub open spec fn held_of(pending_cr: bool) -> Seq<u8> {
    if pending_cr {
        seq![13u8]
    } else {
        Seq::<u8>::empty()
    }
}

/// A streaming netascii decoder: feed it the payload of each data block
/// in order, then flush. It buffers at most one byte (a carriage return
/// seen at a block boundary).
pub struct NaDecoder {
    pending_cr: bool,
    processed: Ghost<Seq<u8>>,
    emitted: Ghost<Seq<u8>>,
}

impl NaDecoder {
    /// Every byte fed so far.
    pub closed spec fn processed(self) -> Seq<u8> {
        self.processed@
    }

    /// Every byte handed out so far.
    pub closed spec fn emitted(self) -> Seq<u8> {
        self.emitted@
    }

    /// The decoder tracks the decoding of what it was fed: whatever
    /// arrives later, output plus pending state stay faithful to it.
    pub closed spec fn wf(self) -> bool {
        forall|f: Seq<u8>|
            #[trigger] na_decode(self.processed@ + f) == self.emitted@ + na_decode(
                held_of(self.pending_cr) + f,
            )
    }

    /// A fresh decoder.
    pub fn new() -> (r: NaDecoder)
        ensures
            r.wf(),
            r.processed() == Seq::<u8>::empty(),
            r.emitted() == Seq::<u8>::empty(),
    {
        let r = NaDecoder { pending_cr: false, processed: Ghost(Seq::empty()), emitted: Ghost(Seq::empty()) };
        proof {
            assert forall|f: Seq<u8>| #[trigger] na_decode(r.processed@ + f) == r.emitted@
                + na_decode(held_of(r.pending_cr) + f) by {
                assert(r.processed@ + f =~= f);
                assert(held_of(r.pending_cr) + f =~= f);
                assert(r.emitted@ + na_decode(f) =~= na_decode(f));
            }
        }
        r
    }

    /// Feed one block of netascii bytes; returns the host bytes that are
    /// settled by it.
    pub fn push(&mut self, chunk: &[u8]) -> (out: Vec<u8>)
        requires
            old(self).wf(),
        ensures
            final(self).wf(),
            final(self).processed() == old(self).processed() + chunk@,
            final(self).emitted() == old(self).emitted() + out@,
    {
        let mut out: Vec<u8> = Vec::new();
        let mut pending: bool = self.pending_cr;
        let ghost h0 = held_of(self.pending_cr);
        let mut i: usize = 0;
        proof {
            assert(h0 + chunk@.take(0) =~= h0);
            assert(out@ + na_decode(held_of(pending)) =~= na_decode(h0));
        }
        while i < chunk.len()
            invariant
                i <= chunk@.len(),
                out@ + na_decode(held_of(pending)) == na_decode(h0 + chunk@.take(i as int)),
                pending <==> ((h0 + chunk@.take(i as int)).len() > 0 && (h0 + chunk@.take(
                    i as int,
                )).last() == 13),
            decreases chunk@.len() - i,
        {
            let ghost u = h0 + chunk@.take(i as int);
            let ghost o0 = out@;
            let x = chunk[i];
            proof {
                assert(h0 + chunk@.take(i + 1) =~= u + seq![x]);
            }
            if pending {
                proof {
                    let u1 = u.take(u.len() - 1);
                    assert(u =~= u1 + seq![13u8]);
                    lemma_na_decode_concat(u1, seq![13u8]);
                    assert(na_decode(seq![13u8]) =~= seq![13u8]);
                    assert(na_decode(u1) + seq![13u8] == o0 + seq![13u8]);
                    lemma_cancel_last(na_decode(u1), o0, 13u8);
                    assert(u + seq![x] =~= u1 + (seq![13u8] + seq![x]));
                    lemma_na_decode_concat(u1, seq![13u8] + seq![x]);
                    assert((seq![13u8] + seq![x])[0] == 13 && (seq![13u8] + seq![x])[1] == x);
                    assert((seq![13u8] + seq![x]).skip(2) =~= Seq::<u8>::empty());
                    assert((seq![13u8] + seq![x]).skip(1) =~= seq![x]);
                    assert(na_decode(Seq::<u8>::empty()) == Seq::<u8>::empty());
                    assert(seq![x].skip(1) =~= Seq::<u8>::empty());
                }
                if x == 10 {
                    out.push(10);
                    pending = false;
                    proof {
                        assert(out@ =~= o0 + seq![10u8]);
                        assert(na_decode(seq![13u8] + seq![10u8]) =~= seq![10u8]);
                        assert(out@ + na_decode(held_of(pending)) =~= na_decode(u + seq![x]));
                    }
                } else if x == 0 {
                    out.push(13);
                    pending = false;
                    proof {
                        assert(out@ =~= o0 + seq![13u8]);
                        assert(na_decode(seq![13u8] + seq![0u8]) =~= seq![13u8]);
                        assert(out@ + na_decode(held_of(pending)) =~= na_decode(u + seq![x]));
                    }
                } else if x == 13 {
                    out.push(13);
                    proof {
                        assert(out@ =~= o0 + seq![13u8]);
                        assert(na_decode(seq![13u8] + seq![13u8]) =~= seq![13u8, 13u8]);
                        assert(na_decode(held_of(pending)) =~= seq![13u8]);
                        assert(out@ + na_decode(held_of(pending)) =~= na_decode(u + seq![x]));
                    }
                } else {
                    out.push(13);
                    out.push(x);
                    pending = false;
                    proof {
                        assert(out@ =~= o0 + seq![13u8, x]);
                        assert(na_decode(seq![x]) =~= seq![x]);
                        assert(na_decode(seq![13u8] + seq![x]) =~= seq![13u8, x]);
                        assert(out@ + na_decode(held_of(pending)) =~= na_decode(u + seq![x]));
                    }
                }
            } else {
                proof {
                    lemma_na_decode_concat(u, seq![x]);
                    assert(na_decode(Seq::<u8>::empty()) == Seq::<u8>::empty());
                    assert(seq![x].skip(1) =~= Seq::<u8>::empty());
                    assert(na_decode(held_of(false)) =~= Seq::<u8>::empty());
                    assert(na_decode(u) =~= o0);
                }
                if x == 13 {
                    pending = true;
                    proof {
                        assert(na_decode(seq![13u8]) =~= seq![13u8]);
                        assert(out@ + na_decode(held_of(pending)) =~= na_decode(u + seq![x]));
                    }
                } else {
                    out.push(x);
                    proof {
                        assert(out@ =~= o0 + seq![x]);
                        assert(na_decode(seq![x]) =~= seq![x]);
                        assert(out@ + na_decode(held_of(pending)) =~= na_decode(u + seq![x]));
                    }
                }
            }
            i += 1;
        }
        proof {
            assert(chunk@.take(chunk@.len() as int) =~= chunk@);
        }
        let ghost t = h0 + chunk@;
        self.pending_cr = pending;
        proof {
            self.processed@ = self.processed@ + chunk@;
            self.emitted@ = self.emitted@ + out@;
        }
        proof {
            assert forall|f: Seq<u8>| #[trigger] na_decode(self.processed@ + f) == self.emitted@
                + na_decode(held_of(self.pending_cr) + f) by {
                assert(na_decode(old(self).processed@ + (chunk@ + f)) == old(self).emitted@
                    + na_decode(h0 + (chunk@ + f)));
                assert(self.processed@ + f =~= old(self).processed@ + (chunk@ + f));
                assert(h0 + (chunk@ + f) =~= t + f);
                if pending {
                    let t1 = t.take(t.len() - 1);
                    assert(t =~= t1 + seq![13u8]);
                    lemma_na_decode_concat(t1, seq![13u8]);
                    assert(na_decode(seq![13u8]) =~= seq![13u8]);
                    assert(na_decode(t1) + seq![13u8] == out@ + seq![13u8]);
                    lemma_cancel_last(na_decode(t1), out@, 13u8);
                    assert(t + f =~= t1 + (seq![13u8] + f));
                    lemma_na_decode_concat(t1, seq![13u8] + f);
                    assert(held_of(self.pending_cr) + f =~= seq![13u8] + f);
                } else {
                    assert(na_decode(Seq::<u8>::empty()) == Seq::<u8>::empty());
                    assert(na_decode(held_of(pending)) =~= Seq::<u8>::empty());
                    assert(na_decode(t) =~= out@);
                    lemma_na_decode_concat(t, f);
                    assert(held_of(self.pending_cr) + f =~= f);
                }
                assert(self.emitted@ + na_decode(held_of(self.pending_cr) + f) =~= old(
                    self,
                ).emitted@ + (out@ + na_decode(held_of(self.pending_cr) + f)));
            }
        }
        out
    }

    /// End of stream: hand out the held byte, if any. The total output is
    /// exactly the decoding of everything fed.
    pub fn finish(self) -> (out: Vec<u8>)
        requires
            self.wf(),
        ensures
            self.emitted() + out@ == na_decode(self.processed()),
    {
        proof {
            assert(na_decode(self.processed@ + Seq::<u8>::empty()) == self.emitted@ + na_decode(
                held_of(self.pending_cr) + Seq::<u8>::empty(),
            ));
            assert(self.processed@ + Seq::<u8>::empty() =~= self.processed@);
        }
        let mut out: Vec<u8> = Vec::new();
        if self.pending_cr {
            out.push(13);
            proof {
                assert(held_of(self.pending_cr) + Seq::<u8>::empty() =~= seq![13u8]);
                assert(na_decode(seq![13u8]) =~= seq![13u8]);
                assert(out@ =~= na_decode(held_of(self.pending_cr) + Seq::<u8>::empty()));
            }
        } else {
            proof {
                assert(na_decode(Seq::<u8>::empty()) == Seq::<u8>::empty());
                assert(held_of(self.pending_cr) + Seq::<u8>::empty() =~= Seq::<u8>::empty());
                assert(out@ =~= na_decode(held_of(self.pending_cr) + Seq::<u8>::empty()));
            }
        }
        out
    }
}


/// A streaming netascii encoder: feed it host bytes block by block, then
/// flush. It buffers at most one byte (a carriage return whose line-feed
/// companion may begin the next block).
pub struct NaEncoder {
    pending_cr: bool,
    processed: Ghost<Seq<u8>>,
    emitted: Ghost<Seq<u8>>,
}

impl NaEncoder {
    /// Every byte fed so far.
    pub closed spec fn processed(self) -> Seq<u8> {
        self.processed@
    }

    /// Every byte handed out so far.
    pub closed spec fn emitted(self) -> Seq<u8> {
        self.emitted@
    }

    /// The encoder tracks the encoding of what it was fed: whatever
    /// arrives later, output plus pending state stay faithful to it.
    pub closed spec fn wf(self) -> bool {
        forall|f: Seq<u8>|
            #[trigger] na_encode(self.processed@ + f) == self.emitted@ + na_encode(
                held_of(self.pending_cr) + f,
            )
    }

    /// A fresh encoder.
    pub fn new() -> (r: NaEncoder)
        ensures
            r.wf(),
            r.processed() == Seq::<u8>::empty(),
            r.emitted() == Seq::<u8>::empty(),
    {
        let r = NaEncoder { pending_cr: false, processed: Ghost(Seq::empty()), emitted: Ghost(Seq::empty()) };
        proof {
            assert forall|f: Seq<u8>| #[trigger] na_encode(r.processed@ + f) == r.emitted@
                + na_encode(held_of(r.pending_cr) + f) by {
                assert(r.processed@ + f =~= f);
                assert(held_of(r.pending_cr) + f =~= f);
                assert(r.emitted@ + na_encode(f) =~= na_encode(f));
            }
        }
        r
    }

    /// Feed one block of host bytes; returns the netascii bytes that are
    /// settled by it.
    pub fn push(&mut self, chunk: &[u8]) -> (out: Vec<u8>)
        requires
            old(self).wf(),
        ensures
            final(self).wf(),
            final(self).processed() == old(self).processed() + chunk@,
            final(self).emitted() == old(self).emitted() + out@,
    {
        let mut out: Vec<u8> = Vec::new();
        let mut pending: bool = self.pending_cr;
        let ghost h0 = held_of(self.pending_cr);
        let mut i: usize = 0;
        proof {
            assert(h0 + chunk@.take(0) =~= h0);
            assert(out@ + na_encode(held_of(pending)) =~= na_encode(h0));
        }
        while i < chunk.len()
            invariant
                i <= chunk@.len(),
                out@ + na_encode(held_of(pending)) == na_encode(h0 + chunk@.take(i as int)),
                pending <==> ((h0 + chunk@.take(i as int)).len() > 0 && (h0 + chunk@.take(
                    i as int,
                )).last() == 13),
            decreases chunk@.len() - i,
        {
            let ghost u = h0 + chunk@.take(i as int);
            let ghost o0 = out@;
            let x = chunk[i];
            proof {
                assert(h0 + chunk@.take(i + 1) =~= u + seq![x]);
                assert(na_encode(Seq::<u8>::empty()) == Seq::<u8>::empty());
                assert(seq![x].skip(1) =~= Seq::<u8>::empty());
                assert(seq![13u8].skip(1) =~= Seq::<u8>::empty());
                assert(na_encode(seq![13u8]) =~= seq![13u8, 0u8]);
            }
            if pending {
                proof {
                    let u1 = u.take(u.len() - 1);
                    assert(u =~= u1 + seq![13u8]);
                    lemma_na_encode_concat(u1, seq![13u8]);
                    assert(na_encode(u1) + seq![13u8, 0u8] == o0 + seq![13u8, 0u8]);
                    lemma_cancel_suffix(na_encode(u1), o0, seq![13u8, 0u8]);
                    assert(u + seq![x] =~= u1 + (seq![13u8] + seq![x]));
                    lemma_na_encode_concat(u1, seq![13u8] + seq![x]);
                    assert((seq![13u8] + seq![x])[0] == 13 && (seq![13u8] + seq![x])[1] == x);
                    assert((seq![13u8] + seq![x]).skip(2) =~= Seq::<u8>::empty());
                    assert((seq![13u8] + seq![x]).skip(1) =~= seq![x]);
                }
                if x == 10 {
                    out.push(13);
                    out.push(10);
                    pending = false;
                    proof {
                        assert(out@ =~= o0 + seq![13u8, 10u8]);
                        assert(na_encode(seq![13u8] + seq![10u8]) =~= seq![13u8, 10u8]);
                        assert(out@ + na_encode(held_of(pending)) =~= na_encode(u + seq![x]));
                    }
                } else if x == 13 {
                    out.push(13);
                    out.push(0);
                    proof {
                        assert(out@ =~= o0 + seq![13u8, 0u8]);
                        assert(na_encode(seq![13u8] + seq![13u8]) =~= seq![13u8, 0u8, 13u8, 0u8]);
                        assert(na_encode(held_of(pending)) =~= seq![13u8, 0u8]);
                        assert(out@ + na_encode(held_of(pending)) =~= na_encode(u + seq![x]));
                    }
                } else {
                    out.push(13);
                    out.push(0);
                    out.push(x);
                    pending = false;
                    proof {
                        assert(out@ =~= o0 + seq![13u8, 0u8, x]);
                        assert(na_encode(seq![x]) =~= seq![x]);
                        assert(na_encode(seq![13u8] + seq![x]) =~= seq![13u8, 0u8, x]);
                        assert(out@ + na_encode(held_of(pending)) =~= na_encode(u + seq![x]));
                    }
                }
            } else {
                proof {
                    lemma_na_encode_concat(u, seq![x]);
                    assert(na_encode(held_of(false)) =~= Seq::<u8>::empty());
                    assert(na_encode(u) =~= o0);
                }
                if x == 10 {
                    out.push(13);
                    out.push(10);
                    proof {
                        assert(out@ =~= o0 + seq![13u8, 10u8]);
                        assert(na_encode(seq![10u8]) =~= seq![13u8, 10u8]);
                        assert(out@ + na_encode(held_of(pending)) =~= na_encode(u + seq![x]));
                    }
                } else if x == 13 {
                    pending = true;
                    proof {
                        assert(out@ + na_encode(held_of(pending)) =~= na_encode(u + seq![x]));
                    }
                } else {
                    out.push(x);
                    proof {
                        assert(out@ =~= o0 + seq![x]);
                        assert(na_encode(seq![x]) =~= seq![x]);
                        assert(out@ + na_encode(held_of(pending)) =~= na_encode(u + seq![x]));
                    }
                }
            }
            i += 1;
        }
        proof {
            assert(chunk@.take(chunk@.len() as int) =~= chunk@);
        }
        let ghost t = h0 + chunk@;
        self.pending_cr = pending;
        proof {
            self.processed@ = self.processed@ + chunk@;
            self.emitted@ = self.emitted@ + out@;
        }
        proof {
            assert forall|f: Seq<u8>| #[trigger] na_encode(self.processed@ + f) == self.emitted@
                + na_encode(held_of(self.pending_cr) + f) by {
                assert(na_encode(old(self).processed@ + (chunk@ + f)) == old(self).emitted@
                    + na_encode(h0 + (chunk@ + f)));
                assert(self.processed@ + f =~= old(self).processed@ + (chunk@ + f));
                assert(h0 + (chunk@ + f) =~= t + f);
                if pending {
                    let t1 = t.take(t.len() - 1);
                    assert(t =~= t1 + seq![13u8]);
                    lemma_na_encode_concat(t1, seq![13u8]);
                    assert(na_encode(Seq::<u8>::empty()) == Seq::<u8>::empty());
                    assert(seq![13u8].skip(1) =~= Seq::<u8>::empty());
                    assert(na_encode(seq![13u8]) =~= seq![13u8, 0u8]);
                    assert(na_encode(t1) + seq![13u8, 0u8] == out@ + seq![13u8, 0u8]);
                    lemma_cancel_suffix(na_encode(t1), out@, seq![13u8, 0u8]);
                    assert(t + f =~= t1 + (seq![13u8] + f));
                    lemma_na_encode_concat(t1, seq![13u8] + f);
                    assert(held_of(self.pending_cr) + f =~= seq![13u8] + f);
                } else {
                    assert(na_encode(Seq::<u8>::empty()) == Seq::<u8>::empty());
                    assert(na_encode(held_of(pending)) =~= Seq::<u8>::empty());
                    assert(na_encode(t) =~= out@);
                    lemma_na_encode_concat(t, f);
                    assert(held_of(self.pending_cr) + f =~= f);
                }
                assert(self.emitted@ + na_encode(held_of(self.pending_cr) + f) =~= old(
                    self,
                ).emitted@ + (out@ + na_encode(held_of(self.pending_cr) + f)));
            }
        }
        out
    }

    /// End of stream: hand out the encoding of the held byte, if any. The
    /// total output is exactly the encoding of everything fed.
    pub fn finish(self) -> (out: Vec<u8>)
        requires
            self.wf(),
        ensures
            self.emitted() + out@ == na_encode(self.processed()),
    {
        proof {
            assert(na_encode(self.processed@ + Seq::<u8>::empty()) == self.emitted@ + na_encode(
                held_of(self.pending_cr) + Seq::<u8>::empty(),
            ));
            assert(self.processed@ + Seq::<u8>::empty() =~= self.processed@);
        }
        let mut out: Vec<u8> = Vec::new();
        if self.pending_cr {
            out.push(13);
            out.push(0);
            proof {
                assert(held_of(self.pending_cr) + Seq::<u8>::empty() =~= seq![13u8]);
                assert(na_encode(Seq::<u8>::empty()) == Seq::<u8>::empty());
                assert(seq![13u8].skip(1) =~= Seq::<u8>::empty());
                assert(na_encode(seq![13u8]) =~= seq![13u8, 0u8]);
                assert(out@ =~= na_encode(held_of(self.pending_cr) + Seq::<u8>::empty()));
            }
        } else {
            proof {
                assert(na_encode(Seq::<u8>::empty()) == Seq::<u8>::empty());
                assert(held_of(self.pending_cr) + Seq::<u8>::empty() =~= Seq::<u8>::empty());
                assert(out@ =~= na_encode(held_of(self.pending_cr) + Seq::<u8>::empty()));
            }
        }
        out
    }
}

/// Law: decoding undoes encoding for any host stream that is already in
/// host form, that is, one with no CR LF pair left in it.
pub proof fn lemma_netascii_round_trip(s: Seq<u8>)
    requires
        forall|i: int| 0 <= i < s.len() - 1 ==> !(#[trigger] s[i] == 13 && s[i + 1] == 10),
    ensures
        na_decode(na_encode(s)) == s,
    decreases s.len(),
{
    if s.len() == 0 {
        assert(na_decode(na_encode(s)) =~= s);
    } else {
        let rest = s.skip(1);
        assert(forall|i: int|
            0 <= i < rest.len() - 1 ==> !(#[trigger] rest[i] == 13 && rest[i + 1] == 10)) by {
            assert(forall|i: int| 0 <= i < rest.len() ==> rest[i] == s[i + 1]);
        }
        lemma_netascii_round_trip(rest);
        if s[0] == 10 {
            let e = na_encode(rest);
            assert(na_encode(s) == seq![13u8, 10u8] + e);
            assert((seq![13u8, 10u8] + e)[0] == 13 && (seq![13u8, 10u8] + e)[1] == 10);
            assert((seq![13u8, 10u8] + e).skip(2) =~= e);
            assert(na_decode(na_encode(s)) == seq![10u8] + na_decode(e));
            assert(seq![10u8] + rest =~= s);
        } else if s[0] == 13 {
            assert(s.len() >= 2 ==> s[1] != 10);
            let e = na_encode(rest);
            assert(na_encode(s) == seq![13u8, 0u8] + e);
            assert((seq![13u8, 0u8] + e)[0] == 13 && (seq![13u8, 0u8] + e)[1] == 0);
            assert((seq![13u8, 0u8] + e).skip(2) =~= e);
            assert(na_decode(na_encode(s)) == seq![13u8] + na_decode(e));
            assert(seq![13u8] + rest =~= s);
        } else {
            let e = na_encode(rest);
            assert(na_encode(s) == seq![s[0]] + e);
            assert((seq![s[0]] + e)[0] == s[0]);
            assert((seq![s[0]] + e).skip(1) =~= e);
            assert(na_decode(na_encode(s)) == seq![s[0]] + na_decode(e));
            assert(seq![s[0]] + rest =~= s);
        }
    }
}

} // verus!
