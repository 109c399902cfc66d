//! The write-request packet body: a request whose opcode is `Wrq`.

use vstd::prelude::*;

use crate::mode::Mode;
use crate::rq::{parse_rq, rq_wf, rq_wire, Rq, RqView};
use crate::DecodeError;

verus! {

/// A write request: asks the peer to accept the named file.
#[derive(Clone, Debug, PartialEq, Eq)]
pub struct Wrq(Rq);

impl View for Wrq {
    type V = RqView;

    closed spec fn view(&self) -> RqView {
        self.0@
    }
}

impl Wrq {
    /// Build a write request for a filename and transfer mode, with no
    /// negotiable options.
    pub fn new(filename: &str, mode: Mode) -> (r: Wrq)
        ensures
            r@.filename == filename@,
            r@.mode == mode,
            r@.options == Seq::<(Seq<u8>, Seq<u8>)>::empty(),
    {
        let rq = Wrq(Rq { filename: filename.to_owned(), mode, options: Vec::new() });
        proof {
            assert(rq@.options =~= Seq::<(Seq<u8>, Seq<u8>)>::empty());
        }
        rq
    }

    /// Decode a write-request body from the bytes that follow the opcode.
    pub fn from_bytes(bytes: &[u8]) -> (r: Result<Wrq, DecodeError>)
        ensures
            r matches Ok(w) ==> parse_rq(bytes@) == Some(w@) && rq_wf(w@),
            r is Ok <==> parse_rq(bytes@) is Some,
            r is Err ==> r == Err::<Wrq, DecodeError>(DecodeError::InvalidInput),
    {
        match Rq::from_bytes(bytes) {
            Ok(rq) => Ok(Wrq(rq)),
            Err(e) => Err(e),
        }
    }

    /// Encode this write-request body onto the wire.
    pub fn into_bytes(self) -> (r: Vec<u8>)
        ensures
            r@ == rq_wire(self@),
    {
        self.0.into_bytes()
    }
}

} // verus!
