//! The per-transfer state machine: lock-step stop-and-wait with bounded
//! retransmission, duplicate detection and transfer-id checking.
//!
//! The engine is pure: each event method maps the old state to the new
//! state and an action, exactly as the spec-level transition functions
//! say. The caller performs the action (a datagram send), waits, and
//! feeds the next event back. Mode-dependent byte translation is composed
//! outside the engine, over the byte stream it consumes or produces.

use vstd::prelude::*;
use vstd::slice::{slice_subrange, slice_to_vec};

use crate::error_code::ErrorCode;
use crate::packet::{Ack, Data, ErrorPacket, Packet, PacketView};

verus! {

/// Where one transfer stands.
#[derive(Clone, Copy, Debug, PartialEq, Eq, Structural)]
pub enum Phase {
    Transferring,
    Completed,
    Failed,
}

/// What the caller must do after an event: nothing, send to the bound
/// peer, or answer a foreign transfer id without touching the session.
#[derive(Debug, PartialEq, Eq)]
pub enum Action {
    Idle,
    Send(Packet),
    Reply(u16, Packet),
}

/// The mathematical content of an action.
pub enum ActionView {
    Idle,
    Send(PacketView),
    Reply(u16, PacketView),
}

impl View for Action {
    type V = ActionView;

    open spec fn view(&self) -> ActionView {
        match self {
            Action::Idle => ActionView::Idle,
            Action::Send(p) => ActionView::Send(p@),
            Action::Reply(t, p) => ActionView::Reply(*t, p@),
        }
    }
}

/// The next block number, wrapping modulo 65536.
pub open spec fn wrap_inc(b: u16) -> u16 {
    ((b + 1) % 0x10000) as u16
}

/// The previous block number, wrapping modulo 65536.
pub open spec fn wrap_dec(b: u16) -> u16 {
    ((b + 0xFFFF) % 0x10000) as u16
}

/// A packet source is acceptable when no peer transfer id is bound yet or
/// it matches the bound one.
pub open spec fn tid_ok(peer: Option<u16>, tid: u16) -> bool {
    peer is None || peer == Some(tid)
}

/// The answer to a packet from a foreign transfer id: an error to the
/// stranger, the session untouched.
pub open spec fn unknown_tid_reply(tid: u16) -> ActionView {
    ActionView::Reply(tid, PacketView::Error(ErrorCode::UnknownTid, "unknown transfer id"@))
}

fn unknown_tid_packet() -> (p: Packet)
    ensures
        p@ == PacketView::Error(ErrorCode::UnknownTid, "unknown transfer id"@),
{
    Packet::Error(ErrorPacket { code: ErrorCode::UnknownTid, message: "unknown transfer id".to_owned() })
}

fn wrong_block_packet() -> (p: Packet)
    ensures
        p@ == PacketView::Error(ErrorCode::UnknownTid, "unexpected block number"@),
{
    Packet::Error(
        ErrorPacket { code: ErrorCode::UnknownTid, message: "unexpected block number".to_owned() },
    )
}

fn illegal_op_packet() -> (p: Packet)
    ensures
        p@ == PacketView::Error(ErrorCode::IllegalOperation, "illegal operation"@),
{
    Packet::Error(
        ErrorPacket { code: ErrorCode::IllegalOperation, message: "illegal operation".to_owned() },
    )
}

/// Increment a block number, wrapping.
fn next_block(b: u16) -> (r: u16)
    ensures
        r == wrap_inc(b),
{
    if b == 65535 {
        0
    } else {
        b + 1
    }
}

/// Decrement a block number, wrapping.
fn prev_block(b: u16) -> (r: u16)
    ensures
        r == wrap_dec(b),
{
    if b == 0 {
        65535
    } else {
        b - 1
    }
}

// ---------------------------------------------------------------------
// Sender
// ---------------------------------------------------------------------

/// The sending side of one transfer: serves `data` in numbered blocks and
/// advances on each matching acknowledgement.
pub struct Sender {
    pub data: Vec<u8>,
    pub block_size: usize,
    pub retry_budget: u32,
    pub offset: usize,
    pub block: u16,
    pub retries: u32,
    pub peer_tid: Option<u16>,
    pub phase: Phase,
}

/// The mathematical content of a sender.
pub struct SenderView {
    pub data: Seq<u8>,
    pub block_size: usize,
    pub retry_budget: u32,
    pub offset: usize,
    pub block: u16,
    pub retries: u32,
    pub peer_tid: Option<u16>,
    pub phase: Phase,
}

impl View for Sender {
    type V = SenderView;

    open spec fn view(&self) -> SenderView {
        SenderView {
            data: self.data@,
            block_size: self.block_size,
            retry_budget: self.retry_budget,
            offset: self.offset,
            block: self.block,
            retries: self.retries,
            peer_tid: self.peer_tid,
            phase: self.phase,
        }
    }
}

/// A sender whose cursor lies within its data and whose block size is a
/// negotiable one (RFC 2348: 8 through 65464; 512 is the default).
pub open spec fn sender_wf(s: SenderView) -> bool {
    &&& 8 <= s.block_size <= 65464
    &&& s.offset <= s.data.len()
}

/// How many bytes the current block carries: a full block, or the shorter
/// final remainder.
pub open spec fn chunk_len(s: SenderView) -> int {
    if s.data.len() - s.offset < s.block_size {
        s.data.len() - s.offset
    } else {
        s.block_size as int
    }
}

/// The payload of the current block.
pub open spec fn cur_payload(s: SenderView) -> Seq<u8> {
    s.data.subrange(s.offset as int, s.offset + chunk_len(s))
}

/// Transition on an acknowledgement from `tid` for block `block`.
pub open spec fn spec_sender_ack(s: SenderView, tid: u16, block: u16) -> (SenderView, ActionView) {
    if s.phase != Phase::Transferring {
        (s, ActionView::Idle)
    } else if !tid_ok(s.peer_tid, tid) {
        (s, unknown_tid_reply(tid))
    } else {
        let s0 = SenderView { peer_tid: Some(tid), ..s };
        if block == s.block {
            if chunk_len(s) < s.block_size {
                (SenderView { phase: Phase::Completed, ..s0 }, ActionView::Idle)
            } else {
                let s1 = SenderView {
                    offset: (s.offset + s.block_size) as usize,
                    block: wrap_inc(s.block),
                    retries: 0,
                    ..s0
                };
                (s1, ActionView::Send(PacketView::Data(s1.block, cur_payload(s1))))
            }
        } else if block == wrap_dec(s.block) {
            (s0, ActionView::Idle)
        } else {
            (
                SenderView { phase: Phase::Failed, ..s0 },
                ActionView::Send(PacketView::Error(ErrorCode::UnknownTid, "unexpected block number"@)),
            )
        }
    }
}

/// Transition on a receive timeout: retransmit the current block until the
/// retry budget is spent, then fail.
pub open spec fn spec_sender_timeout(s: SenderView) -> (SenderView, ActionView) {
    if s.phase != Phase::Transferring {
        (s, ActionView::Idle)
    } else if s.retries < s.retry_budget {
        (
            SenderView { retries: (s.retries + 1) as u32, ..s },
            ActionView::Send(PacketView::Data(s.block, cur_payload(s))),
        )
    } else {
        (SenderView { phase: Phase::Failed, ..s }, ActionView::Idle)
    }
}

/// Transition on an error packet from `tid`.
pub open spec fn spec_sender_error(s: SenderView, tid: u16) -> (SenderView, ActionView) {
    if s.phase != Phase::Transferring {
        (s, ActionView::Idle)
    } else if !tid_ok(s.peer_tid, tid) {
        (s, unknown_tid_reply(tid))
    } else {
        (SenderView { phase: Phase::Failed, peer_tid: Some(tid), ..s }, ActionView::Idle)
    }
}

/// Transition on a packet of an opcode the sender never expects.
pub open spec fn spec_sender_unexpected(s: SenderView, tid: u16) -> (SenderView, ActionView) {
    if s.phase != Phase::Transferring {
        (s, ActionView::Idle)
    } else if !tid_ok(s.peer_tid, tid) {
        (s, unknown_tid_reply(tid))
    } else {
        (
            SenderView { phase: Phase::Failed, peer_tid: Some(tid), ..s },
            ActionView::Send(PacketView::Error(ErrorCode::IllegalOperation, "illegal operation"@)),
        )
    }
}

impl Sender {
    /// Start a sender for one transfer: block numbering begins at 1.
    pub fn new(data: Vec<u8>, block_size: usize, retry_budget: u32) -> (r: Sender)
        requires
            8 <= block_size <= 65464,
        ensures
            r@ == (SenderView {
                data: data@,
                block_size: block_size,
                retry_budget: retry_budget,
                offset: 0,
                block: 1,
                retries: 0,
                peer_tid: None,
                phase: Phase::Transferring,
            }),
            sender_wf(r@),
    {
        Sender {
            data,
            block_size,
            retry_budget,
            offset: 0,
            block: 1,
            retries: 0,
            peer_tid: None,
            phase: Phase::Transferring,
        }
    }

    /// The data packet for the current block, for its first transmission.
    pub fn current_data(&self) -> (p: Packet)
        requires
            sender_wf(self@),
        ensures
            p@ == PacketView::Data(self@.block, cur_payload(self@)),
    {
        let remaining = self.data.len() - self.offset;
        let len = if remaining < self.block_size {
            remaining
        } else {
            self.block_size
        };
        let payload = slice_to_vec(slice_subrange(self.data.as_slice(), self.offset, self.offset + len));
        Packet::Data(Data { block: self.block, payload })
    }

    /// Handle an acknowledgement for block `block` arriving from `tid`.
    pub fn on_ack(&mut self, tid: u16, block: u16) -> (r: Action)
        requires
            sender_wf(old(self)@),
        ensures
            (final(self)@, r@) == spec_sender_ack(old(self)@, tid, block),
            sender_wf(final(self)@),
    {
        if !matches!(self.phase, Phase::Transferring) {
            return Action::Idle;
        }
        if let Some(t) = self.peer_tid {
            if t != tid {
                return Action::Reply(tid, unknown_tid_packet());
            }
        }
        self.peer_tid = Some(tid);
        if block == self.block {
            let remaining = self.data.len() - self.offset;
            if remaining < self.block_size {
                self.phase = Phase::Completed;
                Action::Idle
            } else {
                self.offset = self.offset + self.block_size;
                self.block = next_block(self.block);
                self.retries = 0;
                Action::Send(self.current_data())
            }
        } else if block == prev_block(self.block) {
            Action::Idle
        } else {
            self.phase = Phase::Failed;
            Action::Send(wrong_block_packet())
        }
    }

    /// Handle a receive timeout.
    pub fn on_timeout(&mut self) -> (r: Action)
        requires
            sender_wf(old(self)@),
        ensures
            (final(self)@, r@) == spec_sender_timeout(old(self)@),
            sender_wf(final(self)@),
    {
        if !matches!(self.phase, Phase::Transferring) {
            return Action::Idle;
        }
        if self.retries < self.retry_budget {
            self.retries = self.retries + 1;
            Action::Send(self.current_data())
        } else {
            self.phase = Phase::Failed;
            Action::Idle
        }
    }

    /// Handle an error packet arriving from `tid`.
    pub fn on_error(&mut self, tid: u16) -> (r: Action)
        requires
            sender_wf(old(self)@),
        ensures
            (final(self)@, r@) == spec_sender_error(old(self)@, tid),
            sender_wf(final(self)@),
    {
        if !matches!(self.phase, Phase::Transferring) {
            return Action::Idle;
        }
        if let Some(t) = self.peer_tid {
            if t != tid {
                return Action::Reply(tid, unknown_tid_packet());
            }
        }
        self.peer_tid = Some(tid);
        self.phase = Phase::Failed;
        Action::Idle
    }

    /// Handle a packet of an opcode the sender never expects from `tid`.
    pub fn on_unexpected(&mut self, tid: u16) -> (r: Action)
        requires
            sender_wf(old(self)@),
        ensures
            (final(self)@, r@) == spec_sender_unexpected(old(self)@, tid),
            sender_wf(final(self)@),
    {
        if !matches!(self.phase, Phase::Transferring) {
            return Action::Idle;
        }
        if let Some(t) = self.peer_tid {
            if t != tid {
                return Action::Reply(tid, unknown_tid_packet());
            }
        }
        self.peer_tid = Some(tid);
        self.phase = Phase::Failed;
        Action::Send(illegal_op_packet())
    }
}

// ---------------------------------------------------------------------
// Receiver
// ---------------------------------------------------------------------

/// The receiving side of one transfer: assembles in-order blocks and
/// acknowledges each, re-acknowledging duplicates without re-appending.
pub struct Receiver {
    pub block_size: usize,
    pub retry_budget: u32,
    pub expected: u16,
    pub output: Vec<u8>,
    pub retries: u32,
    pub peer_tid: Option<u16>,
    pub phase: Phase,
}

/// The mathematical content of a receiver.
pub struct ReceiverView {
    pub block_size: usize,
    pub retry_budget: u32,
    pub expected: u16,
    pub output: Seq<u8>,
    pub retries: u32,
    pub peer_tid: Option<u16>,
    pub phase: Phase,
}

impl View for Receiver {
    type V = ReceiverView;

    open spec fn view(&self) -> ReceiverView {
        ReceiverView {
            block_size: self.block_size,
            retry_budget: self.retry_budget,
            expected: self.expected,
            output: self.output@,
            retries: self.retries,
            peer_tid: self.peer_tid,
            phase: self.phase,
        }
    }
}

/// A receiver with a negotiable block size.
pub open spec fn receiver_wf(s: ReceiverView) -> bool {
    8 <= s.block_size <= 65464
}

/// Transition on a data packet for block `block` with `payload`, arriving
/// from `tid`. A duplicate of the last acknowledged block is acknowledged
/// again without touching the assembled output.
pub open spec fn spec_recv_data(s: ReceiverView, tid: u16, block: u16, payload: Seq<u8>) -> (
    ReceiverView,
    ActionView,
) {
    if s.phase != Phase::Transferring {
        (s, ActionView::Idle)
    } else if !tid_ok(s.peer_tid, tid) {
        (s, unknown_tid_reply(tid))
    } else {
        let s0 = ReceiverView { peer_tid: Some(tid), ..s };
        if payload.len() > s.block_size {
            (
                ReceiverView { phase: Phase::Failed, ..s0 },
                ActionView::Send(
                    PacketView::Error(ErrorCode::IllegalOperation, "illegal operation"@),
                ),
            )
        } else if block == s.expected {
            let s1 = ReceiverView { output: s.output + payload, retries: 0, ..s0 };
            if payload.len() < s.block_size {
                (
                    ReceiverView { phase: Phase::Completed, ..s1 },
                    ActionView::Send(PacketView::Ack(block)),
                )
            } else {
                (
                    ReceiverView { expected: wrap_inc(s.expected), ..s1 },
                    ActionView::Send(PacketView::Ack(block)),
                )
            }
        } else if block == wrap_dec(s.expected) {
            (s0, ActionView::Send(PacketView::Ack(block)))
        } else {
            (
                ReceiverView { phase: Phase::Failed, ..s0 },
                ActionView::Send(
                    PacketView::Error(ErrorCode::UnknownTid, "unexpected block number"@),
                ),
            )
        }
    }
}

/// Transition on a receive timeout: re-acknowledge the last received block
/// until the retry budget is spent, then fail.
pub open spec fn spec_recv_timeout(s: ReceiverView) -> (ReceiverView, ActionView) {
    if s.phase != Phase::Transferring {
        (s, ActionView::Idle)
    } else if s.retries < s.retry_budget {
        (
            ReceiverView { retries: (s.retries + 1) as u32, ..s },
            ActionView::Send(PacketView::Ack(wrap_dec(s.expected))),
        )
    } else {
        (ReceiverView { phase: Phase::Failed, ..s }, ActionView::Idle)
    }
}

/// Transition on a packet of an opcode the receiver never expects.
pub open spec fn spec_recv_unexpected(s: ReceiverView, tid: u16) -> (ReceiverView, ActionView) {
    if s.phase != Phase::Transferring {
        (s, ActionView::Idle)
    } else if !tid_ok(s.peer_tid, tid) {
        (s, unknown_tid_reply(tid))
    } else {
        (
            ReceiverView { phase: Phase::Failed, peer_tid: Some(tid), ..s },
            ActionView::Send(PacketView::Error(ErrorCode::IllegalOperation, "illegal operation"@)),
        )
    }
}

/// Transition on an error packet from `tid`.
pub open spec fn spec_recv_error(s: ReceiverView, tid: u16) -> (ReceiverView, ActionView) {
    if s.phase != Phase::Transferring {
        (s, ActionView::Idle)
    } else if !tid_ok(s.peer_tid, tid) {
        (s, unknown_tid_reply(tid))
    } else {
        (ReceiverView { phase: Phase::Failed, peer_tid: Some(tid), ..s }, ActionView::Idle)
    }
}

impl Receiver {
    /// Start a receiver for one transfer: the first data block is number 1.
    pub fn new(block_size: usize, retry_budget: u32) -> (r: Receiver)
        requires
            8 <= block_size <= 65464,
        ensures
            r@ == (ReceiverView {
                block_size: block_size,
                retry_budget: retry_budget,
                expected: 1,
                output: Seq::<u8>::empty(),
                retries: 0,
                peer_tid: None,
                phase: Phase::Transferring,
            }),
            receiver_wf(r@),
    {
        let r = Receiver {
            block_size,
            retry_budget,
            expected: 1,
            output: Vec::new(),
            retries: 0,
            peer_tid: None,
            phase: Phase::Transferring,
        };
        proof {
            assert(r@.output =~= Seq::<u8>::empty());
        }
        r
    }

    /// Handle a data packet arriving from `tid`.
    pub fn on_data(&mut self, tid: u16, d: &Data) -> (r: Action)
        requires
            receiver_wf(old(self)@),
        ensures
            (final(self)@, r@) == spec_recv_data(old(self)@, tid, d.block, d.payload@),
            receiver_wf(final(self)@),
    {
        if !matches!(self.phase, Phase::Transferring) {
            return Action::Idle;
        }
        if let Some(t) = self.peer_tid {
            if t != tid {
                return Action::Reply(tid, unknown_tid_packet());
            }
        }
        self.peer_tid = Some(tid);
        if d.payload.len() > self.block_size {
            self.phase = Phase::Failed;
            return Action::Send(illegal_op_packet());
        }
        if d.block == self.expected {
            crate::wire::push_bytes(&mut self.output, d.payload.as_slice());
            self.retries = 0;
            if d.payload.len() < self.block_size {
                self.phase = Phase::Completed;
            } else {
                self.expected = next_block(self.expected);
            }
            Action::Send(Packet::Ack(Ack { block: d.block }))
        } else if d.block == prev_block(self.expected) {
            Action::Send(Packet::Ack(Ack { block: d.block }))
        } else {
            self.phase = Phase::Failed;
            Action::Send(wrong_block_packet())
        }
    }

    /// Handle a receive timeout.
    pub fn on_timeout(&mut self) -> (r: Action)
        requires
            receiver_wf(old(self)@),
        ensures
            (final(self)@, r@) == spec_recv_timeout(old(self)@),
            receiver_wf(final(self)@),
    {
        if !matches!(self.phase, Phase::Transferring) {
            return Action::Idle;
        }
        if self.retries < self.retry_budget {
            self.retries = self.retries + 1;
            Action::Send(Packet::Ack(Ack { block: prev_block(self.expected) }))
        } else {
            self.phase = Phase::Failed;
            Action::Idle
        }
    }

    /// Handle an error packet arriving from `tid`.
    pub fn on_error(&mut self, tid: u16) -> (r: Action)
        requires
            receiver_wf(old(self)@),
        ensures
            (final(self)@, r@) == spec_recv_error(old(self)@, tid),
            receiver_wf(final(self)@),
    {
        if !matches!(self.phase, Phase::Transferring) {
            return Action::Idle;
        }
        if let Some(t) = self.peer_tid {
            if t != tid {
                return Action::Reply(tid, unknown_tid_packet());
            }
        }
        self.peer_tid = Some(tid);
        self.phase = Phase::Failed;
        Action::Idle
    }

    /// Handle a packet of an opcode the receiver never expects from `tid`.
    pub fn on_unexpected(&mut self, tid: u16) -> (r: Action)
        requires
            receiver_wf(old(self)@),
        ensures
            (final(self)@, r@) == spec_recv_unexpected(old(self)@, tid),
            receiver_wf(final(self)@),
    {
        if !matches!(self.phase, Phase::Transferring) {
            return Action::Idle;
        }
        if let Some(t) = self.peer_tid {
            if t != tid {
                return Action::Reply(tid, unknown_tid_packet());
            }
        }
        self.peer_tid = Some(tid);
        self.phase = Phase::Failed;
        Action::Send(illegal_op_packet())
    }

    /// The bytes assembled so far.
    pub fn into_output(self) -> (r: Vec<u8>)
        ensures
            r@ == self@.output,
    {
        self.output
    }
}

// ---------------------------------------------------------------------
// Laws
// ---------------------------------------------------------------------

/// Law: a receiver that gets the same full-length in-order data block
/// twice (a lost acknowledgement) appends its payload once, acknowledges
/// it both times, and its state does not change on the duplicate. (A
/// duplicate of the shorter final block also appends nothing, but the
/// session is completed by then and stays silent.)
pub proof fn lemma_receiver_duplicate_data(
    s: ReceiverView,
    tid: u16,
    block: u16,
    payload: Seq<u8>,
)
    requires
        receiver_wf(s),
        s.phase == Phase::Transferring,
        tid_ok(s.peer_tid, tid),
        block == s.expected,
        payload.len() == s.block_size,
    ensures
        ({
            let (s1, a1) = spec_recv_data(s, tid, block, payload);
            let (s2, a2) = spec_recv_data(s1, tid, block, payload);
            &&& a1 == ActionView::Send(PacketView::Ack(block))
            &&& s1.output == s.output + payload
            &&& a2 == ActionView::Send(PacketView::Ack(block))
            &&& s2 == s1
        }),
{
    let (s1, a1) = spec_recv_data(s, tid, block, payload);
    assert(s1.expected == wrap_inc(s.expected));
    assert(wrap_dec(wrap_inc(s.expected)) == s.expected);
}

/// The sender state after `k` consecutive timeouts.
pub open spec fn after_timeouts(s: SenderView, k: nat) -> SenderView
    decreases k,
{
    if k == 0 {
        s
    } else {
        spec_sender_timeout(after_timeouts(s, (k - 1) as nat)).0
    }
}

/// The action of the timeout after `k` earlier ones.
pub open spec fn timeout_output(s: SenderView, k: nat) -> ActionView {
    spec_sender_timeout(after_timeouts(s, k)).1
}

/// While the budget lasts, timeouts only count up the retry counter.
proof fn lemma_after_timeouts(s: SenderView, k: nat)
    requires
        s.phase == Phase::Transferring,
        s.retries + k <= s.retry_budget,
    ensures
        after_timeouts(s, k) == (SenderView { retries: (s.retries + k) as u32, ..s }),
    decreases k,
{
    if k == 0 {
        assert(after_timeouts(s, 0) == s);
        assert(s == (SenderView { retries: (s.retries + 0) as u32, ..s }));
    } else {
        lemma_after_timeouts(s, (k - 1) as nat);
    }
}

/// Law: a sender that hears no acknowledgement fails after exactly its
/// retry budget of retransmissions, and every retransmission carries the
/// same block number and the same payload bytes as the first transmission
/// of that block.
pub proof fn lemma_sender_retry_exhaustion(s: SenderView)
    requires
        sender_wf(s),
        s.phase == Phase::Transferring,
        s.retries == 0,
    ensures
        forall|k: nat|
            k < s.retry_budget ==> #[trigger] timeout_output(s, k) == ActionView::Send(
                PacketView::Data(s.block, cur_payload(s)),
            ),
        timeout_output(s, s.retry_budget as nat) == ActionView::Idle,
        after_timeouts(s, s.retry_budget as nat + 1).phase == Phase::Failed,
        forall|k: nat|
            k <= s.retry_budget ==> #[trigger] after_timeouts(s, k).phase == Phase::Transferring,
{
    assert forall|k: nat| k < s.retry_budget implies #[trigger] timeout_output(s, k)
        == ActionView::Send(PacketView::Data(s.block, cur_payload(s))) by {
        lemma_after_timeouts(s, k);
        let sk = after_timeouts(s, k);
        assert(cur_payload(sk) == cur_payload(s));
    }
    assert forall|k: nat| k <= s.retry_budget implies #[trigger] after_timeouts(s, k).phase
        == Phase::Transferring by {
        lemma_after_timeouts(s, k);
    }
    lemma_after_timeouts(s, s.retry_budget as nat);
    let sb = after_timeouts(s, s.retry_budget as nat);
    assert(spec_sender_timeout(sb).0 == (SenderView { phase: Phase::Failed, ..sb }));
    assert(after_timeouts(s, s.retry_budget as nat + 1) == spec_sender_timeout(
        after_timeouts(s, s.retry_budget as nat),
    ).0);
}

} // verus!
