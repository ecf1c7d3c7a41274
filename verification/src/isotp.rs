//! Portable ISO-TP segmentation and reassembly.

use vstd::prelude::*;
use crate::bytes::{append_bytes, copy_range};
use crate::model::CanId;

verus! {

/// ISO-TP addressing model.
#[derive(Debug, Clone, Copy, PartialEq, Eq)]
pub enum AddressingMode {
    /// Normal 11-bit or 29-bit addressing.
    Normal,
    /// Extended addressing with a leading address byte.
    Extended(u8),
}

/// ISO-TP address pair.
#[derive(Debug, Clone, Copy, PartialEq, Eq)]
pub struct Address {
    /// Request identifier.
    pub tx_id: CanId,
    /// Response identifier.
    pub rx_id: CanId,
    /// Addressing mode.
    pub mode: AddressingMode,
}

/// Flow-control status.
#[derive(Debug, Clone, Copy, PartialEq, Eq)]
pub enum FlowStatus {
    /// Receiver is ready for more data.
    ContinueToSend,
    /// Receiver needs more time.
    Wait,
    /// Receiver aborted the transfer.
    Overflow,
}

/// ISO-TP protocol errors.
#[derive(Debug, Clone, PartialEq, Eq)]
pub enum IsotpError {
    /// Single-frame payload exceeds the available capacity.
    SingleFrameTooLarge,
    /// A consecutive frame was received before a first frame.
    UnexpectedConsecutiveFrame,
    /// Sequence number mismatch.
    SequenceNumberMismatch {
        /// Expected sequence number.
        expected: u8,
        /// Actual sequence number received.
        actual: u8,
    },
    /// Flow control cannot represent the requested block size or separation time.
    InvalidFlowControl,
}

/// Encoded protocol control information and payload.
#[derive(Debug, Clone, PartialEq, Eq)]
pub enum ProtocolDataUnit {
    /// Single-frame transfer.
    SingleFrame(Vec<u8>),
    /// First frame of a multi-frame transfer.
    FirstFrame {
        /// Total transfer length.
        total_len: usize,
        /// First-frame payload bytes.
        payload: Vec<u8>,
    },
    /// Consecutive frame.
    ConsecutiveFrame {
        /// Consecutive-frame sequence number.
        sequence_number: u8,
        /// Consecutive-frame payload bytes.
        payload: Vec<u8>,
    },
    /// Flow-control frame.
    FlowControl {
        /// Receiver status.
        status: FlowStatus,
        /// Requested block size.
        block_size: u8,
        /// Minimum separation time in milliseconds.
        separation_time_ms: u8,
    },
}

/// Mathematical model of a PDU: payloads as byte sequences.
pub enum PduModel {
    /// Single-frame transfer.
    SingleFrame(Seq<u8>),
    /// First frame of a multi-frame transfer.
    FirstFrame { total_len: usize, payload: Seq<u8> },
    /// Consecutive frame.
    ConsecutiveFrame { sequence_number: u8, payload: Seq<u8> },
    /// Flow-control frame.
    FlowControl { status: FlowStatus, block_size: u8, separation_time_ms: u8 },
}

impl View for ProtocolDataUnit {
    type V = PduModel;

    open spec fn view(&self) -> PduModel {
        match self {
            ProtocolDataUnit::SingleFrame(p) => PduModel::SingleFrame(p@),
            ProtocolDataUnit::FirstFrame { total_len, payload } =>
                PduModel::FirstFrame { total_len: *total_len, payload: payload@ },
            ProtocolDataUnit::ConsecutiveFrame { sequence_number, payload } =>
                PduModel::ConsecutiveFrame { sequence_number: *sequence_number, payload: payload@ },
            ProtocolDataUnit::FlowControl { status, block_size, separation_time_ms } =>
                PduModel::FlowControl {
                    status: *status,
                    block_size: *block_size,
                    separation_time_ms: *separation_time_ms,
                },
        }
    }
}

/// `n - k`, or zero when `k > n`.
pub open spec fn sat_sub(n: int, k: int) -> int {
    if n >= k { n - k } else { 0 }
}

/// The nibble that encodes a flow-control status.
pub open spec fn flow_status_nibble(status: FlowStatus) -> u8 {
    match status {
        FlowStatus::ContinueToSend => 0,
        FlowStatus::Wait => 1,
        FlowStatus::Overflow => 2,
    }
}

/// The raw CAN payload of a PDU, or `None` when a single frame does not fit
/// in a frame of `frame_size` bytes.
pub open spec fn encoded_pdu(pdu: PduModel, frame_size: int) -> Option<Seq<u8>> {
    match pdu {
        PduModel::SingleFrame(p) =>
            if p.len() > sat_sub(frame_size, 1) { None } else { Some(seq![p.len() as u8] + p) },
        PduModel::FirstFrame { total_len, payload } =>
            Some(seq![(0x10 + (total_len / 256) % 16) as u8, (total_len % 256) as u8] + payload),
        PduModel::ConsecutiveFrame { sequence_number, payload } =>
            Some(seq![(0x20 + sequence_number % 16) as u8] + payload),
        PduModel::FlowControl { status, block_size, separation_time_ms } =>
            Some(seq![(0x30 + flow_status_nibble(status)) as u8, block_size, separation_time_ms]),
    }
}

impl ProtocolDataUnit {
    /// Encode a PDU into a raw CAN payload using the provided frame size.
    pub fn encode(&self, frame_size: usize) -> (res: Result<Vec<u8>, IsotpError>)
        ensures
            match encoded_pdu(self@, frame_size as int) {
                Some(bytes) => res matches Ok(out) && out@ == bytes,
                None => res == Err::<Vec<u8>, IsotpError>(IsotpError::SingleFrameTooLarge),
            },
    {
        match self {
            ProtocolDataUnit::SingleFrame(payload) => {
                if payload.len() > frame_size.saturating_sub(1) {
                    return Err(IsotpError::SingleFrameTooLarge);
                }
                let mut out: Vec<u8> = Vec::new();
                out.push(payload.len() as u8);
                append_bytes(&mut out, payload.as_slice());
                Ok(out)
            },
            ProtocolDataUnit::FirstFrame { total_len, payload } => {
                let t = *total_len;
                let mut out: Vec<u8> = Vec::new();
                let hi = ((t >> 8) & 0x0f) as u8;
                let lo = (t & 0xff) as u8;
                assert(((t >> 8) & 0x0f) == (t / 256) % 16 && (t & 0xff) == t % 256) by (bit_vector);
                assert(0x10u8 | hi == 0x10 + hi) by (bit_vector) requires hi < 16;
                out.push(0x10u8 | hi);
                out.push(lo);
                append_bytes(&mut out, payload.as_slice());
                Ok(out)
            },
            ProtocolDataUnit::ConsecutiveFrame { sequence_number, payload } => {
                let sn = *sequence_number;
                let mut out: Vec<u8> = Vec::new();
                assert(0x20u8 | (sn & 0x0f) == 0x20 + sn % 16) by (bit_vector);
                out.push(0x20u8 | (sn & 0x0f));
                append_bytes(&mut out, payload.as_slice());
                Ok(out)
            },
            ProtocolDataUnit::FlowControl { status, block_size, separation_time_ms } => {
                let status_nibble: u8 = match status {
                    FlowStatus::ContinueToSend => 0x00,
                    FlowStatus::Wait => 0x01,
                    FlowStatus::Overflow => 0x02,
                };
                assert(0x30u8 | status_nibble == 0x30 + status_nibble) by (bit_vector)
                    requires status_nibble < 3;
                let mut out: Vec<u8> = Vec::new();
                out.push(0x30u8 | status_nibble);
                out.push(*block_size);
                out.push(*separation_time_ms);
                Ok(out)
            },
        }
    }
}

/// The consecutive frames that carry `payload[offset..]`, `capacity` bytes
/// each (the last one possibly shorter), numbered from `seq` modulo 16.
pub open spec fn consecutive_frames(payload: Seq<u8>, offset: int, seq: u8, capacity: int) -> Seq<PduModel>
    decreases payload.len() - offset,
{
    if offset >= payload.len() || capacity <= 0 || offset < 0 {
        Seq::empty()
    } else {
        let end = if payload.len() - offset <= capacity { payload.len() as int } else { offset + capacity };
        seq![PduModel::ConsecutiveFrame { sequence_number: seq, payload: payload.subrange(offset, end) }]
            + consecutive_frames(payload, end, ((seq + 1) % 16) as u8, capacity)
    }
}

/// The PDUs that carry `payload` in frames of `capacity` bytes: one single
/// frame when it fits, else a first frame followed by consecutive frames.
pub open spec fn segmented(payload: Seq<u8>, capacity: int) -> Seq<PduModel> {
    if payload.len() <= sat_sub(capacity, 1) {
        seq![PduModel::SingleFrame(payload)]
    } else {
        let first_end = if payload.len() <= sat_sub(capacity, 2) { payload.len() as int } else { sat_sub(capacity, 2) };
        seq![PduModel::FirstFrame { total_len: payload.len() as usize, payload: payload.take(first_end) }]
            + consecutive_frames(payload, first_end, 1, sat_sub(capacity, 1))
    }
}

/// Segmentation terminates: either everything fits in a single frame, or each
/// consecutive frame carries at least one byte.
pub open spec fn segmentable(payload_len: int, capacity: int) -> bool {
    payload_len <= sat_sub(capacity, 1) || capacity >= 2
}

/// The models of a sequence of PDUs.
pub open spec fn pdu_models(pdus: Seq<ProtocolDataUnit>) -> Seq<PduModel> {
    pdus.map_values(|p: ProtocolDataUnit| p@)
}

/// Split a payload into ISO-TP PDUs for a given frame payload capacity.
pub fn segment(payload: &[u8], frame_payload_capacity: usize) -> (res: Result<Vec<ProtocolDataUnit>, IsotpError>)
    requires
        segmentable(payload@.len() as int, frame_payload_capacity as int),
    ensures
        res matches Ok(pdus) && pdu_models(pdus@) == segmented(payload@, frame_payload_capacity as int),
{
    let len = payload.len();
    if len <= frame_payload_capacity.saturating_sub(1) {
        let mut pdus: Vec<ProtocolDataUnit> = Vec::new();
        pdus.push(ProtocolDataUnit::SingleFrame(copy_range(payload, 0, len)));
        assert(payload@.subrange(0, len as int) == payload@);
        assert(pdu_models(pdus@) =~= segmented(payload@, frame_payload_capacity as int));
        return Ok(pdus);
    }
    let first_capacity = frame_payload_capacity.saturating_sub(2);
    let consecutive_capacity = frame_payload_capacity.saturating_sub(1);
    let first_end = if len <= first_capacity { len } else { first_capacity };
    let mut pdus: Vec<ProtocolDataUnit> = Vec::new();
    pdus.push(ProtocolDataUnit::FirstFrame { total_len: len, payload: copy_range(payload, 0, first_end) });
    let mut offset = first_end;
    let mut seq: u8 = 1;
    let ghost head = seq![PduModel::FirstFrame { total_len: len, payload: payload@.take(first_end as int) }];
    assert(pdu_models(pdus@) =~= head);
    while offset < len
        invariant
            len == payload@.len(),
            first_end <= offset <= len,
            consecutive_capacity >= 1,
            consecutive_capacity == sat_sub(frame_payload_capacity as int, 1),
            seq < 16,
            head + consecutive_frames(payload@, first_end as int, 1, consecutive_capacity as int)
                == pdu_models(pdus@) + consecutive_frames(payload@, offset as int, seq, consecutive_capacity as int),
        decreases len - offset,
    {
        let end = if len - offset <= consecutive_capacity { len } else { offset + consecutive_capacity };
        let ghost old_models = pdu_models(pdus@);
        let chunk = copy_range(payload, offset, end);
        pdus.push(ProtocolDataUnit::ConsecutiveFrame { sequence_number: seq, payload: chunk });
        assert(pdu_models(pdus@) =~= old_models.push(PduModel::ConsecutiveFrame { sequence_number: seq, payload: payload@.subrange(offset as int, end as int) }));
        let bumped: u8 = seq + 1;
        let next: u8 = bumped & 0x0f;
        assert(bumped & 0x0f == bumped % 16) by (bit_vector);
        assert(consecutive_frames(payload@, offset as int, seq, consecutive_capacity as int)
            == seq![PduModel::ConsecutiveFrame { sequence_number: seq, payload: payload@.subrange(offset as int, end as int) }]
                + consecutive_frames(payload@, end as int, next, consecutive_capacity as int));
        assert(pdu_models(pdus@) + consecutive_frames(payload@, end as int, next, consecutive_capacity as int)
            =~= old_models + consecutive_frames(payload@, offset as int, seq, consecutive_capacity as int));
        offset = end;
        seq = next;
    }
    assert(consecutive_frames(payload@, offset as int, seq, consecutive_capacity as int) =~= Seq::<PduModel>::empty());
    assert(pdu_models(pdus@) + Seq::<PduModel>::empty() =~= pdu_models(pdus@));
    Ok(pdus)
}


/// Model of a reassembler: the announced total length of the transfer in
/// progress, the next expected sequence number, and the bytes buffered so far.
pub struct ReassemblyState {
    /// Total length announced by the last first frame, while a transfer is open.
    pub total_len: Option<usize>,
    /// Sequence number the next consecutive frame must carry.
    pub next_seq: u8,
    /// Bytes received so far.
    pub buffer: Seq<u8>,
}

/// Hand out a completed payload: the first `total_len` buffered bytes, once
/// that many are present; the rest stays buffered and the transfer closes.
pub open spec fn take_completed(st: ReassemblyState) -> (ReassemblyState, Option<Seq<u8>>) {
    match st.total_len {
        None => (st, None),
        Some(total) =>
            if st.buffer.len() < total {
                (st, None)
            } else {
                (ReassemblyState { total_len: None, next_seq: st.next_seq, buffer: st.buffer.skip(total as int) },
                 Some(st.buffer.take(total as int)))
            },
    }
}

/// The effect of ingesting one PDU: the next state and what is returned.
pub open spec fn ingest_step(st: ReassemblyState, pdu: PduModel) -> (ReassemblyState, Result<Option<Seq<u8>>, IsotpError>) {
    match pdu {
        PduModel::SingleFrame(p) => (st, Ok(Some(p))),
        PduModel::FirstFrame { total_len, payload } => {
            let (next, out) = take_completed(ReassemblyState { total_len: Some(total_len), next_seq: 1, buffer: payload });
            (next, Ok(out))
        },
        PduModel::ConsecutiveFrame { sequence_number, payload } =>
            if st.total_len is None {
                (st, Err(IsotpError::UnexpectedConsecutiveFrame))
            } else if sequence_number != st.next_seq {
                (st, Err(IsotpError::SequenceNumberMismatch { expected: st.next_seq, actual: sequence_number }))
            } else {
                let (next, out) = take_completed(ReassemblyState {
                    total_len: st.total_len,
                    next_seq: ((st.next_seq + 1) % 16) as u8,
                    buffer: st.buffer + payload,
                });
                (next, Ok(out))
            },
        PduModel::FlowControl { .. } => (st, Ok(None)),
    }
}

/// A payload that ingesting a PDU hands back is either a single frame's own
/// payload, or completes the transfer that a first frame opened: it is then
/// exactly as long as the length that first frame announced, it is the first
/// bytes received since that first frame, and the transfer is closed.
pub proof fn lemma_completed_payload(st: ReassemblyState, pdu: PduModel)
    ensures
        ingest_step(st, pdu).1 matches Ok(Some(p)) ==> match pdu {
            PduModel::SingleFrame(q) => p == q,
            PduModel::FirstFrame { total_len, payload } => {
                &&& p.len() == total_len
                &&& p == payload.subrange(0, total_len as int)
                &&& ingest_step(st, pdu).0.total_len is None
            },
            PduModel::ConsecutiveFrame { payload, .. } => {
                &&& st.total_len is Some
                &&& p.len() == st.total_len.unwrap()
                &&& p == (st.buffer + payload).subrange(0, st.total_len.unwrap() as int)
                &&& ingest_step(st, pdu).0.total_len is None
            },
            PduModel::FlowControl { .. } => false,
        },
        ingest_step(st, pdu).1 matches Ok(None) ==> match pdu {
            PduModel::FirstFrame { total_len, payload } => payload.len() < total_len,
            PduModel::ConsecutiveFrame { payload, .. } =>
                st.total_len is Some && (st.buffer + payload).len() < st.total_len.unwrap(),
            _ => true,
        },
{
}

/// Reassembles ISO-TP PDUs into full payloads.
#[derive(Debug)]
pub struct Reassembler {
    total_len: Option<usize>,
    next_seq: u8,
    buffer: Vec<u8>,
}

impl View for Reassembler {
    type V = ReassemblyState;

    closed spec fn view(&self) -> ReassemblyState {
        ReassemblyState { total_len: self.total_len, next_seq: self.next_seq, buffer: self.buffer@ }
    }
}

impl Default for Reassembler {
    /// An idle reassembler with nothing buffered.
    fn default() -> (r: Reassembler)
        ensures
            r@ == (ReassemblyState { total_len: None, next_seq: 0, buffer: Seq::empty() }),
    {
        Reassembler { total_len: None, next_seq: 0, buffer: Vec::new() }
    }
}

impl Reassembler {
    /// Ingest one PDU. Returns a completed payload when the transfer finishes.
    pub fn ingest(&mut self, pdu: &ProtocolDataUnit) -> (res: Result<Option<Vec<u8>>, IsotpError>)
        ensures
            final(self)@ == ingest_step(old(self)@, pdu@).0,
            match (res, ingest_step(old(self)@, pdu@).1) {
                (Ok(Some(out)), Ok(Some(expected))) => out@ == expected,
                (Ok(None), Ok(None)) => true,
                (Err(e), Err(expected)) => e == expected,
                _ => false,
            },
    {
        match pdu {
            ProtocolDataUnit::SingleFrame(payload) => Ok(Some(copy_range(payload.as_slice(), 0, payload.len()))),
            ProtocolDataUnit::FirstFrame { total_len, payload } => {
                self.total_len = Some(*total_len);
                self.next_seq = 1;
                self.buffer.clear();
                append_bytes(&mut self.buffer, payload.as_slice());
                Ok(self.take_if_complete())
            },
            ProtocolDataUnit::ConsecutiveFrame { sequence_number, payload } => {
                if self.total_len.is_none() {
                    return Err(IsotpError::UnexpectedConsecutiveFrame);
                }
                if *sequence_number != self.next_seq {
                    return Err(IsotpError::SequenceNumberMismatch { expected: self.next_seq, actual: *sequence_number });
                }
                append_bytes(&mut self.buffer, payload.as_slice());
                let current: u8 = self.next_seq;
                let bumped: u8 = current.wrapping_add(1);
                assert(bumped == (current + 1) % 256);
                assert(bumped & 0x0f == bumped % 16) by (bit_vector);
                assert(bumped % 16 == (current + 1) % 16) by (nonlinear_arith)
                    requires bumped == (current + 1) % 256;
                self.next_seq = bumped & 0x0f;
                Ok(self.take_if_complete())
            },
            ProtocolDataUnit::FlowControl { .. } => Ok(None),
        }
    }

    fn take_if_complete(&mut self) -> (res: Option<Vec<u8>>)
        ensures
            final(self)@ == take_completed(old(self)@).0,
            match (res, take_completed(old(self)@).1) {
                (Some(out), Some(expected)) => out@ == expected,
                (None, None) => true,
                _ => false,
            },
    {
        let total = match self.total_len {
            Some(total) => total,
            None => return None,
        };
        if self.buffer.len() < total {
            return None;
        }
        let mut payload = self.buffer.split_off(total);
        std::mem::swap(&mut payload, &mut self.buffer);
        self.total_len = None;
        Some(payload)
    }
}


/// Ingest a sequence of PDUs in order: the final state and each returned value.
pub open spec fn ingest_all(st: ReassemblyState, pdus: Seq<PduModel>) -> (ReassemblyState, Seq<Result<Option<Seq<u8>>, IsotpError>>)
    decreases pdus.len(),
{
    if pdus.len() == 0 {
        (st, Seq::empty())
    } else {
        let (next, out) = ingest_step(st, pdus[0]);
        let (last, outs) = ingest_all(next, pdus.drop_first());
        (last, seq![out] + outs)
    }
}

/// Every returned value but the last is "not yet complete", and the last one
/// is the complete payload.
pub open spec fn completes_with(outs: Seq<Result<Option<Seq<u8>>, IsotpError>>, payload: Seq<u8>) -> bool {
    &&& outs.len() >= 1
    &&& outs.last() == Ok::<Option<Seq<u8>>, IsotpError>(Some(payload))
    &&& forall|i: int| 0 <= i < outs.len() - 1 ==> outs[i] == Ok::<Option<Seq<u8>>, IsotpError>(None)
}

proof fn lemma_consecutive_frames_complete(payload: Seq<u8>, offset: int, seq: u8, capacity: int, st: ReassemblyState)
    requires
        0 <= offset < payload.len(),
        payload.len() <= usize::MAX,
        capacity >= 1,
        st.total_len == Some(payload.len() as usize),
        st.next_seq == seq,
        st.buffer == payload.take(offset),
    ensures
        completes_with(ingest_all(st, consecutive_frames(payload, offset, seq, capacity)).1, payload),
    decreases payload.len() - offset,
{
    let frames = consecutive_frames(payload, offset, seq, capacity);
    let end = if payload.len() - offset <= capacity { payload.len() as int } else { offset + capacity };
    let next_seq = ((seq + 1) % 16) as u8;
    let head = PduModel::ConsecutiveFrame { sequence_number: seq, payload: payload.subrange(offset, end) };
    let rest = consecutive_frames(payload, end, next_seq, capacity);
    assert(frames == seq![head] + rest);
    assert(frames[0] == head);
    assert(frames.drop_first() =~= rest);
    assert(st.buffer + payload.subrange(offset, end) =~= payload.take(end));
    let (s1, r1) = ingest_step(st, head);
    if end == payload.len() {
        assert(payload.take(end) =~= payload);
        assert(r1 == Ok::<Option<Seq<u8>>, IsotpError>(Some(payload)));
        assert(rest =~= Seq::<PduModel>::empty());
        let outs = ingest_all(st, frames).1;
        assert(outs =~= seq![r1]);
    } else {
        assert(r1 == Ok::<Option<Seq<u8>>, IsotpError>(None));
        assert(s1 == ReassemblyState { total_len: st.total_len, next_seq: next_seq, buffer: payload.take(end) });
        lemma_consecutive_frames_complete(payload, end, next_seq, capacity, s1);
        let tail = ingest_all(s1, rest).1;
        let outs = ingest_all(st, frames).1;
        assert(outs == seq![r1] + tail);
        assert forall|i: int| 0 <= i < outs.len() - 1 implies outs[i] == Ok::<Option<Seq<u8>>, IsotpError>(None) by {
            if i > 0 {
                assert(outs[i] == tail[i - 1]);
            }
        }
    }
}

/// Round trip: feeding the PDUs that `segment` produces for a payload, in
/// order, into a reassembler in any state reports "not yet complete" for every
/// PDU but the last and hands back exactly the original payload at the last.
pub proof fn lemma_segment_then_reassemble(payload: Seq<u8>, capacity: int, st: ReassemblyState)
    requires
        segmentable(payload.len() as int, capacity),
        payload.len() <= usize::MAX,
    ensures
        completes_with(ingest_all(st, segmented(payload, capacity)).1, payload),
        ingest_all(st, segmented(payload, capacity)).1.len() == segmented(payload, capacity).len(),
{
    lemma_ingest_all_len(st, segmented(payload, capacity));
    let pdus = segmented(payload, capacity);
    if payload.len() <= sat_sub(capacity, 1) {
        assert(pdus.drop_first() =~= Seq::<PduModel>::empty());
        assert(ingest_all(st, pdus).1 =~= seq![Ok::<Option<Seq<u8>>, IsotpError>(Some(payload))]);
    } else {
        let first_end = if payload.len() <= sat_sub(capacity, 2) { payload.len() as int } else { sat_sub(capacity, 2) };
        let first = PduModel::FirstFrame { total_len: payload.len() as usize, payload: payload.take(first_end) };
        let rest = consecutive_frames(payload, first_end, 1, sat_sub(capacity, 1));
        assert(pdus[0] == first);
        assert(pdus.drop_first() =~= rest);
        let (s1, r1) = ingest_step(st, first);
        assert(first_end < payload.len());
        assert(r1 == Ok::<Option<Seq<u8>>, IsotpError>(None));
        assert(s1 == ReassemblyState { total_len: Some(payload.len() as usize), next_seq: 1, buffer: payload.take(first_end) });
        lemma_consecutive_frames_complete(payload, first_end, 1, sat_sub(capacity, 1), s1);
        let tail = ingest_all(s1, rest).1;
        let outs = ingest_all(st, pdus).1;
        assert(outs == seq![r1] + tail);
        assert forall|i: int| 0 <= i < outs.len() - 1 implies outs[i] == Ok::<Option<Seq<u8>>, IsotpError>(None) by {
            if i > 0 {
                assert(outs[i] == tail[i - 1]);
            }
        }
    }
}

/// Ingesting a sequence of PDUs returns one value per PDU.
pub proof fn lemma_ingest_all_len(st: ReassemblyState, pdus: Seq<PduModel>)
    ensures
        ingest_all(st, pdus).1.len() == pdus.len(),
    decreases pdus.len(),
{
    if pdus.len() > 0 {
        lemma_ingest_all_len(ingest_step(st, pdus[0]).0, pdus.drop_first());
    }
}

} // verus!
