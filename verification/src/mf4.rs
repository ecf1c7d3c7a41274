//! The fixed 116-byte capture record of the MF4 export, and the assembly of
//! the capture-focused MF4 file around it.

use vstd::prelude::*;
use crate::bytes::{append_bytes, copy_range, padded, push_padded, min_of};
use crate::codec::{note_if, notes_view, ns_to_timestamp, push_note, timestamp_ns, timestamp_to_ns, CodecError, FidelityNote, NoteView};
use crate::model::{
    max_payload, option_text, CanFrame, CanId, CaptureEvent, CoreError, Direction, EventView, FdFlags, FrameClass,
    FrameView, InterfaceRef, Timestamp, MAX_EXTENDED_ID, MAX_STANDARD_ID, NANOS_PER_SECOND,
};
use crate::text::{text_from_utf8_lossy, utf8_lossy};
use crate::codec::{ReadReport, WriteReport};
use mf4_rs::api::mdf::MDF;
use crate::mf4_blocks::{
    block_header, block_header_bytes, channel_block, channel_bytes, channel_group_block, channel_group_bytes,
    data_group_block, data_group_bytes, header_block, header_block_bytes, identification_block,
    identification_bytes, text_block, text_block_bytes, text_block_len,
};

verus! {

/// Size of one capture record.
pub const RECORD_SIZE: usize = 116;

/// Bytes reserved for the interface name in a record.
pub const INTERFACE_NAME_LEN: usize = 32;

/// Record flag: the frame was transmitted.
pub const FLAG_DIRECTION_TX: u16 = 0x0001;
/// Record flag: remote frame.
pub const FLAG_REMOTE: u16 = 0x0002;
/// Record flag: error frame.
pub const FLAG_ERROR: u16 = 0x0004;
/// Record flag: CAN FD frame.
pub const FLAG_FD: u16 = 0x0008;
/// Record flag: CAN FD bit rate switch.
pub const FLAG_BRS: u16 = 0x0010;
/// Record flag: CAN FD error state indicator.
pub const FLAG_ESI: u16 = 0x0020;
/// Record flag: 29-bit identifier.
pub const FLAG_EXTENDED_ID: u16 = 0x0040;

/// `flags` with `bit` set when `cond` holds.
pub open spec fn set_if(flags: u16, cond: bool, bit: u16) -> u16 {
    if cond { flags | bit } else { flags }
}

/// The flag word that a record carries for an event.
pub open spec fn record_flags(e: EventView) -> u16 {
    let f = set_if(0, e.direction == Direction::Tx, FLAG_DIRECTION_TX);
    let f = set_if(f, e.frame.class == FrameClass::Remote, FLAG_REMOTE);
    let f = set_if(f, e.frame.class == FrameClass::Error, FLAG_ERROR);
    let f = set_if(f, e.frame.fd, FLAG_FD);
    let f = set_if(f, e.frame.fd_flags.bit_rate_switch, FLAG_BRS);
    let f = set_if(f, e.frame.fd_flags.error_state_indicator, FLAG_ESI);
    set_if(f, e.frame.id.spec_extended(), FLAG_EXTENDED_ID)
}

/// The UTF-8 bytes of the event's interface name, empty when there is none.
pub open spec fn name_bytes(e: EventView) -> Seq<u8> {
    match e.name {
        Some(n) => vstd::utf8::encode_utf8(n),
        None => Seq::empty(),
    }
}

/// The record written for an event: timestamp, identifier, flags, interface
/// index (0 when unknown), payload length capped at 64, a zero byte, the
/// interface name in 32 bytes and the payload in 64 bytes, all integers
/// little-endian.
pub open spec fn record_bytes(e: EventView) -> Seq<u8> {
    vstd::bytes::spec_u64_to_le_bytes(timestamp_ns(e.timestamp) as u64)
        + vstd::bytes::spec_u32_to_le_bytes(e.frame.id.spec_raw())
        + vstd::bytes::spec_u16_to_le_bytes(record_flags(e))
        + vstd::bytes::spec_u32_to_le_bytes(match e.index { Some(i) => i, None => 0 })
        + seq![min_of(e.frame.data.len() as int, 64) as u8, 0u8]
        + padded(name_bytes(e), INTERFACE_NAME_LEN as nat)
        + padded(e.frame.data, 64)
}

/// The interface name cannot be read back from its field: it is empty, or
/// it holds a zero byte, where reading stops.
pub open spec fn name_lost(e: EventView) -> bool {
    e.name matches Some(n) && (n.len() == 0 || name_bytes(e).contains(0u8))
}

/// The notes that writing an event's record adds, one for each part of the
/// event that the record cannot give back: a timestamp before the epoch
/// (written as zero), an unknown interface index (written as 0), an
/// interface name cut to 32 bytes, an interface name that is empty or holds
/// a zero byte, and dropped annotations.
pub open spec fn record_notes(e: EventView, index: usize) -> Seq<NoteView> {
    note_if(e.timestamp.seconds < 0, index, "timestamp"@,
        "MF4 export writes timestamps before the epoch as zero"@)
    + note_if(e.index is None, index, "interface_index"@,
        "MF4 export writes an unknown interface index as 0"@)
    + note_if(name_bytes(e).len() > INTERFACE_NAME_LEN, index, "interface_name"@,
        "MF4 export truncated interface name to 32 bytes"@)
    + note_if(name_lost(e), index, "interface_name"@,
        "MF4 export cannot keep an empty interface name or the text after a zero byte"@)
    + note_if(e.annotations.len() > 0, index, "annotations"@,
        "MF4 export omits structured annotations in the bootstrap layout"@)
}

/// Whether some byte is zero.
fn has_zero_byte(bytes: &[u8]) -> (r: bool)
    ensures
        r == bytes@.contains(0u8),
{
    let mut i: usize = 0;
    while i < bytes.len()
        invariant
            i <= bytes@.len(),
            forall|j: int| 0 <= j < i ==> bytes@[j] != 0u8,
        decreases bytes@.len() - i,
    {
        if bytes[i] == 0 {
            assert(bytes@[i as int] == 0u8);
            return true;
        }
        i = i + 1;
    }
    false
}

/// Add the notes on what an event's record cannot hold.
fn push_record_notes(event: &CaptureEvent, name_cut: bool, notes: &mut Vec<FidelityNote>, index: usize)
    requires
        name_cut == (name_bytes(event@).len() > INTERFACE_NAME_LEN),
    ensures
        notes_view(final(notes)@) == notes_view(old(notes)@) + record_notes(event@, index),
{
    let lost: bool = match &event.interface.name {
        Some(name) => name.as_str().is_empty() || has_zero_byte(name.as_str().as_bytes()),
        None => false,
    };
    assert(lost == name_lost(event@));
    let ghost n0 = notes_view(notes@);
    if event.timestamp.seconds < 0 {
        push_note(notes, FidelityNote {
            event_index: Some(index),
            field: "timestamp",
            detail: "MF4 export writes timestamps before the epoch as zero".to_owned(),
        });
    }
    let ghost n1 = notes_view(notes@);
    if event.interface.index.is_none() {
        push_note(notes, FidelityNote {
            event_index: Some(index),
            field: "interface_index",
            detail: "MF4 export writes an unknown interface index as 0".to_owned(),
        });
    }
    let ghost n2 = notes_view(notes@);
    if name_cut {
        push_note(notes, FidelityNote {
            event_index: Some(index),
            field: "interface_name",
            detail: "MF4 export truncated interface name to 32 bytes".to_owned(),
        });
    }
    let ghost n3 = notes_view(notes@);
    if lost {
        push_note(notes, FidelityNote {
            event_index: Some(index),
            field: "interface_name",
            detail: "MF4 export cannot keep an empty interface name or the text after a zero byte".to_owned(),
        });
    }
    let ghost mid = notes_view(notes@);
    if event.annotations.len() > 0 {
        push_note(notes, FidelityNote {
            event_index: Some(index),
            field: "annotations",
            detail: "MF4 export omits structured annotations in the bootstrap layout".to_owned(),
        });
    }
    proof {
        assert(notes_view(notes@) =~= notes_view(old(notes)@) + record_notes(event@, index));
    }
}

/// Encode one event as a capture record, adding the notes on what the
/// record cannot hold.
pub fn encode_record(event: &CaptureEvent, notes: &mut Vec<FidelityNote>, index: usize) -> (record: Vec<u8>)
    requires
        timestamp_ns(event.timestamp) <= u64::MAX,
    ensures
        record@ == record_bytes(event@),
        record@.len() == RECORD_SIZE,
        notes_view(final(notes)@) == notes_view(old(notes)@) + record_notes(event@, index),
{
    let mut record: Vec<u8> = vstd::bytes::u64_to_le_bytes(timestamp_to_ns(event.timestamp));
    let id_bytes = vstd::bytes::u32_to_le_bytes(event.frame.id.raw());
    append_bytes(&mut record, id_bytes.as_slice());

    let mut flags: u16 = 0;
    if matches!(event.direction, Direction::Tx) {
        flags = flags | FLAG_DIRECTION_TX;
    }
    if matches!(event.frame.class, FrameClass::Remote) {
        flags = flags | FLAG_REMOTE;
    }
    if matches!(event.frame.class, FrameClass::Error) {
        flags = flags | FLAG_ERROR;
    }
    if event.frame.fd {
        flags = flags | FLAG_FD;
    }
    if event.frame.fd_flags.bit_rate_switch {
        flags = flags | FLAG_BRS;
    }
    if event.frame.fd_flags.error_state_indicator {
        flags = flags | FLAG_ESI;
    }
    if event.frame.id.is_extended() {
        flags = flags | FLAG_EXTENDED_ID;
    }
    assert(flags == record_flags(event@));
    let flag_bytes = vstd::bytes::u16_to_le_bytes(flags);
    append_bytes(&mut record, flag_bytes.as_slice());

    let ifindex: u32 = match event.interface.index {
        Some(i) => i,
        None => 0,
    };
    let index_bytes = vstd::bytes::u32_to_le_bytes(ifindex);
    append_bytes(&mut record, index_bytes.as_slice());

    let data_len: usize = if event.frame.data.len() < 64 { event.frame.data.len() } else { 64 };
    record.push(data_len as u8);
    record.push(0u8);

    let ghost before_name = record@;
    let mut name_len: usize = 0;
    match &event.interface.name {
        Some(name) => {
            let bytes = name.as_str().as_bytes();
            name_len = bytes.len();
            push_padded(&mut record, bytes, INTERFACE_NAME_LEN);
        },
        None => {
            let empty: Vec<u8> = Vec::new();
            push_padded(&mut record, empty.as_slice(), INTERFACE_NAME_LEN);
            assert(empty@ =~= name_bytes(event@));
        },
    }
    assert(name_len == name_bytes(event@).len());
    push_padded(&mut record, event.frame.data.as_slice(), 64);

    push_record_notes(event, name_len > INTERFACE_NAME_LEN, notes, index);
    proof {
        vstd::bytes::lemma_auto_spec_u64_to_from_le_bytes();
        vstd::bytes::lemma_auto_spec_u32_to_from_le_bytes();
        vstd::bytes::lemma_auto_spec_u16_to_from_le_bytes();
        assert(record@ =~= record_bytes(event@));
    }
    record
}

/// Index of the first zero byte of `raw` at or after `i`, or the length of
/// `raw` when there is none.
pub open spec fn first_zero_from(raw: Seq<u8>, i: int) -> int
    decreases raw.len() - i,
{
    if i >= raw.len() {
        raw.len() as int
    } else if raw[i] == 0 {
        i
    } else {
        first_zero_from(raw, i + 1)
    }
}

/// What a lossy UTF-8 reading makes of bytes: the text they encode when
/// they are valid UTF-8.
pub open spec fn lossy_text(bytes: Seq<u8>) -> Seq<char> {
    if vstd::utf8::valid_utf8(bytes) {
        vstd::utf8::decode_utf8(bytes)
    } else {
        utf8_lossy(bytes)
    }
}

/// The timestamp field of a record, in nanoseconds.
pub open spec fn record_ns(r: Seq<u8>) -> u64 {
    vstd::bytes::spec_u64_from_le_bytes(r.subrange(0, 8))
}

/// The identifier field of a record.
pub open spec fn record_raw_id(r: Seq<u8>) -> u32 {
    vstd::bytes::spec_u32_from_le_bytes(r.subrange(8, 12))
}

/// The flag field of a record.
pub open spec fn record_flag_word(r: Seq<u8>) -> u16 {
    vstd::bytes::spec_u16_from_le_bytes(r.subrange(12, 14))
}

/// The interface index field of a record.
pub open spec fn record_ifindex(r: Seq<u8>) -> u32 {
    vstd::bytes::spec_u32_from_le_bytes(r.subrange(14, 18))
}

/// The payload length a record declares, capped at 64.
pub open spec fn record_data_len(r: Seq<u8>) -> int {
    min_of(r[18] as int, 64)
}

/// The interface name a record carries: the text before the first zero
/// byte of its name field, absent when that text is empty.
pub open spec fn record_name(r: Seq<u8>) -> Option<Seq<char>> {
    let raw = r.subrange(20, 52);
    let text = lossy_text(raw.subrange(0, first_zero_from(raw, 0)));
    if text.len() == 0 { None } else { Some(text) }
}

/// The identifier a record decodes to, when it is valid for its format.
pub open spec fn record_id(r: Seq<u8>) -> Option<CanId> {
    let raw = record_raw_id(r);
    if record_flag_word(r) & FLAG_EXTENDED_ID != 0 {
        if raw <= MAX_EXTENDED_ID { Some(CanId::spec_new(raw, true)) } else { None }
    } else {
        if (raw as u16) <= MAX_STANDARD_ID { Some(CanId::spec_new((raw as u16) as u32, false)) } else { None }
    }
}

/// The frame class a flag word selects; error wins over remote.
pub open spec fn flags_class(flags: u16) -> FrameClass {
    if flags & FLAG_ERROR != 0 {
        FrameClass::Error
    } else if flags & FLAG_REMOTE != 0 {
        FrameClass::Remote
    } else {
        FrameClass::Data
    }
}

/// The frame a record decodes to, when its identifier is valid and its
/// payload fits its frame kind.
pub open spec fn record_frame(r: Seq<u8>) -> Option<FrameView> {
    let flags = record_flag_word(r);
    let fd = flags & FLAG_FD != 0;
    let data = r.subrange(52, 52 + record_data_len(r));
    match record_id(r) {
        Some(id) => if data.len() <= max_payload(fd) {
            Some(FrameView {
                id,
                class: flags_class(flags),
                data,
                fd,
                fd_flags: FdFlags {
                    bit_rate_switch: flags & FLAG_BRS != 0,
                    error_state_indicator: flags & FLAG_ESI != 0,
                },
            })
        } else {
            None
        },
        None => None,
    }
}

/// The event a record decodes to, when its frame is valid.
pub open spec fn record_event(r: Seq<u8>) -> Option<EventView> {
    let ns = record_ns(r);
    match record_frame(r) {
        Some(frame) => Some(EventView {
            timestamp: Timestamp {
                seconds: (ns / NANOS_PER_SECOND as u64) as i64,
                nanos: (ns % NANOS_PER_SECOND as u64) as u32,
            },
            name: record_name(r),
            index: Some(record_ifindex(r)),
            direction: if record_flag_word(r) & FLAG_DIRECTION_TX != 0 { Direction::Tx } else { Direction::Rx },
            frame,
            annotations: Seq::empty(),
        }),
        None => None,
    }
}

/// Decode one capture record back into an event.
pub fn decode_record(record: &[u8]) -> (r: Result<CaptureEvent, CodecError>)
    requires
        record@.len() >= RECORD_SIZE,
    ensures
        r is Ok <==> record_event(record@) is Some,
        r matches Ok(e) ==> record_event(record@) == Some(e@),
        r matches Err(err) ==> err matches CodecError::Core(c) && (
            if record_id(record@) is None {
                c matches CoreError::InvalidCanId { value, .. } && value == (
                    if record_flag_word(record@) & FLAG_EXTENDED_ID != 0 { record_raw_id(record@) }
                    else { (record_raw_id(record@) as u16) as u32 })
            } else {
                c matches CoreError::InvalidPayloadLength { length, max, .. }
                    && length == record_data_len(record@) && max == 8
            }),
{
    let ns = vstd::bytes::u64_from_le_bytes(&record[0..8]);
    let raw_id = vstd::bytes::u32_from_le_bytes(&record[8..12]);
    let flags = vstd::bytes::u16_from_le_bytes(&record[12..14]);
    let ifindex = vstd::bytes::u32_from_le_bytes(&record[14..18]);
    let data_len: usize = if record[18] < 64 { record[18] as usize } else { 64 };

    let raw_name = &record[20..52];
    let mut end: usize = 0;
    while end < 32 && raw_name[end] != 0
        invariant
            raw_name@.len() == 32,
            end <= 32,
            first_zero_from(raw_name@, 0) == first_zero_from(raw_name@, end as int),
        decreases 32 - end,
    {
        end = end + 1;
    }
    let text = text_from_utf8_lossy(&raw_name[0..end]);
    let name = if text.as_str().is_empty() { None } else { Some(text) };
    let data = copy_range(record, 52, 52 + data_len);

    let id = if flags & FLAG_EXTENDED_ID != 0 {
        match CanId::extended(raw_id) {
            Ok(id) => id,
            Err(e) => return Err(CodecError::Core(e)),
        }
    } else {
        match CanId::standard(raw_id as u16) {
            Ok(id) => id,
            Err(e) => return Err(CodecError::Core(e)),
        }
    };
    let class = if flags & FLAG_ERROR != 0 {
        FrameClass::Error
    } else if flags & FLAG_REMOTE != 0 {
        FrameClass::Remote
    } else {
        FrameClass::Data
    };
    let frame = match CanFrame::new(
        id,
        class,
        data,
        flags & FLAG_FD != 0,
        FdFlags { bit_rate_switch: flags & FLAG_BRS != 0, error_state_indicator: flags & FLAG_ESI != 0 },
    ) {
        Ok(frame) => frame,
        Err(e) => return Err(CodecError::Core(e)),
    };
    let interface = InterfaceRef { name, index: Some(ifindex) };
    let direction = if flags & FLAG_DIRECTION_TX != 0 { Direction::Tx } else { Direction::Rx };
    let event = CaptureEvent::new(ns_to_timestamp(ns), interface, direction, frame);
    proof {
        assert(first_zero_from(raw_name@, end as int) == end);
        assert(record@.subrange(20, 52) == raw_name@);
        assert(option_text(name) == record_name(record@));
        assert(ns == record_ns(record@));
        assert(flags == record_flag_word(record@));
        assert(record_frame(record@) == Some(frame@));
        assert(event.timestamp == record_event(record@).unwrap().timestamp);
        assert(event@.annotations =~= Seq::<(Seq<char>, Seq<char>)>::empty());
        assert(event@ =~= record_event(record@).unwrap());
    }
    Ok(event)
}

/// The flag word of a record gives back each condition it was built from.
pub proof fn lemma_flag_bits(tx: bool, remote: bool, error: bool, fd: bool, brs: bool, esi: bool, ext: bool)
    by (bit_vector)
    ensures
        ({
            let f = set_if(set_if(set_if(set_if(set_if(set_if(set_if(0, tx, FLAG_DIRECTION_TX), remote, FLAG_REMOTE),
                error, FLAG_ERROR), fd, FLAG_FD), brs, FLAG_BRS), esi, FLAG_ESI), ext, FLAG_EXTENDED_ID);
            &&& (f & FLAG_DIRECTION_TX != 0) == tx
            &&& (f & FLAG_REMOTE != 0) == remote
            &&& (f & FLAG_ERROR != 0) == error
            &&& (f & FLAG_FD != 0) == fd
            &&& (f & FLAG_BRS != 0) == brs
            &&& (f & FLAG_ESI != 0) == esi
            &&& (f & FLAG_EXTENDED_ID != 0) == ext
        }),
{
}

/// In a byte string free of zeros padded with zeros, the first zero at or
/// after `i` (up to the string's end) sits right after the string.
proof fn lemma_first_zero_after_text(text: Seq<u8>, width: nat, i: int)
    requires
        text.len() <= width,
        forall|j: int| 0 <= j < text.len() ==> text[j] != 0,
        0 <= i <= text.len(),
    ensures
        first_zero_from(padded(text, width), i) == text.len(),
    decreases text.len() - i,
{
    let p = padded(text, width);
    assert(p.len() == width);
    if i < text.len() {
        assert(p[i] == text[i]);
        lemma_first_zero_after_text(text, width, i + 1);
    } else if i < width {
        assert(p[i] == 0);
    }
}

/// An event that a record holds without loss: a valid frame, no
/// annotations, a timestamp at or after the epoch whose nanoseconds fit 64
/// bits, a known interface index, and an interface name that is absent or
/// non-empty, at most 32 bytes long and free of zero bytes.
pub open spec fn fits_record(e: EventView) -> bool {
    &&& e.frame.wf()
    &&& e.annotations.len() == 0
    &&& e.timestamp.seconds >= 0
    &&& e.timestamp.nanos < NANOS_PER_SECOND
    &&& timestamp_ns(e.timestamp) <= u64::MAX
    &&& e.index is Some
    &&& e.name matches Some(n) ==> n.len() > 0 && vstd::utf8::encode_utf8(n).len() <= INTERFACE_NAME_LEN
        && !vstd::utf8::encode_utf8(n).contains(0u8)
}

#[verifier::external_type_specification]
#[verifier::external_body]
pub struct ExMdf(MDF);

/// What one channel group of a parsed MDF file holds, as `mf4-rs` reads it.
pub struct Mf4GroupView {
    /// The acquisition name; none when reading it fails.
    pub name: Option<Option<Seq<char>>>,
    /// The size of one record of the group.
    pub record_size: u32,
    /// The records of the group's data blocks, cut at the record size; none
    /// when reading the data blocks fails.
    pub records: Option<Seq<Seq<u8>>>,
}

/// The little-endian 64-bit field of `bytes` at `at`.
pub open spec fn field64(bytes: Seq<u8>, at: int) -> u64 {
    vstd::bytes::spec_u64_from_le_bytes(bytes.subrange(at, at + 8))
}

/// Length of the blocks ahead of the records.
pub open spec fn layout_len() -> nat {
    mf4_layout(0, 0, 0).len()
}

/// An MF4 file of the layout this library writes: its blocks, with the
/// start time the header holds, a whole number of records after them, and
/// a record count and data block length that match.
pub open spec fn plain_mf4(bytes: Seq<u8>) -> bool {
    let rest = bytes.len() - layout_len();
    &&& bytes.len() >= layout_len()
    &&& rest % (RECORD_SIZE as int) == 0
    &&& rest + 24 <= u64::MAX
    &&& bytes.subrange(0, layout_len() as int)
        == mf4_layout(field64(bytes, 136), (rest / RECORD_SIZE as int) as u64, rest as nat)
}

/// Whether two byte strings are equal.
fn same_bytes(a: &[u8], b: &[u8]) -> (r: bool)
    ensures
        r == (a@ == b@),
{
    if a.len() != b.len() {
        return false;
    }
    let mut i: usize = 0;
    while i < a.len()
        invariant
            a@.len() == b@.len(),
            i <= a@.len(),
            forall|j: int| 0 <= j < i ==> a@[j] == b@[j],
        decreases a@.len() - i,
    {
        if a[i] != b[i] {
            return false;
        }
        i = i + 1;
    }
    assert(a@ =~= b@);
    true
}

/// The blocks ahead of the records have the same length whatever the start
/// time, count and payload length, at least the identification and header
/// blocks.
proof fn lemma_layout_len(abs_time: u64, count: u64, payload_len: nat)
    ensures
        mf4_layout(abs_time, count, payload_len).len() == layout_len(),
        layout_len() >= 168,
{
    vstd::bytes::lemma_auto_spec_u64_to_from_le_bytes();
    vstd::bytes::lemma_auto_spec_u32_to_from_le_bytes();
    vstd::bytes::lemma_auto_spec_u16_to_from_le_bytes();
    assert(identification_bytes().len() == 64);
    assert(header_block_bytes(272, 336, abs_time, 2).len() == 104);
    assert(header_block_bytes(272, 336, 0, 2).len() == 104);
}

/// Whether the bytes are an MF4 file of the layout this library writes.
#[verifier::rlimit(30)]
pub fn is_plain_mf4(bytes: &[u8]) -> (r: bool)
    ensures
        r == plain_mf4(bytes@),
{
    let base = match mf4_layout_bytes(0, 0, 0) {
        Ok(b) => b,
        Err(_) => return false,
    };
    let l = base.len();
    proof { lemma_layout_len(0, 0, 0); }
    if bytes.len() < l {
        return false;
    }
    let rest = bytes.len() - l;
    if rest % RECORD_SIZE != 0 || rest as u64 > u64::MAX - 24 {
        return false;
    }
    assert(l >= 168);
    let abs_time = vstd::bytes::u64_from_le_bytes(vstd::slice::slice_subrange(bytes, 136, 144));
    let layout = match mf4_layout_bytes(abs_time, (rest / RECORD_SIZE) as u64, rest as u64) {
        Ok(b) => b,
        Err(_) => return false,
    };
    proof { lemma_layout_len(abs_time, (rest / RECORD_SIZE) as u64, rest as nat); }
    same_bytes(vstd::slice::slice_subrange(bytes, 0, l), layout.as_slice())
}

/// The channel groups of a parsed MDF file, in order.
pub uninterp spec fn mdf_groups(mdf: MDF) -> Seq<Mf4GroupView>;

/// The channel groups that `mf4-rs` parses from the bytes of an MDF file;
/// none when parsing fails.
pub uninterp spec fn mf4_parse(bytes: Seq<u8>) -> Option<Seq<Mf4GroupView>>;

/// Calls `MDF::from_bytes`; the parsed file's groups are named by the
/// bytes. A file of the layout this library writes carries version "4.10",
/// links only to the blocks it holds and no conversion blocks, so the
/// parser's length checks hold and it returns; other files are left out, as
/// the parser adds and multiplies some block fields unchecked (a conversion
/// address plus 24, link counts times 8, the version digits).
#[verifier::external_body]
fn mdf_from_bytes(bytes: Vec<u8>) -> (r: Result<MDF, String>)
    requires
        plain_mf4(bytes@),
    ensures
        match r {
            Ok(mdf) => mf4_parse(bytes@) == Some(mdf_groups(mdf)),
            Err(_) => mf4_parse(bytes@) is None,
        },
{
    MDF::from_bytes(bytes).map_err(|error| error.to_string())
}

/// Calls `MDF::channel_groups` and counts the groups.
#[verifier::external_body]
fn mdf_group_count(mdf: &MDF) -> (n: usize)
    ensures
        n == mdf_groups(*mdf).len(),
{
    mdf.channel_groups().len()
}

/// Calls `ChannelGroup::name` on group `i`.
#[verifier::external_body]
fn mdf_group_name(mdf: &MDF, i: usize) -> (r: Result<Option<String>, String>)
    requires
        i < mdf_groups(*mdf).len(),
    ensures
        match r {
            Ok(name) => mdf_groups(*mdf)[i as int].name == Some(option_text(name)),
            Err(_) => mdf_groups(*mdf)[i as int].name is None,
        },
{
    mdf.channel_groups()[i].name().map_err(|error| error.to_string())
}

/// Reads the record size (`samples_byte_nr`) of group `i`.
#[verifier::external_body]
fn mdf_record_size(mdf: &MDF, i: usize) -> (r: u32)
    requires
        i < mdf_groups(*mdf).len(),
    ensures
        r == mdf_groups(*mdf)[i as int].record_size,
{
    mdf.channel_groups()[i].raw_channel_group().block.samples_byte_nr
}

/// Calls `RawDataGroup::data_blocks` for group `i` and `DataBlock::records`
/// with the group's record size on each block, copying the records out.
#[verifier::external_body]
fn mdf_group_records(mdf: &MDF, i: usize) -> (r: Result<Vec<Vec<u8>>, String>)
    requires
        i < mdf_groups(*mdf).len(),
        mdf_groups(*mdf)[i as int].record_size > 0,
    ensures
        match r {
            Ok(records) => mdf_groups(*mdf)[i as int].records == Some(records_view(records@)),
            Err(_) => mdf_groups(*mdf)[i as int].records is None,
        },
{
    let groups = mdf.channel_groups();
    let size = groups[i].raw_channel_group().block.samples_byte_nr as usize;
    let blocks = groups[i].raw_data_group().data_blocks(groups[i].mmap()).map_err(|error| error.to_string())?;
    let mut records = Vec::new();
    for block in blocks {
        for record in block.records(size) {
            records.push(record.to_vec());
        }
    }
    Ok(records)
}

/// How reading the capture groups of a file fails.
pub enum Mf4ReadFailure {
    /// A group name or data blocks could not be read.
    Parse,
    /// A capture record did not decode.
    Record,
    /// A capture group has records of no bytes, which cannot be cut.
    EmptyRecords,
}

/// Reading one more group after the events `prev`: a group named as the
/// capture group adds the events of its records; other groups add nothing.
pub open spec fn mf4_group_step(prev: Seq<EventView>, group: Mf4GroupView) -> Result<Seq<EventView>, Mf4ReadFailure> {
    match group.name {
        None => Err(Mf4ReadFailure::Parse),
        Some(name) => if name == Some(group_name_text()) {
            if group.record_size == 0 {
                Err(Mf4ReadFailure::EmptyRecords)
            } else {
                match group.records {
                    None => Err(Mf4ReadFailure::Parse),
                    Some(rs) => match records_events(rs) {
                        Some(evs) => Ok(prev + evs),
                        None => Err(Mf4ReadFailure::Record),
                    },
                }
            }
        } else {
            Ok(prev)
        },
    }
}

/// What reading the groups of a file, in order, gives.
pub open spec fn mf4_read(groups: Seq<Mf4GroupView>) -> Result<Seq<EventView>, Mf4ReadFailure>
    decreases groups.len(),
{
    if groups.len() == 0 {
        Ok(Seq::empty())
    } else {
        match mf4_read(groups.drop_last()) {
            Ok(prev) => mf4_group_step(prev, groups.last()),
            Err(f) => Err(f),
        }
    }
}

proof fn lemma_mf4_read_take(groups: Seq<Mf4GroupView>, i: int)
    requires
        0 <= i < groups.len(),
    ensures
        mf4_read(groups.take(i + 1)) == (match mf4_read(groups.take(i)) {
            Ok(prev) => mf4_group_step(prev, groups[i]),
            Err(f) => Err(f),
        }),
{
    assert(groups.take(i + 1).drop_last() =~= groups.take(i));
    assert(groups.take(i + 1).last() == groups[i]);
}

proof fn lemma_mf4_read_stays(groups: Seq<Mf4GroupView>, i: int, k: int)
    requires
        0 <= i <= k <= groups.len(),
        mf4_read(groups.take(i)) is Err,
    ensures
        mf4_read(groups.take(k)) == mf4_read(groups.take(i)),
    decreases k - i,
{
    if k > i {
        lemma_mf4_read_stays(groups, i, k - 1);
        lemma_mf4_read_take(groups, k - 1);
    }
}

proof fn lemma_mf4_read_fails(groups: Seq<Mf4GroupView>, i: int)
    requires
        0 <= i <= groups.len(),
        mf4_read(groups.take(i)) is Err,
    ensures
        mf4_read(groups) == mf4_read(groups.take(i)),
{
    lemma_mf4_read_stays(groups, i, groups.len() as int);
    assert(groups.take(groups.len() as int) =~= groups);
}

/// Read the bytes of an MF4 file of the layout this library writes into
/// capture events: the records of every channel group named
/// `cantools.capture`, in order. `None` for a file of another layout, and
/// for one with such a group, reached before any failure, whose records
/// have no bytes.
#[verifier::rlimit(40)]
pub fn read_mf4_bytes(bytes: Vec<u8>) -> (r: Option<Result<ReadReport, CodecError>>)
    ensures
        !plain_mf4(bytes@) ==> r is None,
        plain_mf4(bytes@) ==> match mf4_parse(bytes@) {
            None => r matches Some(Err(CodecError::Parse(_))),
            Some(groups) => match mf4_read(groups) {
                Ok(events) => r matches Some(Ok(report))
                    && events_view(report.events@) == events && report.notes@.len() == 0,
                Err(Mf4ReadFailure::Parse) => r matches Some(Err(CodecError::Parse(_))),
                Err(Mf4ReadFailure::Record) => r matches Some(Err(CodecError::Core(_))),
                Err(Mf4ReadFailure::EmptyRecords) => r is None,
            },
        },
{
    if !is_plain_mf4(bytes.as_slice()) {
        return None;
    }
    let ghost input = bytes@;
    let mdf = match mdf_from_bytes(bytes) {
        Ok(mdf) => mdf,
        Err(message) => return Some(Err(CodecError::Parse(message))),
    };
    let ghost groups = mdf_groups(mdf);
    let count = mdf_group_count(&mdf);
    let mut events: Vec<CaptureEvent> = Vec::new();
    let mut i: usize = 0;
    assert(groups.take(0) =~= Seq::<Mf4GroupView>::empty());
    assert(events_view(events@) =~= Seq::<EventView>::empty());
    while i < count
        invariant
            groups == mdf_groups(mdf),
            mf4_parse(input) == Some(groups),
            input == bytes@,
            plain_mf4(input),
            count == groups.len(),
            i <= count,
            mf4_read(groups.take(i as int)) == Ok::<Seq<EventView>, Mf4ReadFailure>(events_view(events@)),
        decreases count - i,
    {
        proof { lemma_mf4_read_take(groups, i as int); }
        let name = match mdf_group_name(&mdf, i) {
            Ok(name) => name,
            Err(message) => {
                proof {
                    assert(mf4_read(groups.take(i + 1)) == Err::<Seq<EventView>, Mf4ReadFailure>(Mf4ReadFailure::Parse));
                    lemma_mf4_read_fails(groups, i + 1);
                }
                return Some(Err(CodecError::Parse(message)));
            },
        };
        let is_capture = match &name {
            Some(n) => same_text(n.as_str(), "cantools.capture"),
            None => false,
        };
        proof { reveal_strlit("cantools.capture"); }
        if is_capture {
            if mdf_record_size(&mdf, i) == 0 {
                proof {
                    lemma_mf4_read_fails(groups, i + 1);
                }
                return None;
            }
            let records = match mdf_group_records(&mdf, i) {
                Ok(records) => records,
                Err(message) => {
                    proof {
                        lemma_mf4_read_fails(groups, i + 1);
                    }
                    return Some(Err(CodecError::Parse(message)));
                },
            };
            let result = match &name {
                Some(n) => read_mf4_records(Some(n.as_str()), records.as_slice(), &mut events),
                None => Ok(()),
            };
            match result {
                Ok(()) => {},
                Err(e) => {
                    proof {
                        assert(records_events(records_view(records@)) is None);
                        assert(mf4_read(groups.take(i + 1)) == Err::<Seq<EventView>, Mf4ReadFailure>(Mf4ReadFailure::Record));
                        lemma_mf4_read_fails(groups, i + 1);
                    }
                    return Some(Err(e));
                },
            }
        }
        i = i + 1;
    }
    assert(groups.take(groups.len() as int) =~= groups);
    Some(Ok(ReadReport { events, notes: Vec::new() }))
}

/// A record written for an event reads back as that very event when the
/// event fits the record: a valid frame, no annotations, a timestamp at or
/// after the epoch whose nanoseconds fit 64 bits, a known interface index,
/// and an interface name that is absent or non-empty, at most 32 bytes
/// long and free of zero bytes.
pub proof fn lemma_record_round_trip(e: EventView)
    requires
        fits_record(e),
    ensures
        record_event(record_bytes(e)) == Some(e),
{
    vstd::bytes::lemma_auto_spec_u64_to_from_le_bytes();
    vstd::bytes::lemma_auto_spec_u32_to_from_le_bytes();
    vstd::bytes::lemma_auto_spec_u16_to_from_le_bytes();
    let r = record_bytes(e);
    let ns = timestamp_ns(e.timestamp) as u64;
    let raw = e.frame.id.spec_raw();
    let flags = record_flags(e);
    let ifindex: u32 = match e.index { Some(i) => i, None => 0 };
    let dl = e.frame.data.len() as int;
    let nb = name_bytes(e);
    assert(r.subrange(0, 8) == vstd::bytes::spec_u64_to_le_bytes(ns));
    assert(r.subrange(8, 12) == vstd::bytes::spec_u32_to_le_bytes(raw));
    assert(r.subrange(12, 14) == vstd::bytes::spec_u16_to_le_bytes(flags));
    assert(r.subrange(14, 18) == vstd::bytes::spec_u32_to_le_bytes(ifindex));
    assert(r[18] == dl as u8);
    assert(r.subrange(20, 52) == padded(nb, INTERFACE_NAME_LEN as nat));
    assert(r.subrange(52, 52 + dl) == e.frame.data);

    let s = e.timestamp.seconds as int;
    let n = e.timestamp.nanos as int;
    assert(ns as int == s * 1_000_000_000 + n);
    assert((s * 1_000_000_000 + n) / 1_000_000_000 == s && (s * 1_000_000_000 + n) % 1_000_000_000 == n)
        by (nonlinear_arith)
        requires 0 <= n < 1_000_000_000, s >= 0;

    lemma_flag_bits(
        e.direction == Direction::Tx,
        e.frame.class == FrameClass::Remote,
        e.frame.class == FrameClass::Error,
        e.frame.fd,
        e.frame.fd_flags.bit_rate_switch,
        e.frame.fd_flags.error_state_indicator,
        e.frame.id.spec_extended(),
    );
    e.frame.id.lemma_fields();
    if !e.frame.id.spec_extended() {
        assert(raw <= 0x7ff);
        assert((raw as u16) as u32 == raw) by (bit_vector) requires raw <= 0x7ff;
    }
    assert(record_id(r) == Some(e.frame.id));
    assert(flags_class(flags) == e.frame.class);
    assert(record_frame(r) == Some(e.frame));

    match e.name {
        Some(text) => {
            assert forall|j: int| 0 <= j < nb.len() implies nb[j] != 0 by {
                if nb[j] == 0 {
                    assert(nb.contains(0u8));
                }
            }
            lemma_first_zero_after_text(nb, INTERFACE_NAME_LEN as nat, 0);
            assert(r.subrange(20, 52).subrange(0, nb.len() as int) == nb);
            vstd::utf8::encode_utf8_valid_utf8(text);
            vstd::utf8::encode_utf8_decode_utf8(text);
            assert(record_name(r) == Some(text));
        },
        None => {
            assert(nb.len() == 0);
            lemma_first_zero_after_text(nb, INTERFACE_NAME_LEN as nat, 0);
            assert(r.subrange(20, 52).subrange(0, 0) =~= Seq::<u8>::empty());
            vstd::utf8::encode_utf8_valid_utf8(Seq::<char>::empty());
            vstd::utf8::encode_utf8_decode_utf8(Seq::<char>::empty());
            assert(vstd::utf8::encode_utf8(Seq::<char>::empty()) =~= Seq::<u8>::empty());
            assert(record_name(r) == None::<Seq<char>>);
        },
    }
    assert(e.annotations =~= Seq::<(Seq<char>, Seq<char>)>::empty());
    assert(record_event(r).unwrap() =~= e);
}

/// The contents of a list of events.
pub open spec fn events_view(events: Seq<CaptureEvent>) -> Seq<EventView> {
    events.map_values(|e: CaptureEvent| e@)
}

/// The records of the events, one after another.
pub open spec fn records_payload(events: Seq<EventView>) -> Seq<u8>
    decreases events.len(),
{
    if events.len() == 0 {
        Seq::empty()
    } else {
        records_payload(events.drop_last()) + record_bytes(events.last())
    }
}

/// The notes that writing the events' records adds, in order.
pub open spec fn records_notes(events: Seq<EventView>) -> Seq<NoteView>
    decreases events.len(),
{
    if events.len() == 0 {
        Seq::empty()
    } else {
        records_notes(events.drop_last()) + record_notes(events.last(), (events.len() - 1) as usize)
    }
}

/// Number of channels described in the file.
pub const CHANNEL_COUNT: usize = 7;

/// The channel table: name, byte offset, bit count and MDF data type code
/// (0 unsigned little-endian, 6 Latin-1 string, 10 byte array).
pub open spec fn channel_def(i: int) -> (Seq<char>, u32, u32, u8) {
    if i == 0 {
        ("timestamp_ns"@, 0, 64, 0)
    } else if i == 1 {
        ("can_id"@, 8, 32, 0)
    } else if i == 2 {
        ("flags"@, 12, 16, 0)
    } else if i == 3 {
        ("interface_index"@, 14, 32, 0)
    } else if i == 4 {
        ("data_len"@, 18, 8, 0)
    } else if i == 5 {
        ("interface_name"@, 20, 256, 6)
    } else {
        ("data"@, 52, 512, 10)
    }
}

/// One entry of the channel table.
fn channel_entry(i: usize) -> (r: (&'static str, u32, u32, u8))
    requires
        i < CHANNEL_COUNT,
    ensures
        (r.0@, r.1, r.2, r.3) == channel_def(i as int),
{
    if i == 0 {
        ("timestamp_ns", 0, 64, 0)
    } else if i == 1 {
        ("can_id", 8, 32, 0)
    } else if i == 2 {
        ("flags", 12, 16, 0)
    } else if i == 3 {
        ("interface_index", 14, 32, 0)
    } else if i == 4 {
        ("data_len", 18, 8, 0)
    } else if i == 5 {
        ("interface_name", 20, 256, 6)
    } else {
        ("data", 52, 512, 10)
    }
}

/// The name block of channel `i`.
pub open spec fn channel_name_block(i: int) -> Seq<u8> {
    text_block_bytes(vstd::utf8::encode_utf8(channel_def(i).0))
}

/// The channel blocks from channel `i` on, the first placed at `addr`, each
/// followed by its name block and linked to the next channel (the last to
/// none); the timestamp channel is the master channel.
#[verifier::opaque]
pub open spec fn channels_from(i: int, addr: int) -> Seq<u8>
    decreases CHANNEL_COUNT - i,
{
    if i < 0 || i >= CHANNEL_COUNT {
        Seq::empty()
    } else {
        let name = channel_name_block(i);
        let next = if i + 1 < CHANNEL_COUNT { addr + 160 + name.len() } else { 0 };
        channel_bytes(next as u64, (addr + 160) as u64, if i == 0 { 1u8 } else { 0u8 }, channel_def(i).3,
            channel_def(i).1, channel_def(i).2) + name + channels_from(i + 1, addr + 160 + name.len())
    }
}

/// Text of the file comment.
pub open spec fn comment_text() -> Seq<char> {
    "cantools-rs capture-focused MF4 export"@
}

/// Name of the channel group that holds the capture records.
pub open spec fn group_name_text() -> Seq<char> {
    "cantools.capture"@
}

/// `##DT`.
pub open spec fn dt_id() -> Seq<u8> {
    seq![0x23u8, 0x23u8, 0x44u8, 0x54u8]
}

/// The blocks of the MF4 file ahead of its records: identification,
/// header (with the start time), the channel group (with the record count),
/// the data group, the comment and group name texts, the channels with
/// their names, and the header of the data block.
pub open spec fn mf4_layout(abs_time: u64, count: u64, payload_len: nat) -> Seq<u8> {
    let comment = text_block_bytes(vstd::utf8::encode_utf8(comment_text()));
    let group = text_block_bytes(vstd::utf8::encode_utf8(group_name_text()));
    let cg_addr = 168int;
    let dg_addr = cg_addr + 104;
    let comment_addr = dg_addr + 64;
    let group_addr = comment_addr + comment.len();
    let first_channel_addr = group_addr + group.len();
    let channels = channels_from(0, first_channel_addr);
    let data_addr = first_channel_addr + channels.len();
    identification_bytes()
        + header_block_bytes(dg_addr as u64, comment_addr as u64, abs_time, 2)
        + channel_group_bytes(first_channel_addr as u64, group_addr as u64, comment_addr as u64, count,
            RECORD_SIZE as u32)
        + data_group_bytes(cg_addr as u64, data_addr as u64)
        + comment + group + channels
        + block_header_bytes(dt_id(), (24 + payload_len) as u64, 0)
}

/// The MF4 file written for events: its blocks, then the records.
pub open spec fn mf4_file(events: Seq<EventView>) -> Seq<u8> {
    let payload = records_payload(events);
    let abs_time = if events.len() > 0 { timestamp_ns(events[0].timestamp) } else { 0 };
    mf4_layout(abs_time as u64, events.len() as u64, payload.len()) + payload
}

/// The fixed texts of the file are short ASCII strings.
proof fn lemma_text_lengths()
    ensures
        forall|i: int| 0 <= i < CHANNEL_COUNT ==> #[trigger] vstd::utf8::encode_utf8(channel_def(i).0).len() <= 15,
        vstd::utf8::encode_utf8(comment_text()).len() == 38,
        vstd::utf8::encode_utf8(group_name_text()).len() == 16,
        vstd::utf8::encode_utf8("##DT"@) == dt_id(),
{
    reveal_strlit("timestamp_ns");
    reveal_strlit("can_id");
    reveal_strlit("flags");
    reveal_strlit("interface_index");
    reveal_strlit("data_len");
    reveal_strlit("interface_name");
    reveal_strlit("data");
    reveal_strlit("cantools-rs capture-focused MF4 export");
    reveal_strlit("cantools.capture");
    reveal_strlit("##DT");
    assert forall|i: int| 0 <= i < CHANNEL_COUNT implies #[trigger] vstd::utf8::encode_utf8(channel_def(i).0).len() <= 15 by {
        assert(vstd::utf8::is_ascii_chars(channel_def(i).0));
        vstd::utf8::is_ascii_chars_encode_utf8(channel_def(i).0);
    }
    assert(vstd::utf8::is_ascii_chars(comment_text()));
    vstd::utf8::is_ascii_chars_encode_utf8(comment_text());
    assert(vstd::utf8::is_ascii_chars(group_name_text()));
    vstd::utf8::is_ascii_chars_encode_utf8(group_name_text());
    assert(vstd::utf8::is_ascii_chars("##DT"@));
    vstd::utf8::is_ascii_chars_encode_utf8("##DT"@);
    assert(vstd::utf8::encode_utf8("##DT"@) =~= dt_id());
}

/// A text block is at most 32 bytes longer than its text.
proof fn lemma_text_block_len(text: Seq<u8>)
    ensures
        text_block_bytes(text).len() == text_block_len(text),
        text_block_len(text) <= text.len() + 32,
{
    vstd::bytes::lemma_auto_spec_u64_to_from_le_bytes();
}

/// One step of the channel table: the blocks of channel `i` placed at
/// `addr`, then the rest of the table.
proof fn lemma_channel_step(i: int, addr: int, channel: Seq<u8>, name: Seq<u8>)
    requires
        0 <= i < CHANNEL_COUNT,
        0 <= addr <= 100_000,
        name == channel_name_block(i),
        channel == channel_bytes(
            (if i + 1 < CHANNEL_COUNT { addr + 160 + name.len() } else { 0 }) as u64,
            (addr + 160) as u64,
            if i == 0 { 1u8 } else { 0u8 },
            channel_def(i).3,
            channel_def(i).1,
            channel_def(i).2,
        ),
    ensures
        channel.len() == 160,
        channels_from(i, addr) == channel + name + channels_from(i + 1, addr + 160 + name.len()),
{
    vstd::bytes::lemma_auto_spec_u64_to_from_le_bytes();
    vstd::bytes::lemma_auto_spec_u32_to_from_le_bytes();
    vstd::bytes::lemma_auto_spec_u16_to_from_le_bytes();
    reveal(channels_from);
}

/// Past the last channel the table is empty.
proof fn lemma_channels_end(addr: int)
    ensures
        channels_from(CHANNEL_COUNT as int, addr) == Seq::<u8>::empty(),
{
    reveal(channels_from);
}

/// The blocks of the MF4 file ahead of its records, for a start time, a
/// record count and a payload length.
fn mf4_layout_bytes(abs_time: u64, count: u64, payload_len: u64) -> (r: Result<Vec<u8>, CodecError>)
    requires
        payload_len + 24 <= u64::MAX,
    ensures
        r is Ok,
        r matches Ok(b) ==> b@ == mf4_layout(abs_time, count, payload_len as nat),
{
    proof {
        lemma_text_lengths();
        vstd::bytes::lemma_auto_spec_u64_to_from_le_bytes();
        vstd::bytes::lemma_auto_spec_u32_to_from_le_bytes();
        vstd::bytes::lemma_auto_spec_u16_to_from_le_bytes();
    }
    let header_stub = match header_block(0, 0, 0, 0) {
        Ok(b) => b,
        Err(e) => return Err(CodecError::Parse(e)),
    };
    let id_bytes = match identification_block() {
        Ok(b) => b,
        Err(e) => return Err(CodecError::Parse(e)),
    };
    let comment_bytes = match text_block("cantools-rs capture-focused MF4 export") {
        Ok(b) => b,
        Err(e) => return Err(CodecError::Parse(e)),
    };
    let group_name_bytes = match text_block("cantools.capture") {
        Ok(b) => b,
        Err(e) => return Err(CodecError::Parse(e)),
    };
    proof {
        lemma_text_block_len(vstd::utf8::encode_utf8(comment_text()));
        lemma_text_block_len(vstd::utf8::encode_utf8(group_name_text()));
    }
    let channel_group_addr: u64 = id_bytes.len() as u64 + header_stub.len() as u64;
    let data_group_addr: u64 = channel_group_addr + 104;
    let comment_addr: u64 = data_group_addr + 64;
    let group_name_addr: u64 = comment_addr + comment_bytes.len() as u64;
    let first_channel_addr: u64 = group_name_addr + group_name_bytes.len() as u64;
    assert(first_channel_addr <= 1000);

    let mut channel_out: Vec<u8> = Vec::new();
    let mut channel_data_size: u64 = 0;
    let mut i: usize = 0;
    while i < CHANNEL_COUNT
        invariant
            i <= CHANNEL_COUNT,
            first_channel_addr <= 1000,
            channel_data_size <= i * 200,
            channel_data_size as int == channel_out@.len(),
            channel_out@ + channels_from(i as int, first_channel_addr + channel_data_size)
                == channels_from(0, first_channel_addr as int),
            forall|k: int| 0 <= k < CHANNEL_COUNT ==> #[trigger] vstd::utf8::encode_utf8(channel_def(k).0).len() <= 15,
        decreases CHANNEL_COUNT - i,
    {
        let (name, byte_offset, bit_count, data_type) = channel_entry(i);
        let name_bytes = match text_block(name) {
            Ok(b) => b,
            Err(e) => return Err(CodecError::Parse(e)),
        };
        proof {
            lemma_text_block_len(vstd::utf8::encode_utf8(channel_def(i as int).0));
            assert(vstd::utf8::encode_utf8(channel_def(i as int).0).len() <= 15);
            assert(name_bytes@ == channel_name_block(i as int));
        }
        let current_addr: u64 = first_channel_addr + channel_data_size;
        let next_ch_addr: u64 = if i + 1 < CHANNEL_COUNT { current_addr + 160 + name_bytes.len() as u64 } else { 0 };
        let sync_type: u8 = if i == 0 { 1 } else { 0 };
        let channel = match channel_block(next_ch_addr, current_addr + 160, sync_type, data_type, byte_offset, bit_count) {
            Ok(b) => b,
            Err(e) => return Err(CodecError::Parse(e)),
        };
        proof {
            lemma_channel_step(i as int, current_addr as int, channel@, name_bytes@);
        }
        channel_data_size = channel_data_size + channel.len() as u64 + name_bytes.len() as u64;
        let ghost before = channel_out@;
        append_bytes(&mut channel_out, channel.as_slice());
        append_bytes(&mut channel_out, name_bytes.as_slice());
        proof {
            assert(channel_out@ == before + channel@ + name_bytes@);
        }
        i = i + 1;
    }
    proof {
        lemma_channels_end(first_channel_addr + channel_data_size);
    }
    assert(channel_out@ =~= channels_from(0, first_channel_addr as int));

    let data_addr: u64 = first_channel_addr + channel_data_size;
    let header = match header_block(data_group_addr, comment_addr, abs_time, 2) {
        Ok(b) => b,
        Err(e) => return Err(CodecError::Parse(e)),
    };
    let channel_group = match channel_group_block(first_channel_addr, group_name_addr, comment_addr, count, RECORD_SIZE as u32) {
        Ok(b) => b,
        Err(e) => return Err(CodecError::Parse(e)),
    };
    let data_group = match data_group_block(channel_group_addr, data_addr) {
        Ok(b) => b,
        Err(e) => return Err(CodecError::Parse(e)),
    };

    let data_header = match block_header("##DT", 24 + payload_len, 0) {
        Ok(b) => b,
        Err(e) => return Err(CodecError::Parse(e)),
    };
    let mut file: Vec<u8> = Vec::new();
    append_bytes(&mut file, id_bytes.as_slice());
    append_bytes(&mut file, header.as_slice());
    append_bytes(&mut file, channel_group.as_slice());
    append_bytes(&mut file, data_group.as_slice());
    append_bytes(&mut file, comment_bytes.as_slice());
    append_bytes(&mut file, group_name_bytes.as_slice());
    append_bytes(&mut file, channel_out.as_slice());
    append_bytes(&mut file, data_header.as_slice());
    assert(file@ =~= mf4_layout(abs_time, count, payload_len as nat));
    Ok(file)
}

/// Serialize events as a capture-focused MF4 file, returning the file's
/// bytes and the notes on what the records could not hold.
pub fn encode_mf4(events: &[CaptureEvent]) -> (r: Result<(Vec<u8>, WriteReport), CodecError>)
    requires
        forall|i: int| 0 <= i < events@.len() ==> timestamp_ns(#[trigger] events@[i].timestamp) <= u64::MAX,
        events@.len() * RECORD_SIZE + 24 <= u64::MAX,
        events@.len() * RECORD_SIZE <= usize::MAX,
    ensures
        r is Ok,
        r matches Ok((file, report)) ==> file@ == mf4_file(events_view(events@))
            && notes_view(report.notes@) == records_notes(events_view(events@)),
{
    let ghost all = events_view(events@);
    let mut notes: Vec<FidelityNote> = Vec::new();
    let mut payload: Vec<u8> = Vec::new();
    let mut index: usize = 0;
    assert(all.take(0) =~= Seq::<EventView>::empty());
    assert(notes_view(notes@) =~= Seq::<NoteView>::empty());
    while index < events.len()
        invariant
            index <= events@.len(),
            all == events_view(events@),
            all.len() == events@.len(),
            forall|i: int| 0 <= i < events@.len() ==> timestamp_ns(#[trigger] events@[i].timestamp) <= u64::MAX,
            events@.len() * RECORD_SIZE <= usize::MAX,
            payload@ == records_payload(all.take(index as int)),
            payload@.len() == index * RECORD_SIZE,
            notes_view(notes@) == records_notes(all.take(index as int)),
        decreases events@.len() - index,
    {
        let record = encode_record(&events[index], &mut notes, index);
        proof {
            assert(all.take(index + 1).drop_last() =~= all.take(index as int));
            assert(all.take(index + 1).last() == events@[index as int]@);
            assert(payload@.len() + RECORD_SIZE <= events@.len() * RECORD_SIZE) by (nonlinear_arith)
                requires payload@.len() == index * RECORD_SIZE, index < events@.len();
        }
        append_bytes(&mut payload, record.as_slice());
        index = index + 1;
    }
    assert(all.take(events@.len() as int) =~= all);

    let abs_time: u64 = if events.len() > 0 { timestamp_to_ns(events[0].timestamp) } else { 0 };
    let mut file = match mf4_layout_bytes(abs_time, events.len() as u64, payload.len() as u64) {
        Ok(b) => b,
        Err(e) => return Err(e),
    };
    append_bytes(&mut file, payload.as_slice());
    proof {
        if events@.len() > 0 {
            assert(all[0].timestamp == events@[0].timestamp);
        }
        assert(file@ =~= mf4_file(all));
    }
    Ok((file, WriteReport { notes }))
}

/// The events that a run of records decodes to, skipping records shorter
/// than a full record; none when a full record fails to decode.
pub open spec fn records_events(records: Seq<Seq<u8>>) -> Option<Seq<EventView>>
    decreases records.len(),
{
    if records.len() == 0 {
        Some(Seq::empty())
    } else {
        match records_events(records.drop_last()) {
            Some(prev) => if records.last().len() >= RECORD_SIZE {
                match record_event(records.last()) {
                    Some(e) => Some(prev.push(e)),
                    None => None,
                }
            } else {
                Some(prev)
            },
            None => None,
        }
    }
}

/// The byte contents of a list of records.
pub open spec fn records_view(records: Seq<Vec<u8>>) -> Seq<Seq<u8>> {
    records.map_values(|r: Vec<u8>| r@)
}

/// Whether two texts are the same, compared through their UTF-8 bytes.
pub fn same_text(a: &str, b: &str) -> (r: bool)
    ensures
        r == (a@ == b@),
{
    let x = a.as_bytes();
    let y = b.as_bytes();
    proof {
        vstd::utf8::encode_utf8_decode_utf8(a@);
        vstd::utf8::encode_utf8_decode_utf8(b@);
    }
    if x.len() != y.len() {
        return false;
    }
    let mut i: usize = 0;
    while i < x.len()
        invariant
            x@ == vstd::utf8::encode_utf8(a@),
            y@ == vstd::utf8::encode_utf8(b@),
            x@.len() == y@.len(),
            i <= x@.len(),
            forall|j: int| 0 <= j < i ==> x@[j] == y@[j],
        decreases x@.len() - i,
    {
        if x[i] != y[i] {
            return false;
        }
        i = i + 1;
    }
    assert(x@ =~= y@);
    true
}

/// Decode the records of one MF4 channel group onto `events`; groups other
/// than the capture group are skipped, and so are records shorter than a
/// full record.
pub fn read_mf4_records(group_name: Option<&str>, records: &[Vec<u8>], events: &mut Vec<CaptureEvent>) -> (r: Result<(), CodecError>)
    ensures
        !(group_name matches Some(n) && n@ == group_name_text()) ==> r is Ok && final(events)@ == old(events)@,
        (group_name matches Some(n) && n@ == group_name_text()) ==> {
            &&& (r is Ok <==> records_events(records_view(records@)) is Some)
            &&& r matches Ok(_) ==> events_view(final(events)@)
                == events_view(old(events)@) + records_events(records_view(records@)).unwrap()
            &&& r matches Err(err) ==> err is Core
        },
{
    let is_capture = match group_name {
        Some(name) => same_text(name, "cantools.capture"),
        None => false,
    };
    if !is_capture {
        return Ok(());
    }
    let ghost start = events@;
    let ghost rs = records_view(records@);
    let mut i: usize = 0;
    assert(rs.take(0) =~= Seq::<Seq<u8>>::empty());
    assert(events_view(events@) =~= events_view(start) + Seq::<EventView>::empty());
    while i < records.len()
        invariant
            group_name matches Some(n) && n@ == group_name_text(),
            i <= records@.len(),
            rs == records_view(records@),
            rs.len() == records@.len(),
            records_events(rs.take(i as int)) is Some,
            events_view(events@) == events_view(start) + records_events(rs.take(i as int)).unwrap(),
        decreases records@.len() - i,
    {
        let record = &records[i];
        proof {
            assert(rs.take(i + 1).drop_last() =~= rs.take(i as int));
            assert(rs.take(i + 1).last() == record@);
        }
        if record.len() >= RECORD_SIZE {
            match decode_record(record.as_slice()) {
                Ok(event) => {
                    let ghost before = events@;
                    events.push(event);
                    assert(events_view(events@) =~= events_view(before).push(event@));
                },
                Err(e) => {
                    assert(records_events(rs.take(i + 1)) is None);
                    assert forall|k: int| i + 1 <= k <= rs.len() implies #[trigger] records_events(rs.take(k)) is None by {
                        lemma_records_events_stays_none(rs, i + 1, k);
                    }
                    assert(rs.take(rs.len() as int) =~= rs);
                    return Err(e);
                },
            }
        }
        i = i + 1;
    }
    assert(rs.take(rs.len() as int) =~= rs);
    Ok(())
}

/// Once a prefix of the records fails to decode, every longer prefix does.
proof fn lemma_records_events_stays_none(rs: Seq<Seq<u8>>, i: int, k: int)
    requires
        0 <= i <= k <= rs.len(),
        records_events(rs.take(i)) is None,
    ensures
        records_events(rs.take(k)) is None,
    decreases k - i,
{
    if k > i {
        lemma_records_events_stays_none(rs, i, k - 1);
        assert(rs.take(k).drop_last() =~= rs.take(k - 1));
    }
}

/// The records written for a run of events, one per event.
pub open spec fn event_records(events: Seq<EventView>) -> Seq<Seq<u8>> {
    events.map_values(|e: EventView| record_bytes(e))
}

/// Reading back the records written for events that fit a record gives
/// back those events, in order.
pub proof fn lemma_records_round_trip(events: Seq<EventView>)
    requires
        forall|i: int| 0 <= i < events.len() ==> fits_record(#[trigger] events[i]),
    ensures
        records_events(event_records(events)) == Some(events),
    decreases events.len(),
{
    if events.len() > 0 {
        let prefix = events.drop_last();
        assert forall|i: int| 0 <= i < prefix.len() implies fits_record(#[trigger] prefix[i]) by {
            assert(prefix[i] == events[i]);
        }
        lemma_records_round_trip(prefix);
        assert(event_records(events).drop_last() =~= event_records(prefix));
        assert(fits_record(events[events.len() - 1]));
        lemma_record_round_trip(events.last());
        assert(event_records(events).last() == record_bytes(events.last()));
        vstd::bytes::lemma_auto_spec_u64_to_from_le_bytes();
        vstd::bytes::lemma_auto_spec_u32_to_from_le_bytes();
        vstd::bytes::lemma_auto_spec_u16_to_from_le_bytes();
        assert(record_bytes(events.last()).len() == RECORD_SIZE);
        assert(prefix.push(events.last()) =~= events);
    }
}

/// The payload of the file is the records of the events one after another.
pub proof fn lemma_payload_is_records(events: Seq<EventView>)
    ensures
        records_payload(events) == event_records(events).fold_left(Seq::<u8>::empty(), |acc: Seq<u8>, r: Seq<u8>| acc + r),
    decreases events.len(),
{
    if events.len() > 0 {
        lemma_payload_is_records(events.drop_last());
        assert(event_records(events).drop_last() =~= event_records(events.drop_last()));
    }
}

/// An event whose record adds no note fits the record, and reads back
/// unchanged, when its frame is valid and its timestamp is normalized and
/// fits 64 bits of nanoseconds: the notes cover every other loss.
pub proof fn lemma_unnoted_event_reads_back(e: EventView, index: usize)
    requires
        record_notes(e, index).len() == 0,
        e.frame.wf(),
        e.timestamp.nanos < NANOS_PER_SECOND,
        timestamp_ns(e.timestamp) <= u64::MAX,
    ensures
        fits_record(e),
        record_event(record_bytes(e)) == Some(e),
{
    if e.timestamp.seconds < 0 || e.index is None || name_bytes(e).len() > INTERFACE_NAME_LEN || name_lost(e)
        || e.annotations.len() > 0 {
        assert(record_notes(e, index).len() >= 1);
    }
    lemma_record_round_trip(e);
}

/// The capture group written for events: named `cantools.capture`, with
/// records of the record size, one per event.
pub open spec fn capture_group(events: Seq<EventView>) -> Mf4GroupView {
    Mf4GroupView {
        name: Some(Some(group_name_text())),
        record_size: RECORD_SIZE as u32,
        records: Some(event_records(events)),
    }
}

/// Reading a file whose groups are the capture group written for events
/// gives back those events, in order, when each fits a record.
pub proof fn lemma_file_round_trip(events: Seq<EventView>)
    requires
        forall|i: int| 0 <= i < events.len() ==> fits_record(#[trigger] events[i]),
    ensures
        mf4_read(seq![capture_group(events)]) == Ok::<Seq<EventView>, Mf4ReadFailure>(events),
{
    lemma_records_round_trip(events);
    let groups = seq![capture_group(events)];
    assert(groups.drop_last() =~= Seq::<Mf4GroupView>::empty());
    assert(mf4_read(groups.drop_last()) == Ok::<Seq<EventView>, Mf4ReadFailure>(Seq::empty()));
    assert(groups.last() == capture_group(events));
    assert(Seq::<EventView>::empty() + events =~= events);
    assert(mf4_group_step(Seq::empty(), capture_group(events)) == Ok::<Seq<EventView>, Mf4ReadFailure>(events));
}

proof fn lemma_records_payload_len(events: Seq<EventView>)
    ensures
        records_payload(events).len() == events.len() * RECORD_SIZE,
    decreases events.len(),
{
    if events.len() > 0 {
        lemma_records_payload_len(events.drop_last());
        vstd::bytes::lemma_auto_spec_u64_to_from_le_bytes();
        vstd::bytes::lemma_auto_spec_u32_to_from_le_bytes();
        vstd::bytes::lemma_auto_spec_u16_to_from_le_bytes();
        assert(record_bytes(events.last()).len() == RECORD_SIZE);
        assert((events.len() - 1) * RECORD_SIZE + RECORD_SIZE == events.len() * RECORD_SIZE) by (nonlinear_arith);
    }
}

/// Every MF4 file this library writes has the layout that its reader takes.
pub proof fn lemma_written_file_is_plain(events: Seq<EventView>)
    requires
        forall|i: int| 0 <= i < events.len() ==> timestamp_ns(#[trigger] events[i].timestamp) <= u64::MAX,
        events.len() * RECORD_SIZE + 24 <= u64::MAX,
    ensures
        plain_mf4(mf4_file(events)),
{
    let payload = records_payload(events);
    let abs_time = (if events.len() > 0 { timestamp_ns(events[0].timestamp) } else { 0 }) as u64;
    let n = events.len() as u64;
    let layout = mf4_layout(abs_time, n, payload.len());
    let f = mf4_file(events);
    lemma_records_payload_len(events);
    lemma_layout_len(abs_time, n, payload.len());
    assert(f == layout + payload);
    let l = layout_len() as int;
    assert(f.subrange(0, l) =~= layout);
    let rest = f.len() - l;
    assert(rest == events.len() * RECORD_SIZE);
    assert(rest % (RECORD_SIZE as int) == 0 && rest / (RECORD_SIZE as int) == events.len()) by (nonlinear_arith)
        requires rest == events.len() * RECORD_SIZE;
    vstd::bytes::lemma_auto_spec_u64_to_from_le_bytes();
    vstd::bytes::lemma_auto_spec_u32_to_from_le_bytes();
    vstd::bytes::lemma_auto_spec_u16_to_from_le_bytes();
    let header = header_block_bytes(272, 336, abs_time, 2);
    assert(identification_bytes().len() == 64);
    assert(header.subrange(72, 80) =~= vstd::bytes::spec_u64_to_le_bytes(abs_time));
    assert(f.subrange(136, 144) =~= header.subrange(72, 80));
    assert(field64(f, 136) == abs_time);
}

} // verus!
