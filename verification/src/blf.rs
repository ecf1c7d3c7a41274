//! The Vector BLF layout of CAN messages: how capture events are written
//! as CAN message objects (type 86) in one uncompressed log, and how CAN
//! message objects read back become events.

use vstd::prelude::*;
use crate::bytes::{append_bytes, min_of, push_padded, padded, zeros};
use crate::codec::{note_if, notes_view, push_note, timestamp_ns, timestamp_to_ns, FidelityNote, NoteView, WriteReport};
use crate::mf4_blocks::{le16, le32, le64};
use crate::codec::{ns_to_timestamp, CodecError, ReadReport};
use ablf::{BlfFile, ObjectTypes};
use std::io::Cursor;
use crate::mf4::events_view;
use crate::model::{
    CanFrame, CanId, CaptureEvent, CoreError, Direction, EventView, FdFlags, FrameClass, FrameView, InterfaceRef,
    Timestamp, MAX_STANDARD_ID, NANOS_PER_SECOND,
};

verus! {

/// Object type of a CAN message object.
pub const OBJECT_TYPE_CAN_MESSAGE2: u32 = 86;
/// Object header flag: timestamps are in nanoseconds.
pub const TIME_ONE_NANS: u32 = 0x0000_0002;
/// Identifier flag: 29-bit identifier.
pub const CAN_FLAG_EXTENDED: u32 = 0x8000_0000;
/// Identifier flag: remote frame.
pub const CAN_FLAG_REMOTE: u32 = 0x4000_0000;
/// Identifier flag: error frame.
pub const CAN_FLAG_ERROR: u32 = 0x2000_0000;
/// Message flag: transmitted frame.
pub const MESSAGE_FLAG_TX: u8 = 0x01;
/// Message flag: CAN FD frame.
pub const MESSAGE_FLAG_FD: u8 = 0x02;
/// Message flag: CAN FD bit rate switch.
pub const MESSAGE_FLAG_BRS: u8 = 0x04;
/// Message flag: CAN FD error state indicator.
pub const MESSAGE_FLAG_ESI: u8 = 0x08;

/// A CAN message object as written: the object header fields, then the
/// message fields, with eight payload bytes.
#[derive(Debug, Clone, PartialEq, Eq)]
pub struct BlfMessage {
    /// Object header flags.
    pub header_flags: u32,
    /// Object header client index.
    pub client_index: u16,
    /// Object header version.
    pub version: u16,
    /// Timestamp in nanoseconds.
    pub timestamp_ns: u64,
    /// Channel number.
    pub channel: u16,
    /// Message flags.
    pub flags: u8,
    /// Payload length code.
    pub dlc: u8,
    /// Identifier with its format and class flags.
    pub id: u32,
    /// Frame length field.
    pub frame_length_ns: u32,
    /// Bit count field.
    pub bit_count: u8,
    /// Offset of extended data.
    pub ext_data_offset: u8,
    /// Payload bytes, always eight.
    pub data: Vec<u8>,
}

/// `value` with `bit` set when `cond` holds.
pub open spec fn set_if32(value: u32, cond: bool, bit: u32) -> u32 {
    if cond { value | bit } else { value }
}

/// `value` with `bit` set when `cond` holds.
pub open spec fn set_if8(value: u8, cond: bool, bit: u8) -> u8 {
    if cond { value | bit } else { value }
}

/// The identifier field written for an event: the identifier value with
/// the extended, remote and error flags.
pub open spec fn message_id(e: EventView) -> u32 {
    let v = set_if32(e.frame.id.spec_raw(), e.frame.id.spec_extended(), CAN_FLAG_EXTENDED);
    let v = set_if32(v, e.frame.class == FrameClass::Remote, CAN_FLAG_REMOTE);
    set_if32(v, e.frame.class == FrameClass::Error, CAN_FLAG_ERROR)
}

/// The message flags written for an event.
pub open spec fn message_flags(e: EventView) -> u8 {
    let f = set_if8(0, e.direction == Direction::Tx, MESSAGE_FLAG_TX);
    let f = set_if8(f, e.frame.fd, MESSAGE_FLAG_FD);
    let f = set_if8(f, e.frame.fd_flags.bit_rate_switch, MESSAGE_FLAG_BRS);
    set_if8(f, e.frame.fd_flags.error_state_indicator, MESSAGE_FLAG_ESI)
}

/// Whether `m` is the message written for event `e`: nanosecond timestamps,
/// the interface index as channel (1 when unknown, cut to 16 bits), the
/// payload length capped at 64 as length code and frame length, eight
/// times it cut to 8 bits as bit count, and the first eight payload bytes.
pub open spec fn is_message_for(m: BlfMessage, e: EventView) -> bool {
    let len = min_of(e.frame.data.len() as int, 64);
    &&& m.header_flags == TIME_ONE_NANS
    &&& m.client_index == 0
    &&& m.version == 0
    &&& m.timestamp_ns as int == timestamp_ns(e.timestamp)
    &&& m.channel == (match e.index { Some(i) => i, None => 1 }) as u16
    &&& m.flags == message_flags(e)
    &&& m.dlc == len as u8
    &&& m.id == message_id(e)
    &&& m.frame_length_ns == len as u32
    &&& m.bit_count == (len * 8) as u8
    &&& m.ext_data_offset == 0
    &&& m.data@ == padded(e.frame.data, 8)
}

/// Build the CAN message object for a capture event.
pub fn build_can_message(event: &CaptureEvent) -> (m: BlfMessage)
    requires
        timestamp_ns(event.timestamp) <= u64::MAX,
    ensures
        is_message_for(m, event@),
{
    let mut raw_id = event.frame.id.raw();
    if event.frame.id.is_extended() {
        raw_id = raw_id | CAN_FLAG_EXTENDED;
    }
    if matches!(event.frame.class, FrameClass::Remote) {
        raw_id = raw_id | CAN_FLAG_REMOTE;
    }
    if matches!(event.frame.class, FrameClass::Error) {
        raw_id = raw_id | CAN_FLAG_ERROR;
    }

    let mut flags: u8 = 0;
    if matches!(event.direction, Direction::Tx) {
        flags = flags | MESSAGE_FLAG_TX;
    }
    if event.frame.fd {
        flags = flags | MESSAGE_FLAG_FD;
    }
    if event.frame.fd_flags.bit_rate_switch {
        flags = flags | MESSAGE_FLAG_BRS;
    }
    if event.frame.fd_flags.error_state_indicator {
        flags = flags | MESSAGE_FLAG_ESI;
    }

    let data_len: usize = if event.frame.data.len() < 64 { event.frame.data.len() } else { 64 };
    let mut data: Vec<u8> = Vec::new();
    push_padded(&mut data, event.frame.data.as_slice(), 8);
    let channel: u32 = match event.interface.index {
        Some(i) => i,
        None => 1,
    };
    let bits: usize = data_len * 8;
    BlfMessage {
        header_flags: TIME_ONE_NANS,
        client_index: 0,
        version: 0,
        timestamp_ns: timestamp_to_ns(event.timestamp),
        channel: channel as u16,
        flags,
        dlc: data_len as u8,
        id: raw_id,
        frame_length_ns: data_len as u32,
        bit_count: bits as u8,
        ext_data_offset: 0,
        data,
    }
}

/// The 38 bytes of a CAN message object body, little-endian, fields in order.
pub open spec fn message_bytes(m: BlfMessage) -> Seq<u8> {
    le32(m.header_flags) + le16(m.client_index) + le16(m.version) + le64(m.timestamp_ns) + le16(m.channel)
        + seq![m.flags, m.dlc] + le32(m.id) + le32(m.frame_length_ns) + seq![m.bit_count, m.ext_data_offset]
        + m.data@
}

/// Serialize a CAN message object body.
pub fn encode_can_message(m: &BlfMessage) -> (out: Vec<u8>)
    ensures
        out@ == message_bytes(*m),
{
    let mut out = vstd::bytes::u32_to_le_bytes(m.header_flags);
    append_bytes(&mut out, vstd::bytes::u16_to_le_bytes(m.client_index).as_slice());
    append_bytes(&mut out, vstd::bytes::u16_to_le_bytes(m.version).as_slice());
    append_bytes(&mut out, vstd::bytes::u64_to_le_bytes(m.timestamp_ns).as_slice());
    append_bytes(&mut out, vstd::bytes::u16_to_le_bytes(m.channel).as_slice());
    out.push(m.flags);
    out.push(m.dlc);
    append_bytes(&mut out, vstd::bytes::u32_to_le_bytes(m.id).as_slice());
    append_bytes(&mut out, vstd::bytes::u32_to_le_bytes(m.frame_length_ns).as_slice());
    out.push(m.bit_count);
    out.push(m.ext_data_offset);
    append_bytes(&mut out, m.data.as_slice());
    assert(out@ =~= message_bytes(*m));
    out
}

/// `LOBJ`.
pub open spec fn lobj_signature() -> Seq<u8> {
    seq![0x4cu8, 0x4fu8, 0x42u8, 0x4au8]
}

/// `LOGG`.
pub open spec fn logg_signature() -> Seq<u8> {
    seq![0x4cu8, 0x4fu8, 0x47u8, 0x47u8]
}

/// The 16-byte base header of an object of the given size and type.
pub open spec fn object_header_bytes(object_size: u32, object_type: u32) -> Seq<u8> {
    lobj_signature() + le16(16) + le16(1) + le32(object_size) + le32(object_type)
}

/// The 144-byte file header of a log with the given sizes and object count.
pub open spec fn file_header_bytes(file_size: u64, uncompressed_size: u64, object_count: u32) -> Seq<u8> {
    logg_signature() + le32(144) + le32(0) + seq![0u8, 0u8, 1u8, 0u8] + le64(file_size) + le64(uncompressed_size)
        + le32(object_count) + le32(0) + zeros(16) + zeros(16) + zeros(72)
}

/// Append the little-endian bytes of a 32-bit value.
fn push_u32(out: &mut Vec<u8>, v: u32)
    ensures
        final(out)@ == old(out)@ + le32(v),
{
    append_bytes(out, vstd::bytes::u32_to_le_bytes(v).as_slice());
}

/// Serialize a file header.
pub fn encode_file_header(file_size: u64, uncompressed_size: u64, object_count: u32) -> (out: Vec<u8>)
    ensures
        out@ == file_header_bytes(file_size, uncompressed_size, object_count),
{
    let mut out: Vec<u8> = Vec::new();
    out.push(0x4c);
    out.push(0x4f);
    out.push(0x47);
    out.push(0x47);
    push_u32(&mut out, 144);
    push_u32(&mut out, 0);
    out.push(0);
    out.push(0);
    out.push(1);
    out.push(0);
    append_bytes(&mut out, vstd::bytes::u64_to_le_bytes(file_size).as_slice());
    append_bytes(&mut out, vstd::bytes::u64_to_le_bytes(uncompressed_size).as_slice());
    push_u32(&mut out, object_count);
    push_u32(&mut out, 0);
    let none: Vec<u8> = Vec::new();
    push_padded(&mut out, none.as_slice(), 104);
    assert(padded(none@, 104) =~= zeros(16) + zeros(16) + zeros(72));
    assert(out@ =~= file_header_bytes(file_size, uncompressed_size, object_count));
    out
}

/// Serialize an object base header.
pub fn encode_object_header(object_size: u32, object_type: u32) -> (out: Vec<u8>)
    ensures
        out@ == object_header_bytes(object_size, object_type),
{
    let mut out: Vec<u8> = Vec::new();
    out.push(0x4c);
    out.push(0x4f);
    out.push(0x42);
    out.push(0x4a);
    append_bytes(&mut out, vstd::bytes::u16_to_le_bytes(16).as_slice());
    append_bytes(&mut out, vstd::bytes::u16_to_le_bytes(1).as_slice());
    push_u32(&mut out, object_size);
    push_u32(&mut out, object_type);
    assert(out@ =~= object_header_bytes(object_size, object_type));
    out
}

/// The body bytes of the message written for an event.
pub open spec fn message_bytes_for(e: EventView) -> Seq<u8> {
    let len = min_of(e.frame.data.len() as int, 64);
    le32(TIME_ONE_NANS) + le16(0) + le16(0) + le64(timestamp_ns(e.timestamp) as u64)
        + le16((match e.index { Some(i) => i, None => 1 }) as u16) + seq![message_flags(e), len as u8]
        + le32(message_id(e)) + le32(len as u32) + seq![(len * 8) as u8, 0u8] + padded(e.frame.data, 8)
}

/// Size of one CAN message object: base header and body.
pub const OBJECT_SIZE: usize = 54;

/// The CAN message objects written for the events, one after another.
pub open spec fn objects_bytes(events: Seq<EventView>) -> Seq<u8>
    decreases events.len(),
{
    if events.len() == 0 {
        Seq::empty()
    } else {
        objects_bytes(events.drop_last()) + object_header_bytes(OBJECT_SIZE as u32, OBJECT_TYPE_CAN_MESSAGE2)
            + message_bytes_for(events.last())
    }
}

/// The BLF file written for the events: the file header, then one CAN
/// message object per event.
pub open spec fn blf_file(events: Seq<EventView>) -> Seq<u8> {
    file_header_bytes((144 + OBJECT_SIZE * events.len()) as u64, (OBJECT_SIZE * events.len()) as u64, events.len() as u32)
        + objects_bytes(events)
}

/// The notes written for one event: one for each part of the event that
/// the message object cannot give back (dropped annotations, a timestamp
/// before the epoch written as zero, the interface name, an unknown
/// interface index written as channel 1, an index cut to a 16-bit channel),
/// and one on the best-effort payload layout.
pub open spec fn export_notes(e: EventView, index: usize) -> Seq<NoteView> {
    note_if(e.annotations.len() > 0, index, "annotations"@, "BLF export omits structured annotations"@)
    + note_if(e.timestamp.seconds < 0, index, "timestamp"@,
        "BLF export writes timestamps before the epoch as zero"@)
    + note_if(e.name is Some, index, "interface_name"@,
        "BLF export keeps only a numeric channel, not the interface name"@)
    + note_if(e.index is None, index, "interface_index"@,
        "BLF export writes an unknown interface index as channel 1"@)
    + note_if(e.index matches Some(i) && i > 0xffff, index, "interface_index"@,
        "BLF export cuts the interface index to a 16-bit channel"@)
    + seq![NoteView {
        event_index: Some(index),
        field: "payload"@,
        detail: "BLF export is best-effort in the bootstrap implementation and may not preserve every payload/layout detail"@,
    }]
}

/// Add the notes on what an event's message object cannot hold.
fn push_export_notes(event: &CaptureEvent, notes: &mut Vec<FidelityNote>, index: usize)
    ensures
        notes_view(final(notes)@) == notes_view(old(notes)@) + export_notes(event@, index),
{
    if event.annotations.len() > 0 {
        push_note(notes, FidelityNote {
            event_index: Some(index),
            field: "annotations",
            detail: "BLF export omits structured annotations".to_owned(),
        });
    }
    if event.timestamp.seconds < 0 {
        push_note(notes, FidelityNote {
            event_index: Some(index),
            field: "timestamp",
            detail: "BLF export writes timestamps before the epoch as zero".to_owned(),
        });
    }
    if event.interface.name.is_some() {
        push_note(notes, FidelityNote {
            event_index: Some(index),
            field: "interface_name",
            detail: "BLF export keeps only a numeric channel, not the interface name".to_owned(),
        });
    }
    match event.interface.index {
        None => {
            push_note(notes, FidelityNote {
                event_index: Some(index),
                field: "interface_index",
                detail: "BLF export writes an unknown interface index as channel 1".to_owned(),
            });
        },
        Some(i) => {
            if i > 0xffff {
                push_note(notes, FidelityNote {
                    event_index: Some(index),
                    field: "interface_index",
                    detail: "BLF export cuts the interface index to a 16-bit channel".to_owned(),
                });
            }
        },
    }
    push_note(notes, FidelityNote {
        event_index: Some(index),
        field: "payload",
        detail: "BLF export is best-effort in the bootstrap implementation and may not preserve every payload/layout detail".to_owned(),
    });
    proof {
        assert(notes_view(notes@) =~= notes_view(old(notes)@) + export_notes(event@, index));
    }
}

/// The notes written for the events, in order.
pub open spec fn events_export_notes(events: Seq<EventView>) -> Seq<NoteView>
    decreases events.len(),
{
    if events.len() == 0 {
        Seq::empty()
    } else {
        events_export_notes(events.drop_last()) + export_notes(events.last(), (events.len() - 1) as usize)
    }
}

/// Serialize events as a BLF file with a single uncompressed log, returning
/// the file's bytes and the notes on what the objects cannot hold.
pub fn encode_blf(events: &[CaptureEvent]) -> (r: (Vec<u8>, WriteReport))
    requires
        forall|i: int| 0 <= i < events@.len() ==> timestamp_ns(#[trigger] events@[i].timestamp) <= u64::MAX,
        144 + OBJECT_SIZE * events@.len() <= usize::MAX,
        144 + OBJECT_SIZE * events@.len() <= u64::MAX,
    ensures
        r.0@ == blf_file(events_view(events@)),
        notes_view(r.1.notes@) == events_export_notes(events_view(events@)),
{
    let ghost all = events_view(events@);
    let mut notes: Vec<FidelityNote> = Vec::new();
    let mut inner: Vec<u8> = Vec::new();
    let mut index: usize = 0;
    assert(all.take(0) =~= Seq::<EventView>::empty());
    assert(notes_view(notes@) =~= Seq::<NoteView>::empty());
    while index < events.len()
        invariant
            index <= events@.len(),
            all == events_view(events@),
            all.len() == events@.len(),
            forall|i: int| 0 <= i < events@.len() ==> timestamp_ns(#[trigger] events@[i].timestamp) <= u64::MAX,
            144 + OBJECT_SIZE * events@.len() <= usize::MAX,
            inner@ == objects_bytes(all.take(index as int)),
            inner@.len() == OBJECT_SIZE * index,
            notes_view(notes@) == events_export_notes(all.take(index as int)),
        decreases events@.len() - index,
    {
        let event = &events[index];
        let ghost before_notes = notes_view(notes@);
        push_export_notes(event, &mut notes, index);
        let message = build_can_message(event);
        let payload = encode_can_message(&message);
        proof {
            vstd::bytes::lemma_auto_spec_u64_to_from_le_bytes();
            vstd::bytes::lemma_auto_spec_u32_to_from_le_bytes();
            vstd::bytes::lemma_auto_spec_u16_to_from_le_bytes();
            assert(payload@ =~= message_bytes_for(event@));
        }
        let object = encode_object_header((16 + payload.len()) as u32, OBJECT_TYPE_CAN_MESSAGE2);
        proof {
            assert(all.take(index + 1).drop_last() =~= all.take(index as int));
            assert(all.take(index + 1).last() == event@);
            assert(notes_view(notes@) =~= before_notes + export_notes(event@, index));
            assert(OBJECT_SIZE * index + OBJECT_SIZE <= OBJECT_SIZE * events@.len()) by (nonlinear_arith)
                requires index < events@.len();
        }
        append_bytes(&mut inner, object.as_slice());
        append_bytes(&mut inner, payload.as_slice());
        index = index + 1;
    }
    assert(all.take(events@.len() as int) =~= all);
    let file_size: usize = 144 + inner.len();
    let mut file = encode_file_header(file_size as u64, inner.len() as u64, events.len() as u32);
    append_bytes(&mut file, inner.as_slice());
    (file, WriteReport { notes })
}

/// A CAN message object as read from a BLF file.
#[derive(Debug, Clone, PartialEq, Eq)]
pub struct BlfReadMessage {
    /// Timestamp in nanoseconds.
    pub timestamp_ns: u64,
    /// Channel number.
    pub channel: u16,
    /// Message flags.
    pub flags: u8,
    /// Payload length code.
    pub dlc: u8,
    /// Identifier with its format and class flags.
    pub id: u32,
    /// Payload bytes as stored.
    pub data: Vec<u8>,
    /// Bit count field.
    pub bit_count: u8,
}

/// An object read from a BLF file.
#[derive(Debug, Clone, PartialEq, Eq)]
pub enum BlfObject {
    /// A CAN message object.
    CanMessage(BlfReadMessage),
    /// Any other object, with a description of it.
    Other(String),
}

/// The contents of a CAN message object read from a BLF file.
pub struct BlfMessageView {
    pub timestamp_ns: u64,
    pub channel: u16,
    pub flags: u8,
    pub dlc: u8,
    pub id: u32,
    pub data: Seq<u8>,
    pub bit_count: u8,
}

impl View for BlfReadMessage {
    type V = BlfMessageView;

    open spec fn view(&self) -> BlfMessageView {
        BlfMessageView {
            timestamp_ns: self.timestamp_ns,
            channel: self.channel,
            flags: self.flags,
            dlc: self.dlc,
            id: self.id,
            data: self.data@,
            bit_count: self.bit_count,
        }
    }
}

/// The contents of an object read from a BLF file.
pub enum BlfObjectView {
    CanMessage(BlfMessageView),
    Other(Seq<char>),
}

impl View for BlfObject {
    type V = BlfObjectView;

    open spec fn view(&self) -> BlfObjectView {
        match self {
            BlfObject::CanMessage(m) => BlfObjectView::CanMessage(m@),
            BlfObject::Other(d) => BlfObjectView::Other(d@),
        }
    }
}

/// The contents of a list of objects.
pub open spec fn objects_view(objects: Seq<BlfObject>) -> Seq<BlfObjectView> {
    objects.map_values(|o: BlfObject| o@)
}

/// The identifier a stored identifier field decodes to, when valid.
pub open spec fn blf_id(raw: u32) -> Option<CanId> {
    let value = raw & 0x1fff_ffff;
    if raw & CAN_FLAG_EXTENDED != 0 {
        Some(CanId::spec_new(value, true))
    } else if (value as u16) <= MAX_STANDARD_ID {
        Some(CanId::spec_new((value as u16) as u32, false))
    } else {
        None
    }
}

/// The frame class a stored identifier field selects; error wins over remote.
pub open spec fn blf_class(raw: u32) -> FrameClass {
    if raw & CAN_FLAG_ERROR != 0 {
        FrameClass::Error
    } else if raw & CAN_FLAG_REMOTE != 0 {
        FrameClass::Remote
    } else {
        FrameClass::Data
    }
}

/// The payload length read from a message: the larger of the length code
/// and the bit count in bytes, at most 8.
pub open spec fn blf_data_len(m: BlfMessageView) -> int {
    let from_bits = m.bit_count / 8;
    min_of(if m.dlc >= from_bits { m.dlc as int } else { from_bits as int }, 8)
}

/// The payload length a message read back declares, as `blf_data_len`.
pub fn payload_len(m: &BlfReadMessage) -> (r: usize)
    ensures
        r == blf_data_len(m@),
{
    let from_bits = m.bit_count / 8;
    let wide: u8 = if m.dlc >= from_bits { m.dlc } else { from_bits };
    if wide < 8 { wide as usize } else { 8 }
}

/// The event a message decodes to, when its identifier is valid: a classic
/// frame, the channel as interface index, no interface name.
pub open spec fn blf_event(m: BlfMessageView) -> Option<EventView> {
    match blf_id(m.id) {
        Some(id) => Some(EventView {
            timestamp: Timestamp {
                seconds: (m.timestamp_ns / NANOS_PER_SECOND as u64) as i64,
                nanos: (m.timestamp_ns % NANOS_PER_SECOND as u64) as u32,
            },
            name: None,
            index: Some(m.channel as u32),
            direction: if m.flags & MESSAGE_FLAG_TX != 0 { Direction::Tx } else { Direction::Rx },
            frame: FrameView {
                id,
                class: blf_class(m.id),
                data: m.data.subrange(0, blf_data_len(m)),
                fd: false,
                fd_flags: FdFlags { bit_rate_switch: false, error_state_indicator: false },
            },
            annotations: Seq::empty(),
        }),
        None => None,
    }
}

/// Decode a stored identifier field: the flag selects the format, the low
/// 29 bits (16 for a standard identifier) hold the value.
pub fn decode_id(raw: u32) -> (r: Result<CanId, CodecError>)
    ensures
        r is Ok <==> blf_id(raw) is Some,
        r matches Ok(id) ==> blf_id(raw) == Some(id),
        r matches Err(err) ==> err matches CodecError::Core(CoreError::InvalidCanId { value, .. })
            && value == ((raw & 0x1fff_ffff) as u16) as u32,
{
    let value = raw & 0x1fff_ffff;
    assert(value <= 0x1fff_ffff) by (bit_vector)
        requires value == raw & 0x1fff_ffff;
    if raw & CAN_FLAG_EXTENDED != 0 {
        match CanId::extended(value) {
            Ok(id) => Ok(id),
            Err(e) => Err(CodecError::Core(e)),
        }
    } else {
        match CanId::standard(value as u16) {
            Ok(id) => Ok(id),
            Err(e) => Err(CodecError::Core(e)),
        }
    }
}

/// The note added for each CAN message read.
pub open spec fn import_note(event_index: usize) -> NoteView {
    NoteView {
        event_index: Some(event_index),
        field: "payload"@,
        detail: "BLF import is best-effort in the bootstrap implementation and may not preserve every payload/layout detail"@,
    }
}

/// Take in one object read from a BLF file: a CAN message becomes an event
/// (with a note on the best-effort layout), any other object a note.
pub fn import_blf_object(object: &BlfObject, events: &mut Vec<CaptureEvent>, notes: &mut Vec<FidelityNote>) -> (r: Result<(), CodecError>)
    requires
        object matches BlfObject::CanMessage(m) ==> (blf_id(m.id) is Some ==> m.data@.len() >= blf_data_len(m@)),
    ensures
        match object {
            BlfObject::CanMessage(m) => {
                &&& (r is Ok <==> blf_id(m.id) is Some)
                &&& notes_view(final(notes)@) == notes_view(old(notes)@).push(import_note(old(events)@.len() as usize))
                &&& r is Ok ==> events_view(final(events)@) == events_view(old(events)@).push(blf_event(m@).unwrap())
                &&& r matches Err(err) ==> err matches CodecError::Core(CoreError::InvalidCanId { value, .. })
                    && value == ((m.id & 0x1fff_ffff) as u16) as u32
            },
            BlfObject::Other(description) => {
                &&& r is Ok
                &&& final(events)@ == old(events)@
                &&& notes_view(final(notes)@) == notes_view(old(notes)@).push(NoteView {
                    event_index: None,
                    field: "object_type"@,
                    detail: "ignored BLF object "@ + description@,
                })
            },
        },
{
    match object {
        BlfObject::CanMessage(message) => {
            push_note(notes, FidelityNote {
                event_index: Some(events.len()),
                field: "payload",
                detail: "BLF import is best-effort in the bootstrap implementation and may not preserve every payload/layout detail".to_owned(),
            });
            let id = match decode_id(message.id) {
                Ok(id) => id,
                Err(e) => return Err(e),
            };
            let class = if message.id & CAN_FLAG_ERROR != 0 {
                FrameClass::Error
            } else if message.id & CAN_FLAG_REMOTE != 0 {
                FrameClass::Remote
            } else {
                FrameClass::Data
            };
            let data_len = payload_len(message);
            let data = crate::bytes::copy_range(message.data.as_slice(), 0, data_len);
            let frame = match CanFrame::new(id, class, data, false, FdFlags { bit_rate_switch: false, error_state_indicator: false }) {
                Ok(frame) => frame,
                Err(e) => return Err(CodecError::Core(e)),
            };
            let timestamp = ns_to_timestamp(message.timestamp_ns);
            let interface = InterfaceRef { name: None, index: Some(message.channel as u32) };
            let direction = if message.flags & MESSAGE_FLAG_TX != 0 { Direction::Tx } else { Direction::Rx };
            let event = CaptureEvent::new(timestamp, interface, direction, frame);
            let ghost before = events@;
            events.push(event);
            proof {
                assert(event@.annotations =~= Seq::<(Seq<char>, Seq<char>)>::empty());
                assert(event@ =~= blf_event(message@).unwrap());
                assert(events_view(events@) =~= events_view(before).push(event@));
            }
            Ok(())
        },
        BlfObject::Other(description) => {
            let mut detail = "ignored BLF object ".to_owned();
            detail.append(description.as_str());
            push_note(notes, FidelityNote { event_index: None, field: "object_type", detail });
            Ok(())
        },
    }
}

/// The identifier field keeps the identifier value below its flags and
/// gives back each flag.
pub proof fn lemma_id_bits(raw: u32, ext: bool, remote: bool, error: bool)
    by (bit_vector)
    requires
        raw <= 0x1fff_ffff,
    ensures
        ({
            let v = set_if32(set_if32(set_if32(raw, ext, CAN_FLAG_EXTENDED), remote, CAN_FLAG_REMOTE), error, CAN_FLAG_ERROR);
            &&& v & 0x1fff_ffff == raw
            &&& (v & CAN_FLAG_EXTENDED != 0) == ext
            &&& (v & CAN_FLAG_REMOTE != 0) == remote
            &&& (v & CAN_FLAG_ERROR != 0) == error
        }),
{
}

/// The message flags give back the direction flag.
pub proof fn lemma_message_flag_bits(tx: bool, fd: bool, brs: bool, esi: bool)
    by (bit_vector)
    ensures
        (set_if8(set_if8(set_if8(set_if8(0, tx, MESSAGE_FLAG_TX), fd, MESSAGE_FLAG_FD), brs, MESSAGE_FLAG_BRS), esi,
            MESSAGE_FLAG_ESI) & MESSAGE_FLAG_TX != 0) == tx,
{
}

/// The note for an object that is not a CAN message.
pub open spec fn ignored_note(description: Seq<char>) -> NoteView {
    NoteView { event_index: None, field: "object_type"@, detail: "ignored BLF object "@ + description }
}

/// Taking in one more object after `acc`.
pub open spec fn import_step(acc: Option<(Seq<EventView>, Seq<NoteView>)>, object: BlfObjectView)
    -> Option<(Seq<EventView>, Seq<NoteView>)>
{
    match acc {
        None => None,
        Some(acc) => match object {
            BlfObjectView::CanMessage(m) => match blf_event(m) {
                Some(e) => Some((acc.0.push(e), acc.1.push(import_note(acc.0.len() as usize)))),
                None => None,
            },
            BlfObjectView::Other(d) => Some((acc.0, acc.1.push(ignored_note(d)))),
        },
    }
}

/// What taking in a run of objects gives, in order: an event and a note for
/// each CAN message and a note for each other object; none when a CAN
/// message has an invalid identifier.
pub open spec fn blf_import(objects: Seq<BlfObjectView>) -> Option<(Seq<EventView>, Seq<NoteView>)>
    decreases objects.len(),
{
    if objects.len() == 0 {
        Some((Seq::empty(), Seq::empty()))
    } else {
        import_step(blf_import(objects.drop_last()), objects.last())
    }
}

proof fn lemma_blf_import_take(objects: Seq<BlfObjectView>, i: int)
    requires
        0 <= i < objects.len(),
    ensures
        blf_import(objects.take(i + 1)) == import_step(blf_import(objects.take(i)), objects[i]),
{
    assert(objects.take(i + 1).drop_last() =~= objects.take(i));
    assert(objects.take(i + 1).last() == objects[i]);
}

/// Every CAN message that taking in the objects reaches with a valid
/// identifier stores at least the payload length it declares.
pub open spec fn blf_importable(objects: Seq<BlfObjectView>) -> bool {
    forall|i: int| 0 <= i < objects.len() && blf_import(objects.take(i)) is Some
        ==> (#[trigger] objects[i] matches BlfObjectView::CanMessage(m)
            ==> (blf_id(m.id) is Some ==> m.data.len() >= blf_data_len(m)))
}

/// `r` is what taking in the objects gives: the events and notes, or the
/// invalid identifier of the first CAN message that has one.
pub open spec fn is_import_of(objects: Seq<BlfObjectView>, r: Result<ReadReport, CodecError>) -> bool {
    match r {
        Ok(report) => blf_import(objects) == Some((events_view(report.events@), notes_view(report.notes@))),
        Err(err) => blf_import(objects) is None && exists|i: int| {
            &&& 0 <= i < objects.len()
            &&& blf_import(objects.take(i)) is Some
            &&& #[trigger] objects[i] matches BlfObjectView::CanMessage(m)
            &&& blf_id(m.id) is None
            &&& err matches CodecError::Core(CoreError::InvalidCanId { value, .. })
            &&& value == ((m.id & 0x1fff_ffff) as u16) as u32
        },
    }
}

proof fn lemma_blf_import_stays_none(objects: Seq<BlfObjectView>, i: int, k: int)
    requires
        0 <= i <= k <= objects.len(),
        blf_import(objects.take(i)) is None,
    ensures
        blf_import(objects.take(k)) is None,
    decreases k - i,
{
    if k > i {
        lemma_blf_import_stays_none(objects, i, k - 1);
        assert(objects.take(k).drop_last() =~= objects.take(k - 1));
    }
}

/// Take in the objects read from a BLF file, in order.
#[verifier::rlimit(40)]
pub fn import_blf_objects(objects: &Vec<BlfObject>) -> (r: Result<ReadReport, CodecError>)
    requires
        blf_importable(objects_view(objects@)),
    ensures
        is_import_of(objects_view(objects@), r),
{
    let ghost ov = objects_view(objects@);
    let mut events: Vec<CaptureEvent> = Vec::new();
    let mut notes: Vec<FidelityNote> = Vec::new();
    let mut i: usize = 0;
    assert(ov.take(0) =~= Seq::<BlfObjectView>::empty());
    assert(events_view(events@) =~= Seq::<EventView>::empty());
    assert(notes_view(notes@) =~= Seq::<NoteView>::empty());
    while i < objects.len()
        invariant
            ov == objects_view(objects@),
            ov.len() == objects@.len(),
            i <= objects@.len(),
            blf_importable(ov),
            blf_import(ov.take(i as int)) == Some((events_view(events@), notes_view(notes@))),
        decreases objects@.len() - i,
    {
        let object = &objects[i];
        proof {
            assert(ov[i as int] == object@);
            lemma_blf_import_take(ov, i as int);
            assert(events_view(events@).len() == events@.len());
        }
        match import_blf_object(object, &mut events, &mut notes) {
            Ok(()) => {
                assert(blf_import(ov.take(i + 1)) == Some((events_view(events@), notes_view(notes@))));
            },
            Err(e) => {
                proof {
                    assert(blf_import(ov.take(i + 1)) is None);
                    lemma_blf_import_stays_none(ov, i + 1, ov.len() as int);
                    assert(ov.take(ov.len() as int) =~= ov);
                }
                return Err(e);
            },
        }
        i = i + 1;
    }
    assert(ov.take(ov.len() as int) =~= ov);
    Ok(ReadReport { events, notes })
}

/// Whether every CAN message that taking in the objects reaches with a
/// valid identifier stores the payload length it declares.
pub fn blf_objects_importable(objects: &Vec<BlfObject>) -> (r: bool)
    ensures
        r == blf_importable(objects_view(objects@)),
{
    let ghost ov = objects_view(objects@);
    let mut i: usize = 0;
    while i < objects.len()
        invariant
            ov == objects_view(objects@),
            ov.len() == objects@.len(),
            i <= objects@.len(),
            blf_import(ov.take(i as int)) is Some,
            forall|j: int| 0 <= j < i && blf_import(ov.take(j)) is Some
                ==> (#[trigger] ov[j] matches BlfObjectView::CanMessage(m)
                    ==> (blf_id(m.id) is Some ==> m.data.len() >= blf_data_len(m))),
        decreases objects@.len() - i,
    {
        proof {
            assert(ov[i as int] == objects@[i as int]@);
            lemma_blf_import_take(ov, i as int);
        }
        match &objects[i] {
            BlfObject::CanMessage(m) => {
                let valid = decode_id(m.id).is_ok();
                if valid && m.data.len() < payload_len(m) {
                    return false;
                }
                if !valid {
                    proof {
                        assert(blf_import(ov.take(i + 1)) is None);
                        assert forall|j: int| 0 <= j < ov.len() && blf_import(ov.take(j)) is Some
                            implies (#[trigger] ov[j] matches BlfObjectView::CanMessage(m)
                                ==> (blf_id(m.id) is Some ==> m.data.len() >= blf_data_len(m))) by {
                            if j > i {
                                lemma_blf_import_stays_none(ov, i + 1, j);
                            }
                        }
                    }
                    return true;
                }
            },
            BlfObject::Other(_) => {},
        }
        i = i + 1;
    }
    true
}

/// The little-endian 32-bit field of `bytes` at `at`.
pub open spec fn field32(bytes: Seq<u8>, at: int) -> u32 {
    vstd::bytes::spec_u32_from_le_bytes(bytes.subrange(at, at + 4))
}

/// From `at` on, the bytes are CAN message objects (type 86) laid end to
/// end, each starting with its `LOBJ` signature, at least 48 bytes long as
/// its header says and within the bytes; fewer than 16 bytes may trail.
pub open spec fn message_objects_from(bytes: Seq<u8>, at: int) -> bool
    decreases bytes.len() - at,
    when 0 <= at
{
    if bytes.len() - at < 16 {
        true
    } else {
        &&& bytes.subrange(at, at + 4) == lobj_signature()
        &&& field32(bytes, at + 12) == OBJECT_TYPE_CAN_MESSAGE2
        &&& field32(bytes, at + 8) >= 48
        &&& at + field32(bytes, at + 8) <= bytes.len()
        &&& message_objects_from(bytes, at + field32(bytes, at + 8))
    }
}

/// A BLF file of the plain shape this library writes: the 144-byte `LOGG`
/// file header, then CAN message objects laid end to end.
pub open spec fn plain_blf(bytes: Seq<u8>) -> bool {
    &&& bytes.len() >= 144
    &&& bytes.subrange(0, 4) == logg_signature()
    &&& field32(bytes, 4) == 144
    &&& message_objects_from(bytes, 144)
}

/// Read the little-endian 32-bit field at `at`.
fn read_field32(bytes: &[u8], at: usize) -> (r: u32)
    requires
        at + 4 <= bytes@.len(),
    ensures
        r == field32(bytes@, at as int),
{
    let n = bytes.len();
    assert(at + 4 <= n);
    vstd::bytes::u32_from_le_bytes(vstd::slice::slice_subrange(bytes, at, at + 4))
}

/// Whether four bytes at `at` are the given signature.
fn has_signature(bytes: &[u8], at: usize, sig: [u8; 4]) -> (r: bool)
    requires
        at + 4 <= bytes@.len(),
    ensures
        r == (bytes@.subrange(at as int, at + 4) == sig@),
{
    let r = bytes[at] == sig[0] && bytes[at + 1] == sig[1] && bytes[at + 2] == sig[2] && bytes[at + 3] == sig[3];
    assert(r == (bytes@.subrange(at as int, at + 4) =~= sig@));
    r
}

/// Whether the bytes are a BLF file of the plain shape.
pub fn is_plain_blf(bytes: &[u8]) -> (r: bool)
    ensures
        r == plain_blf(bytes@),
{
    if bytes.len() < 144 {
        return false;
    }
    assert(seq![0x4cu8, 0x4fu8, 0x47u8, 0x47u8] =~= logg_signature());
    if !has_signature(bytes, 0, [0x4c, 0x4f, 0x47, 0x47]) || read_field32(bytes, 4) != 144 {
        return false;
    }
    assert(seq![0x4cu8, 0x4fu8, 0x42u8, 0x4au8] =~= lobj_signature());
    let mut at: usize = 144;
    while bytes.len() - at >= 16
        invariant
            144 <= at <= bytes@.len(),
            message_objects_from(bytes@, 144) == message_objects_from(bytes@, at as int),
        decreases bytes@.len() - at,
    {
        if !has_signature(bytes, at, [0x4c, 0x4f, 0x42, 0x4a]) {
            return false;
        }
        let size = read_field32(bytes, at + 8);
        if read_field32(bytes, at + 12) != OBJECT_TYPE_CAN_MESSAGE2 || size < 48 || size as usize > bytes.len() - at {
            return false;
        }
        at = at + size as usize;
    }
    true
}

/// What the `ablf` reader makes of the bytes of a BLF file: none when its
/// file statistics cannot be read, `Some(None)` when they are not valid,
/// else the objects it yields, in order.
pub uninterp spec fn blf_parse(bytes: Seq<u8>) -> Option<Option<Seq<BlfObjectView>>>;

/// Calls `BlfFile::from_reader` on the bytes, `BlfFile::is_valid`, and
/// iterates the file, keeping CAN message objects (type 86) with their
/// fields and describing other objects by their debug text; the outcome is
/// named `blf_parse`. On a file of the plain shape the 144-byte statistics
/// read and are valid, and every object reads in full, so the iteration
/// yields the objects and stops at the end without a panic; other files
/// are left out, as `ablf` subtracts unchecked sizes and retries byte by
/// byte on a bad signature.
#[verifier::external_body]
fn blf_objects(bytes: Vec<u8>) -> (r: Result<Option<Vec<BlfObject>>, std::io::Error>)
    requires
        plain_blf(bytes@),
    ensures
        match r {
            Ok(Some(objects)) => blf_parse(bytes@) == Some(Some(objects_view(objects@))),
            _ => false,
        },
{
    let blf = BlfFile::from_reader(Cursor::new(bytes)).map_err(|(error, _)| error)?;
    if !blf.is_valid() {
        return Ok(None);
    }
    Ok(Some(blf.into_iter().map(|object| match object.data {
        ObjectTypes::CanMessage86(m) => BlfObject::CanMessage(BlfReadMessage {
            timestamp_ns: m.header.timestamp_ns, channel: m.channel, flags: m.flags, dlc: m.dlc,
            id: m.id, data: m.data, bit_count: m.bit_count,
        }),
        other => BlfObject::Other(format!("{other:?}")),
    }).collect()))
}

/// Read the bytes of a BLF file of the plain shape into capture events.
/// `None` for a file of another shape, and for one with a CAN message,
/// reached with a valid identifier, that stores less payload than it
/// declares.
pub fn read_blf_bytes(bytes: Vec<u8>) -> (r: Option<Result<ReadReport, CodecError>>)
    ensures
        !plain_blf(bytes@) ==> r is None,
        plain_blf(bytes@) ==> (blf_parse(bytes@) matches Some(Some(objects)) && if blf_importable(objects) {
            r matches Some(res) && is_import_of(objects, res)
        } else {
            r is None
        }),
{
    if !is_plain_blf(bytes.as_slice()) {
        return None;
    }
    match blf_objects(bytes) {
        Ok(Some(objects)) => {
            if blf_objects_importable(&objects) {
                Some(import_blf_objects(&objects))
            } else {
                None
            }
        },
        _ => None,
    }
}

/// Reading back the fields that the message written for an event carries
/// ahead of its payload gives an event with the same identifier, frame
/// class and direction; the same timestamp when it is at or after the
/// epoch; the event's interface index when it is known and fits 16 bits;
/// and, for a classic frame whose payload and bit count read back as
/// written, the same payload.
pub proof fn lemma_message_round_trip(e: EventView, m: BlfMessage, read: BlfReadMessage)
    requires
        e.frame.wf(),
        is_message_for(m, e),
        read.timestamp_ns == m.timestamp_ns,
        read.channel == m.channel,
        read.flags == m.flags,
        read.dlc == m.dlc,
        read.id == m.id,
    ensures
        blf_event(read@) is Some,
        blf_event(read@).unwrap().frame.id == e.frame.id,
        blf_event(read@).unwrap().frame.class == e.frame.class,
        blf_event(read@).unwrap().direction == e.direction,
        e.timestamp.seconds >= 0 && e.timestamp.nanos < NANOS_PER_SECOND ==> blf_event(read@).unwrap().timestamp == e.timestamp,
        e.index matches Some(i) && i <= 0xffff ==> blf_event(read@).unwrap().index == e.index,
        !e.frame.fd && read.data@ == m.data@ && read.bit_count == m.bit_count
            ==> blf_event(read@).unwrap().frame.data == e.frame.data,
{
    let raw = e.frame.id.spec_raw();
    lemma_id_bits(raw, e.frame.id.spec_extended(), e.frame.class == FrameClass::Remote, e.frame.class == FrameClass::Error);
    lemma_message_flag_bits(e.direction == Direction::Tx, e.frame.fd, e.frame.fd_flags.bit_rate_switch,
        e.frame.fd_flags.error_state_indicator);
    e.frame.id.lemma_fields();
    if !e.frame.id.spec_extended() {
        assert((raw as u16) as u32 == raw) by (bit_vector) requires raw <= 0x7ff;
    }
    assert(blf_id(read.id) == Some(e.frame.id));
    if e.timestamp.seconds >= 0 && e.timestamp.nanos < NANOS_PER_SECOND {
        let s = e.timestamp.seconds as int;
        let n = e.timestamp.nanos as int;
        assert((s * 1_000_000_000 + n) / 1_000_000_000 == s && (s * 1_000_000_000 + n) % 1_000_000_000 == n)
            by (nonlinear_arith)
            requires 0 <= n < 1_000_000_000, s >= 0;
    }
    if let Some(i) = e.index {
        if i <= 0xffff {
            assert((i as u16) as u32 == i) by (bit_vector) requires i <= 0xffff;
        }
    }
    if !e.frame.fd && read.data@ == m.data@ && read.bit_count == m.bit_count {
        let len = e.frame.data.len() as int;
        assert(len <= 8);
        assert(read.bit_count / 8 == len);
        assert(blf_data_len(read@) == len);
        assert(read.data@.subrange(0, len) =~= e.frame.data);
    }
}

/// Every event written to a BLF file gets a note on the best-effort
/// payload layout, last among its notes, and at least one more when part
/// of it is lost: annotations, a timestamp before the epoch, an interface
/// name, or an interface index that is unknown or wider than 16 bits.
pub proof fn lemma_every_event_noted(events: Seq<EventView>, i: int)
    requires
        0 <= i < events.len(),
    ensures
        export_notes(events[i], i as usize).last().event_index == Some(i as usize),
        export_notes(events[i], i as usize).last().field == "payload"@,
        events[i].annotations.len() > 0 || events[i].timestamp.seconds < 0 || events[i].name is Some
            || !(events[i].index matches Some(ix) && ix <= 0xffff)
            ==> export_notes(events[i], i as usize).len() >= 2,
        events_export_notes(events.take(i + 1)) == events_export_notes(events.take(i)) + export_notes(events[i], i as usize),
{
    assert(events.take(i + 1).drop_last() =~= events.take(i));
}

/// The CAN message object written for an event, as a reader sees it.
pub open spec fn written_message(e: EventView) -> BlfMessageView {
    let len = min_of(e.frame.data.len() as int, 64);
    BlfMessageView {
        timestamp_ns: timestamp_ns(e.timestamp) as u64,
        channel: (match e.index { Some(i) => i, None => 1 }) as u16,
        flags: message_flags(e),
        dlc: len as u8,
        id: message_id(e),
        data: padded(e.frame.data, 8),
        bit_count: (len * 8) as u8,
    }
}

/// The objects written for events, one CAN message each.
pub open spec fn written_objects(events: Seq<EventView>) -> Seq<BlfObjectView> {
    events.map_values(|e: EventView| BlfObjectView::CanMessage(written_message(e)))
}

/// An event read back from the message written for `e` keeps what the
/// message can hold.
pub open spec fn reads_back_as(read: EventView, e: EventView) -> bool {
    &&& read.frame.id == e.frame.id
    &&& read.frame.class == e.frame.class
    &&& read.direction == e.direction
    &&& (e.timestamp.seconds >= 0 && e.timestamp.nanos < NANOS_PER_SECOND ==> read.timestamp == e.timestamp)
    &&& (e.index matches Some(i) && i <= 0xffff ==> read.index == e.index)
    &&& (!e.frame.fd ==> read.frame.data == e.frame.data)
}

proof fn lemma_written_message_reads_back(e: EventView)
    requires
        e.frame.wf(),
        timestamp_ns(e.timestamp) <= u64::MAX,
    ensures
        blf_event(written_message(e)) matches Some(read) && reads_back_as(read, e),
        written_message(e).data.len() >= blf_data_len(written_message(e)),
{
    let m = written_message(e);
    let raw = e.frame.id.spec_raw();
    lemma_id_bits(raw, e.frame.id.spec_extended(), e.frame.class == FrameClass::Remote, e.frame.class == FrameClass::Error);
    lemma_message_flag_bits(e.direction == Direction::Tx, e.frame.fd, e.frame.fd_flags.bit_rate_switch,
        e.frame.fd_flags.error_state_indicator);
    e.frame.id.lemma_fields();
    if !e.frame.id.spec_extended() {
        assert((raw as u16) as u32 == raw) by (bit_vector) requires raw <= 0x7ff;
    }
    assert(blf_id(m.id) == Some(e.frame.id));
    if e.timestamp.seconds >= 0 && e.timestamp.nanos < NANOS_PER_SECOND {
        let s = e.timestamp.seconds as int;
        let n = e.timestamp.nanos as int;
        assert((s * 1_000_000_000 + n) / 1_000_000_000 == s && (s * 1_000_000_000 + n) % 1_000_000_000 == n)
            by (nonlinear_arith)
            requires 0 <= n < 1_000_000_000, s >= 0;
    }
    if let Some(i) = e.index {
        if i <= 0xffff {
            assert((i as u16) as u32 == i) by (bit_vector) requires i <= 0xffff;
        }
    }
    assert(m.data.len() == 8);
    if !e.frame.fd {
        let len = e.frame.data.len() as int;
        assert(len <= 8);
        assert(m.bit_count / 8 == len);
        assert(blf_data_len(m) == len);
        assert(m.data.subrange(0, len) =~= e.frame.data);
    }
}

/// Taking in the objects written for valid events gives one event per
/// event, in order, each keeping its identifier, frame class and direction;
/// its timestamp when at or after the epoch and normalized; its interface
/// index when known and within 16 bits; and, for a classic frame, its
/// payload. Every payload the objects declare is stored.
pub proof fn lemma_file_round_trip(events: Seq<EventView>)
    requires
        forall|i: int| 0 <= i < events.len() ==> (#[trigger] events[i]).frame.wf()
            && timestamp_ns(events[i].timestamp) <= u64::MAX,
    ensures
        blf_importable(written_objects(events)),
        blf_import(written_objects(events)) matches Some(acc) && acc.0.len() == events.len()
            && forall|i: int| 0 <= i < events.len() ==> reads_back_as(#[trigger] acc.0[i], events[i]),
    decreases events.len(),
{
    let objects = written_objects(events);
    if events.len() > 0 {
        let prefix = events.drop_last();
        assert forall|i: int| 0 <= i < prefix.len() implies (#[trigger] prefix[i]).frame.wf()
            && timestamp_ns(prefix[i].timestamp) <= u64::MAX by {
            assert(prefix[i] == events[i]);
        }
        lemma_file_round_trip(prefix);
        assert(objects.drop_last() =~= written_objects(prefix));
        let e = events.last();
        assert(e == events[events.len() - 1]);
        lemma_written_message_reads_back(e);
        let acc = blf_import(written_objects(prefix)).unwrap();
        let read = blf_event(written_message(e)).unwrap();
        assert(blf_import(objects) == Some((acc.0.push(read), acc.1.push(import_note(acc.0.len() as usize)))));
        assert forall|i: int| 0 <= i < events.len() implies reads_back_as(#[trigger] acc.0.push(read)[i], events[i]) by {
            if i < prefix.len() {
                assert(prefix[i] == events[i]);
            }
        }
        assert forall|i: int| 0 <= i < objects.len() && blf_import(objects.take(i)) is Some
            implies (#[trigger] objects[i] matches BlfObjectView::CanMessage(m)
                ==> (blf_id(m.id) is Some ==> m.data.len() >= blf_data_len(m))) by {
            lemma_written_message_reads_back(events[i]);
        }
    } else {
        assert(objects =~= Seq::<BlfObjectView>::empty());
    }
}

/// One CAN message object written for an event.
pub open spec fn object_for(e: EventView) -> Seq<u8> {
    object_header_bytes(OBJECT_SIZE as u32, OBJECT_TYPE_CAN_MESSAGE2) + message_bytes_for(e)
}

proof fn lemma_object_for(e: EventView)
    ensures
        object_for(e).len() == OBJECT_SIZE,
        object_for(e).subrange(0, 4) == lobj_signature(),
        field32(object_for(e), 8) == OBJECT_SIZE,
        field32(object_for(e), 12) == OBJECT_TYPE_CAN_MESSAGE2,
{
    vstd::bytes::lemma_auto_spec_u64_to_from_le_bytes();
    vstd::bytes::lemma_auto_spec_u32_to_from_le_bytes();
    vstd::bytes::lemma_auto_spec_u16_to_from_le_bytes();
    let o = object_for(e);
    assert(o.subrange(0, 4) =~= lobj_signature());
    assert(o.subrange(8, 12) =~= le32(OBJECT_SIZE as u32));
    assert(o.subrange(12, 16) =~= le32(OBJECT_TYPE_CAN_MESSAGE2));
}

proof fn lemma_objects_front(events: Seq<EventView>)
    requires
        events.len() > 0,
    ensures
        objects_bytes(events) == object_for(events[0]) + objects_bytes(events.drop_first()),
    decreases events.len(),
{
    if events.len() == 1 {
        assert(events.drop_last() =~= Seq::<EventView>::empty());
        assert(events.drop_first() =~= Seq::<EventView>::empty());
        assert(objects_bytes(events) =~= object_for(events[0]) + objects_bytes(events.drop_first()));
    } else {
        let front = events.drop_last();
        lemma_objects_front(front);
        assert(front.drop_first() =~= events.drop_first().drop_last());
        assert(events.drop_first().last() == events.last());
        assert(objects_bytes(events) =~= object_for(events[0]) + objects_bytes(events.drop_first()));
    }
}

proof fn lemma_objects_walk(bytes: Seq<u8>, at: int, events: Seq<EventView>)
    requires
        0 <= at,
        at + objects_bytes(events).len() == bytes.len(),
        bytes.subrange(at, bytes.len() as int) == objects_bytes(events),
        objects_bytes(events).len() == OBJECT_SIZE * events.len(),
    ensures
        message_objects_from(bytes, at),
    decreases events.len(),
{
    if events.len() > 0 {
        lemma_objects_front(events);
        let o = object_for(events[0]);
        lemma_object_for(events[0]);
        let rest = events.drop_first();
        assert(OBJECT_SIZE * rest.len() + OBJECT_SIZE == OBJECT_SIZE * events.len()) by (nonlinear_arith)
            requires rest.len() + 1 == events.len();
        assert(objects_bytes(rest).len() == OBJECT_SIZE * rest.len());
        assert(bytes.subrange(at, at + 54) =~= o);
        assert(bytes.subrange(at, at + 4) =~= o.subrange(0, 4));
        assert(bytes.subrange(at + 8, at + 12) =~= o.subrange(8, 12));
        assert(bytes.subrange(at + 12, at + 16) =~= o.subrange(12, 16));
        let tail = bytes.subrange(at, bytes.len() as int);
        assert(tail == o + objects_bytes(rest));
        assert(tail.subrange(54, tail.len() as int) =~= objects_bytes(rest));
        assert(bytes.subrange(at + 54, bytes.len() as int) =~= tail.subrange(54, tail.len() as int));
        lemma_objects_walk(bytes, at + 54, rest);
    }
}

proof fn lemma_objects_len(events: Seq<EventView>)
    ensures
        objects_bytes(events).len() == OBJECT_SIZE * events.len(),
    decreases events.len(),
{
    if events.len() > 0 {
        lemma_objects_len(events.drop_last());
        lemma_object_for(events.last());
        assert(objects_bytes(events) == objects_bytes(events.drop_last()) + object_for(events.last()));
        assert(OBJECT_SIZE * (events.len() - 1) + OBJECT_SIZE == OBJECT_SIZE * events.len()) by (nonlinear_arith);
    }
}

/// Every BLF file this library writes has the plain shape its reader takes.
pub proof fn lemma_written_file_is_plain(events: Seq<EventView>)
    ensures
        plain_blf(blf_file(events)),
{
    vstd::bytes::lemma_auto_spec_u64_to_from_le_bytes();
    vstd::bytes::lemma_auto_spec_u32_to_from_le_bytes();
    vstd::bytes::lemma_auto_spec_u16_to_from_le_bytes();
    let f = blf_file(events);
    let header = file_header_bytes((144 + OBJECT_SIZE * events.len()) as u64, (OBJECT_SIZE * events.len()) as u64,
        events.len() as u32);
    assert(header.len() == 144);
    lemma_objects_len(events);
    assert(f == header + objects_bytes(events));
    assert(f.subrange(0, 4) =~= logg_signature());
    assert(f.subrange(4, 8) =~= le32(144));
    assert(f.subrange(144, f.len() as int) =~= objects_bytes(events));
    lemma_objects_walk(f, 144, events);
}

} // verus!
