//! The SocketCAN wire form of frames: the kernel's classic and CAN FD frame
//! structures as plain values, and the events built from received frames.

use vstd::prelude::*;
use std::time::SystemTime;
use crate::bytes::{copy_range, min_of, padded, push_padded};
use crate::model::{
    CanFrame, CanId, CaptureEvent, CoreError, Direction, FdFlags, FrameClass, FrameView, InterfaceRef, Timestamp,
};

verus! {

/// Identifier flag: 29-bit identifier.
pub const CAN_EFF_FLAG: u32 = 0x8000_0000;
/// Identifier flag: remote frame.
pub const CAN_RTR_FLAG: u32 = 0x4000_0000;
/// Identifier flag: error frame.
pub const CAN_ERR_FLAG: u32 = 0x2000_0000;
/// Mask of a 29-bit identifier.
pub const CAN_EFF_MASK: u32 = 0x1fff_ffff;
/// CAN FD flag: bit rate switch.
pub const CANFD_BRS: u8 = 0x01;
/// CAN FD flag: error state indicator.
pub const CANFD_ESI: u8 = 0x02;
/// Size of the kernel's CAN FD frame structure.
pub const CANFD_FRAME_SIZE: usize = 72;
/// Size of the kernel's classic CAN frame structure.
pub const CAN_FRAME_SIZE: usize = 16;

/// SocketCAN backend errors.
#[derive(Debug)]
pub enum Error {
    /// I/O failed.
    Io(std::io::Error),
    /// The current platform does not support SocketCAN.
    UnsupportedPlatform,
    /// The named interface could not be resolved.
    UnknownInterface(String),
    /// Core frame validation failed.
    Core(CoreError),
}

/// Minimal interface description surfaced by the backend.
#[derive(Debug, Clone, PartialEq, Eq)]
pub struct InterfaceInfo {
    /// Interface name.
    pub name: String,
    /// Numeric ifindex.
    pub index: u32,
}

/// `value` with `bit` set when `cond` holds.
pub open spec fn set_if(value: u32, cond: bool, bit: u32) -> u32 {
    if cond { value | bit } else { value }
}

/// The kernel identifier word of a frame: the identifier value with the
/// extended, remote and error flags.
pub open spec fn native_id(f: FrameView) -> u32 {
    let v = set_if(f.id.spec_raw(), f.id.spec_extended(), CAN_EFF_FLAG);
    let v = set_if(v, f.class == FrameClass::Remote, CAN_RTR_FLAG);
    set_if(v, f.class == FrameClass::Error, CAN_ERR_FLAG)
}

/// The kernel identifier word of a frame.
pub fn can_id_from_frame(frame: &CanFrame) -> (raw: u32)
    ensures
        raw == native_id(frame@),
{
    let mut raw = frame.id.raw();
    if frame.id.is_extended() {
        raw = raw | CAN_EFF_FLAG;
    }
    match frame.class {
        FrameClass::Remote => raw = raw | CAN_RTR_FLAG,
        FrameClass::Error => raw = raw | CAN_ERR_FLAG,
        FrameClass::Data => {},
    }
    raw
}

/// A kernel frame structure as plain values: a CAN FD frame (72 bytes on
/// the wire, 64 payload bytes) or a classic one (16 bytes, 8 payload bytes).
#[derive(Debug, Clone, PartialEq, Eq)]
pub struct NativeFrame {
    /// Whether this is the CAN FD structure.
    pub fd: bool,
    /// Identifier word.
    pub can_id: u32,
    /// Payload length.
    pub len: u8,
    /// CAN FD flags; zero in the classic structure.
    pub flags: u8,
    /// Payload buffer, 64 bytes for CAN FD and 8 for classic.
    pub data: Vec<u8>,
}

/// The CAN FD flag byte of a frame.
pub open spec fn native_flags(f: FrameView) -> u8 {
    let v: u8 = if f.fd_flags.bit_rate_switch { CANFD_BRS } else { 0 };
    if f.fd_flags.error_state_indicator { v | CANFD_ESI } else { v }
}

/// Whether `n` is the kernel structure written for frame `f`.
pub open spec fn is_native_for(n: NativeFrame, f: FrameView) -> bool {
    &&& n.fd == f.fd
    &&& n.can_id == native_id(f)
    &&& n.len == f.data.len() as u8
    &&& n.flags == (if f.fd { native_flags(f) } else { 0u8 })
    &&& n.data@ == padded(f.data, if f.fd { 64 } else { 8 })
}

/// The kernel structure that sending a frame writes; a frame's payload must
/// fit its kind.
pub fn native_frame_for(frame: &CanFrame) -> (n: NativeFrame)
    requires
        frame.data@.len() <= crate::model::max_payload(frame.fd),
    ensures
        is_native_for(n, frame@),
{
    let mut data: Vec<u8> = Vec::new();
    if frame.fd {
        push_padded(&mut data, frame.data.as_slice(), 64);
        let mut flags: u8 = 0;
        if frame.fd_flags.bit_rate_switch {
            flags = flags | CANFD_BRS;
        }
        if frame.fd_flags.error_state_indicator {
            flags = flags | CANFD_ESI;
        }
        assert(flags == native_flags(frame@)) by {
            assert(0u8 | CANFD_BRS == CANFD_BRS) by (bit_vector);
            assert(0u8 | CANFD_ESI == CANFD_ESI) by (bit_vector);
        }
        NativeFrame { fd: true, can_id: can_id_from_frame(frame), len: frame.data.len() as u8, flags, data }
    } else {
        push_padded(&mut data, frame.data.as_slice(), 8);
        NativeFrame { fd: false, can_id: can_id_from_frame(frame), len: frame.data.len() as u8, flags: 0, data }
    }
}

/// The frame a received kernel structure decodes to. `full_fd` tells
/// whether a whole CAN FD structure was received; otherwise the length is
/// capped at 8 and the flags are ignored.
pub open spec fn received_frame(can_id: u32, len: u8, flags: u8, data: Seq<u8>, full_fd: bool) -> FrameView {
    let (fd, n, fl) = if full_fd { (true, len as int, flags) } else { (false, min_of(len as int, 8), 0u8) };
    FrameView {
        id: if can_id & CAN_EFF_FLAG != 0 {
            CanId::spec_new(can_id & CAN_EFF_MASK, true)
        } else {
            CanId::spec_new(((can_id & 0x7ff) as u16) as u32, false)
        },
        class: if can_id & CAN_ERR_FLAG != 0 {
            FrameClass::Error
        } else if can_id & CAN_RTR_FLAG != 0 {
            FrameClass::Remote
        } else {
            FrameClass::Data
        },
        data: data.subrange(0, min_of(n, data.len() as int)),
        fd,
        fd_flags: FdFlags { bit_rate_switch: fl & CANFD_BRS != 0, error_state_indicator: fl & CANFD_ESI != 0 },
    }
}

/// Decode a received kernel frame structure. `data` is the structure's
/// 64-byte payload buffer; `full_fd` tells whether a whole CAN FD structure
/// was received.
pub fn frame_from_native(can_id: u32, len: u8, flags: u8, data: &[u8], full_fd: bool) -> (r: Result<CanFrame, CoreError>)
    requires
        data@.len() == 64,
    ensures
        r is Ok,
        r matches Ok(f) ==> f@ == received_frame(can_id, len, flags, data@, full_fd) && f.wf(),
{
    let (fd_mode, length, fd_flags): (bool, usize, u8) = if full_fd {
        (true, len as usize, flags)
    } else {
        (false, if len < 8 { len as usize } else { 8 }, 0)
    };
    let id = if can_id & CAN_EFF_FLAG != 0 {
        let value = can_id & CAN_EFF_MASK;
        assert(value <= 0x1fff_ffff) by (bit_vector)
            requires value == can_id & CAN_EFF_MASK;
        match CanId::extended(value) {
            Ok(id) => id,
            Err(e) => return Err(e),
        }
    } else {
        let value = can_id & 0x7ff;
        assert(value <= 0x7ff && (value as u16) as u32 == value) by (bit_vector)
            requires value == can_id & 0x7ff;
        match CanId::standard(value as u16) {
            Ok(id) => id,
            Err(e) => return Err(e),
        }
    };
    let class = if can_id & CAN_ERR_FLAG != 0 {
        FrameClass::Error
    } else if can_id & CAN_RTR_FLAG != 0 {
        FrameClass::Remote
    } else {
        FrameClass::Data
    };
    let take: usize = if length < data.len() { length } else { data.len() };
    let payload = copy_range(data, 0, take);
    CanFrame::new(
        id,
        class,
        payload,
        fd_mode,
        FdFlags { bit_rate_switch: fd_flags & CANFD_BRS != 0, error_state_indicator: fd_flags & CANFD_ESI != 0 },
    )
}

/// The capture event for a frame received now on an interface.
pub fn received_event(frame: CanFrame, now: SystemTime, interface: &str, ifindex: u32) -> (r: Result<CaptureEvent, CoreError>)
    ensures
        r is Ok <==> crate::model::system_timestamp(now) is Some,
        r matches Err(e) ==> e == CoreError::TimestampBeforeEpoch,
        r matches Ok(event) ==> {
            &&& event.frame == frame
            &&& event.interface.name matches Some(n) && n@ == interface@
            &&& event.interface.index == Some(ifindex)
            &&& event.direction == Direction::Rx
            &&& event.annotations@.len() == 0
            &&& crate::model::system_timestamp(now) == Some(event.timestamp)
            &&& event.timestamp.nanos < crate::model::NANOS_PER_SECOND
        },
{
    let timestamp = match Timestamp::from_system_time(now) {
        Ok(t) => t,
        Err(e) => return Err(e),
    };
    Ok(CaptureEvent::new(
        timestamp,
        InterfaceRef { name: Some(interface.to_owned()), index: Some(ifindex) },
        Direction::Rx,
        frame,
    ))
}

/// The identifier word keeps the identifier value below its flags and
/// gives back each flag.
pub proof fn lemma_native_id_bits(raw: u32, ext: bool, remote: bool, error: bool)
    by (bit_vector)
    requires
        raw <= 0x1fff_ffff,
    ensures
        ({
            let v = set_if(set_if(set_if(raw, ext, CAN_EFF_FLAG), remote, CAN_RTR_FLAG), error, CAN_ERR_FLAG);
            &&& v & CAN_EFF_MASK == raw
            &&& (raw <= 0x7ff ==> v & 0x7ff == raw)
            &&& (v & CAN_EFF_FLAG != 0) == ext
            &&& (v & CAN_RTR_FLAG != 0) == remote
            &&& (v & CAN_ERR_FLAG != 0) == error
        }),
{
}

/// The CAN FD flag byte gives back each flag.
pub proof fn lemma_native_flag_bits(brs: bool, esi: bool)
    by (bit_vector)
    ensures
        ({
            let v: u8 = if brs { CANFD_BRS } else { 0 };
            let v: u8 = if esi { v | CANFD_ESI } else { v };
            &&& (v & CANFD_BRS != 0) == brs
            &&& (v & CANFD_ESI != 0) == esi
        }),
{
}

/// A frame sent through the kernel structure and received back whole (the
/// payload buffer zero beyond what was written) is the same frame, for a
/// valid frame whose CAN FD flags are clear unless it is a CAN FD frame.
pub proof fn lemma_native_round_trip(f: FrameView, n: NativeFrame)
    requires
        f.wf(),
        is_native_for(n, f),
        f.fd || (!f.fd_flags.bit_rate_switch && !f.fd_flags.error_state_indicator),
    ensures
        received_frame(n.can_id, n.len, n.flags, padded(n.data@, 64), n.fd) == f,
{
    let raw = f.id.spec_raw();
    lemma_native_id_bits(raw, f.id.spec_extended(), f.class == FrameClass::Remote, f.class == FrameClass::Error);
    lemma_native_flag_bits(f.fd_flags.bit_rate_switch, f.fd_flags.error_state_indicator);
    f.id.lemma_fields();
    if !f.id.spec_extended() {
        assert((raw as u16) as u32 == raw) by (bit_vector) requires raw <= 0x7ff;
    }
    let len = f.data.len() as int;
    assert(n.len as int == len);
    let buffer = padded(n.data@, 64);
    assert(buffer.subrange(0, len) =~= f.data);
    let r = received_frame(n.can_id, n.len, n.flags, buffer, n.fd);
    assert(r.id == f.id);
    assert(r.data =~= f.data);
    assert(r.fd_flags == f.fd_flags);
}

} // verus!
