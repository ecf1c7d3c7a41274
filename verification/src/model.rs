//! Portable CAN model primitives: identifiers, frames, timestamps and
//! capture events.

use vstd::prelude::*;
use std::time::SystemTime;

verus! {

/// Largest standard (11-bit) identifier.
pub const MAX_STANDARD_ID: u32 = 0x7ff;

/// Largest extended (29-bit) identifier.
pub const MAX_EXTENDED_ID: u32 = 0x1fff_ffff;

/// Errors returned when building or validating portable CAN values.
#[derive(Debug, Clone, PartialEq, Eq)]
pub enum CoreError {
    /// The identifier exceeds the valid bit width for the requested format.
    InvalidCanId {
        /// Raw identifier value.
        value: u32,
        /// Human-readable kind name.
        kind: &'static str,
    },
    /// The payload length does not match CAN or CAN FD limits.
    InvalidPayloadLength {
        /// Requested payload length.
        length: usize,
        /// Maximum allowed length.
        max: usize,
        /// Frame kind description.
        kind: &'static str,
    },
    /// System time values earlier than the Unix epoch cannot be represented.
    TimestampBeforeEpoch,
}

/// Canonical CAN identifier representation.
#[derive(Debug, Clone, Copy, PartialEq, Eq, Hash)]
pub struct CanId {
    raw: u32,
    extended: bool,
}

impl CanId {
    /// The identifier value, without any format flag.
    pub closed spec fn spec_raw(self) -> u32 {
        self.raw
    }

    /// Whether this is a 29-bit identifier.
    pub closed spec fn spec_extended(self) -> bool {
        self.extended
    }

    /// The identifier with the given value and format flag.
    pub closed spec fn spec_new(raw: u32, extended: bool) -> CanId {
        CanId { raw, extended }
    }

    /// Every identifier fits the bit width of its format.
    #[verifier::type_invariant]
    pub open spec fn wf(self) -> bool {
        if self.spec_extended() { self.spec_raw() <= MAX_EXTENDED_ID } else { self.spec_raw() <= MAX_STANDARD_ID }
    }

    /// Create a standard 11-bit identifier.
    pub fn standard(raw: u16) -> (res: Result<CanId, CoreError>)
        ensures
            raw <= MAX_STANDARD_ID <==> res is Ok,
            res matches Ok(id) ==> id.spec_raw() == raw as u32 && !id.spec_extended() && id.wf()
                && id == CanId::spec_new(raw as u32, false),
            res matches Err(e) ==> e matches CoreError::InvalidCanId { value, kind }
                && value == raw as u32 && kind@ == "standard identifier"@,
    {
        if raw > 0x7ff {
            return Err(CoreError::InvalidCanId { value: raw as u32, kind: "standard identifier" });
        }
        Ok(CanId { raw: raw as u32, extended: false })
    }

    /// Create an extended 29-bit identifier.
    pub fn extended(raw: u32) -> (res: Result<CanId, CoreError>)
        ensures
            raw <= MAX_EXTENDED_ID <==> res is Ok,
            res matches Ok(id) ==> id.spec_raw() == raw && id.spec_extended() && id.wf()
                && id == CanId::spec_new(raw, true),
            res matches Err(e) ==> e matches CoreError::InvalidCanId { value, kind }
                && value == raw && kind@ == "extended identifier"@,
    {
        if raw > 0x1fff_ffff {
            return Err(CoreError::InvalidCanId { value: raw, kind: "extended identifier" });
        }
        Ok(CanId { raw, extended: true })
    }

    /// Returns the raw identifier value.
    pub fn raw(self) -> (r: u32)
        ensures
            r == self.spec_raw(),
            self.wf(),
    {
        proof { use_type_invariant(&self); }
        self.raw
    }

    /// An identifier is determined by its value and its format flag.
    pub proof fn lemma_fields(self)
        ensures
            self == CanId::spec_new(self.spec_raw(), self.spec_extended()),
            CanId::spec_new(self.spec_raw(), self.spec_extended()).spec_raw() == self.spec_raw(),
    {
    }

    /// The identifier built from a value and a format flag gives them back.
    pub proof fn lemma_new_fields(raw: u32, extended: bool)
        ensures
            CanId::spec_new(raw, extended).spec_raw() == raw,
            CanId::spec_new(raw, extended).spec_extended() == extended,
    {
    }

    /// Returns `true` when this is a 29-bit identifier.
    pub fn is_extended(self) -> (r: bool)
        ensures
            r == self.spec_extended(),
            self.wf(),
    {
        proof { use_type_invariant(&self); }
        self.extended
    }
}


/// Coarse frame class. Detailed protocol metadata belongs elsewhere.
#[derive(Debug, Clone, Copy, PartialEq, Eq)]
pub enum FrameClass {
    /// Standard or extended data frame.
    Data,
    /// Classic CAN remote frame.
    Remote,
    /// Backend-surfaced error frame.
    Error,
}

/// CAN FD flags that are orthogonal to identifier or capture metadata.
#[derive(Debug, Clone, Copy, Default, PartialEq, Eq)]
pub struct FdFlags {
    /// Bit rate switch.
    pub bit_rate_switch: bool,
    /// Error state indicator.
    pub error_state_indicator: bool,
}

/// Payload capacity of a classic CAN frame.
pub const CLASSIC_MAX_PAYLOAD: usize = 8;

/// Payload capacity of a CAN FD frame.
pub const FD_MAX_PAYLOAD: usize = 64;

/// Raw CAN or CAN FD frame.
#[derive(Debug, Clone, PartialEq, Eq)]
pub struct CanFrame {
    /// Frame identifier.
    pub id: CanId,
    /// Frame class.
    pub class: FrameClass,
    /// Raw payload bytes.
    pub data: Vec<u8>,
    /// Whether the frame should be encoded as CAN FD.
    pub fd: bool,
    /// Additional CAN FD flags.
    pub fd_flags: FdFlags,
}

/// The payload capacity of a frame of the given kind.
pub open spec fn max_payload(fd: bool) -> nat {
    if fd { FD_MAX_PAYLOAD as nat } else { CLASSIC_MAX_PAYLOAD as nat }
}

/// The contents of a frame, with its payload as a sequence.
pub struct FrameView {
    /// Frame identifier.
    pub id: CanId,
    /// Frame class.
    pub class: FrameClass,
    /// Payload bytes.
    pub data: Seq<u8>,
    /// CAN FD encoding.
    pub fd: bool,
    /// CAN FD flags.
    pub fd_flags: FdFlags,
}

/// The payload capacity of a frame of the given kind.
pub fn max_payload_len(fd: bool) -> (r: usize)
    ensures
        r == max_payload(fd),
{
    if fd { FD_MAX_PAYLOAD } else { CLASSIC_MAX_PAYLOAD }
}

impl View for CanFrame {
    type V = FrameView;

    open spec fn view(&self) -> FrameView {
        FrameView { id: self.id, class: self.class, data: self.data@, fd: self.fd, fd_flags: self.fd_flags }
    }
}

impl FrameView {
    /// The payload fits the capacity of the frame kind and the identifier is valid.
    pub open spec fn wf(self) -> bool {
        &&& self.id.wf()
        &&& self.data.len() <= max_payload(self.fd)
    }
}

impl CanFrame {
    /// The payload fits the capacity of the frame kind and the identifier is valid.
    pub open spec fn wf(&self) -> bool {
        &&& self.id.wf()
        &&& self.data@.len() <= max_payload(self.fd)
    }

    /// Build a validated frame.
    pub fn new(id: CanId, class: FrameClass, data: Vec<u8>, fd: bool, fd_flags: FdFlags) -> (res: Result<CanFrame, CoreError>)
        ensures
            res is Ok <==> data@.len() <= max_payload(fd),
            res matches Ok(f) ==> f.id == id && f.class == class && f.data@ == data@
                && f.fd == fd && f.fd_flags == fd_flags && f.wf(),
            res matches Err(e) ==> e matches CoreError::InvalidPayloadLength { length, max, kind }
                && length == data@.len() && max == max_payload(fd)
                && kind@ == (if fd { "CAN FD frame"@ } else { "classic CAN frame"@ }),
    {
        proof { use_type_invariant(&id); }
        let max: usize = if fd { 64 } else { 8 };
        if data.len() > max {
            return Err(CoreError::InvalidPayloadLength {
                length: data.len(),
                max,
                kind: if fd { "CAN FD frame" } else { "classic CAN frame" },
            });
        }
        Ok(CanFrame { id, class, data, fd, fd_flags })
    }

    /// Return the payload length in bytes.
    pub fn dlc(&self) -> (r: usize)
        ensures
            r == self.data@.len(),
    {
        self.data.len()
    }
}

/// Nanoseconds per second.
pub const NANOS_PER_SECOND: u32 = 1_000_000_000;

/// Timestamp stored as seconds and nanoseconds since Unix epoch.
#[derive(Debug, Clone, Copy, PartialEq, Eq, PartialOrd, Ord)]
pub struct Timestamp {
    /// Seconds since Unix epoch.
    pub seconds: i64,
    /// Additional nanoseconds in the current second.
    pub nanos: u32,
}

#[verifier::external_type_specification]
#[verifier::external_body]
pub struct ExSystemTime(SystemTime);

/// The offset of a clock sample from the Unix epoch, as whole seconds and
/// the nanosecond remainder; `None` when the sample precedes the epoch.
pub uninterp spec fn unix_offset(time: SystemTime) -> Option<(u64, u32)>;

/// Calls `SystemTime::duration_since(UNIX_EPOCH)` and reads the duration as
/// whole seconds (`Duration::as_secs`) and the nanosecond remainder
/// (`Duration::subsec_nanos`), which is below one second; `None` when the
/// time precedes the epoch. The offset is named `unix_offset`.
#[verifier::external_body]
fn offset_since_unix_epoch(time: SystemTime) -> (r: Option<(u64, u32)>)
    ensures
        r == unix_offset(time),
        r matches Some((_, nanos)) ==> nanos < NANOS_PER_SECOND,
{
    match time.duration_since(std::time::UNIX_EPOCH) {
        Ok(duration) => Some((duration.as_secs(), duration.subsec_nanos())),
        Err(_) => None,
    }
}

/// The timestamp of a clock sample, when it is not before the epoch.
pub open spec fn system_timestamp(time: SystemTime) -> Option<Timestamp> {
    match unix_offset(time) {
        Some((seconds, nanos)) => Some(Timestamp { seconds: seconds as i64, nanos }),
        None => None,
    }
}

impl Timestamp {
    /// Build a timestamp from an offset since the Unix epoch; the seconds are
    /// reinterpreted as a signed value as a plain integer cast does.
    pub fn from_unix_offset(seconds: u64, nanos: u32) -> (t: Timestamp)
        ensures
            t.seconds == seconds as i64,
            t.nanos == nanos,
    {
        Timestamp { seconds: seconds as i64, nanos }
    }

    /// Build a timestamp from a system clock sample.
    pub fn from_system_time(time: SystemTime) -> (res: Result<Timestamp, CoreError>)
        ensures
            res is Ok <==> system_timestamp(time) is Some,
            res matches Ok(t) ==> system_timestamp(time) == Some(t) && t.nanos < NANOS_PER_SECOND,
            res matches Err(e) ==> e == CoreError::TimestampBeforeEpoch,
    {
        match offset_since_unix_epoch(time) {
            Some((seconds, nanos)) => Ok(Timestamp::from_unix_offset(seconds, nanos)),
            None => Err(CoreError::TimestampBeforeEpoch),
        }
    }
}

/// Interface reference kept outside the raw frame itself.
#[derive(Debug, Clone, PartialEq, Eq)]
pub struct InterfaceRef {
    /// Friendly interface name when known.
    pub name: Option<String>,
    /// Numeric ifindex when known.
    pub index: Option<u32>,
}

/// Capture direction as observed by the backend.
#[derive(Debug, Clone, Copy, PartialEq, Eq)]
pub enum Direction {
    /// Frame was received.
    Rx,
    /// Frame was transmitted.
    Tx,
}

/// Simple key-value annotation attached to a capture event.
#[derive(Debug, Clone, PartialEq, Eq)]
pub struct Annotation {
    /// Annotation scope or type.
    pub key: String,
    /// Human-readable value.
    pub value: String,
}

/// Portable capture envelope around a raw frame.
#[derive(Debug, Clone, PartialEq, Eq)]
pub struct CaptureEvent {
    /// Event timestamp.
    pub timestamp: Timestamp,
    /// Interface where the event was observed.
    pub interface: InterfaceRef,
    /// Capture direction.
    pub direction: Direction,
    /// Raw frame.
    pub frame: CanFrame,
    /// Optional annotations layered on top of the raw frame.
    pub annotations: Vec<Annotation>,
}

/// The contents of a capture event, with text and payloads as sequences.
pub struct EventView {
    /// Event timestamp.
    pub timestamp: Timestamp,
    /// Interface name, when known.
    pub name: Option<Seq<char>>,
    /// Interface index, when known.
    pub index: Option<u32>,
    /// Capture direction.
    pub direction: Direction,
    /// Raw frame.
    pub frame: FrameView,
    /// Annotations as key and value pairs.
    pub annotations: Seq<(Seq<char>, Seq<char>)>,
}

/// The text of an optional string.
pub open spec fn option_text(s: Option<String>) -> Option<Seq<char>> {
    match s {
        Some(t) => Some(t@),
        None => None,
    }
}

impl View for CaptureEvent {
    type V = EventView;

    open spec fn view(&self) -> EventView {
        EventView {
            timestamp: self.timestamp,
            name: option_text(self.interface.name),
            index: self.interface.index,
            direction: self.direction,
            frame: self.frame@,
            annotations: self.annotations@.map_values(|a: Annotation| (a.key@, a.value@)),
        }
    }
}

impl CaptureEvent {
    /// Build a basic capture event with no annotations.
    pub fn new(timestamp: Timestamp, interface: InterfaceRef, direction: Direction, frame: CanFrame) -> (e: CaptureEvent)
        ensures
            e.timestamp == timestamp,
            e.interface == interface,
            e.direction == direction,
            e.frame == frame,
            e.annotations@.len() == 0,
    {
        CaptureEvent { timestamp, interface, direction, frame, annotations: Vec::new() }
    }
}

/// Frame sinks such as transmit sockets or test harnesses.
pub trait FrameSink {
    /// Backend-specific error type.
    type Error;

    /// Send a raw frame.
    fn send(&mut self, frame: &CanFrame) -> Result<(), Self::Error>;
}

/// Frame sources such as receive sockets.
pub trait FrameSource {
    /// Backend-specific error type.
    type Error;

    /// Receive the next frame when available.
    fn recv(&mut self) -> Result<Option<CanFrame>, Self::Error>;
}

/// Capture sinks such as log writers.
pub trait CaptureSink {
    /// Backend-specific error type.
    type Error;

    /// Persist a capture event.
    fn write_event(&mut self, event: &CaptureEvent) -> Result<(), Self::Error>;
}

} // verus!
