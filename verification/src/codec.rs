//! Capture-file formats, the reports their readers and writers produce,
//! and the timestamp conversions the binary formats share.

use vstd::prelude::*;
use crate::model::{option_text, CoreError, Timestamp, NANOS_PER_SECOND};

verus! {

#[verifier::external_type_specification]
#[verifier::external_body]
pub struct ExIoError(std::io::Error);

/// Supported persisted capture formats.
#[derive(Debug, Clone, Copy, PartialEq, Eq)]
pub enum Format {
    /// ASAM MDF 4 capture file.
    Mf4,
    /// Vector ASC text log.
    Asc,
    /// Vector BLF binary log.
    Blf,
}

/// ASCII lower-casing of one byte; other bytes are left alone.
pub open spec fn ascii_lower(b: u8) -> u8 {
    if 0x41 <= b <= 0x5a { (b + 0x20) as u8 } else { b }
}

/// `text`, lower-cased in its ASCII letters, is exactly `lower`.
pub open spec fn equals_ignoring_ascii_case(text: Seq<u8>, lower: Seq<u8>) -> bool {
    &&& text.len() == lower.len()
    &&& forall|i: int| 0 <= i < text.len() ==> ascii_lower(#[trigger] text[i]) == lower[i]
}

/// The format that a file extension (as UTF-8 bytes) names, if any.
pub open spec fn format_for_extension(ext: Seq<u8>) -> Option<Format> {
    if equals_ignoring_ascii_case(ext, seq![0x6du8, 0x66u8, 0x34u8]) {
        Some(Format::Mf4)
    } else if equals_ignoring_ascii_case(ext, seq![0x61u8, 0x73u8, 0x63u8]) {
        Some(Format::Asc)
    } else if equals_ignoring_ascii_case(ext, seq![0x62u8, 0x6cu8, 0x66u8]) {
        Some(Format::Blf)
    } else {
        None
    }
}

/// The format that an optional extension names, if any.
pub open spec fn format_for_optional_extension(ext: Option<Seq<char>>) -> Option<Format> {
    match ext {
        Some(e) => format_for_extension(vstd::utf8::encode_utf8(e)),
        None => None,
    }
}

/// What `Path::extension` gives for a path, read as text.
pub uninterp spec fn path_extension_of(path: Seq<char>) -> Option<Seq<char>>;

/// Calls `Path::extension` on the path and reads the extension as text
/// (`OsStr::to_str`); an extension of a path given as `str` is always valid
/// text. The result is named `path_extension_of` the path.
#[verifier::external_body]
fn path_extension(path: &str) -> (r: Option<String>)
    ensures
        option_text(r) == path_extension_of(path@),
{
    std::path::Path::new(path).extension().and_then(|ext| ext.to_str()).map(|ext| ext.to_string())
}

/// Whether `text` lower-cased in its ASCII letters equals `lower`.
fn matches_ignoring_ascii_case(text: &[u8], lower: &[u8]) -> (r: bool)
    ensures
        r == equals_ignoring_ascii_case(text@, lower@),
{
    if text.len() != lower.len() {
        return false;
    }
    let mut i: usize = 0;
    while i < text.len()
        invariant
            text@.len() == lower@.len(),
            i <= text@.len(),
            forall|j: int| 0 <= j < i ==> ascii_lower(#[trigger] text@[j]) == lower@[j],
        decreases text@.len() - i,
    {
        let b = text[i];
        let folded: u8 = if 0x41 <= b && b <= 0x5a { b + 0x20 } else { b };
        if folded != lower[i] {
            return false;
        }
        i = i + 1;
    }
    true
}

impl Format {
    /// Pick the format from a file extension, ignoring ASCII case; a
    /// missing or unknown extension is reported with the path's text.
    pub fn from_extension(extension: Option<&str>, path: &str) -> (r: Result<Format, CodecError>)
        ensures
            r is Ok <==> (extension matches Some(e) && format_for_extension(vstd::utf8::encode_utf8(e@)) is Some),
            r matches Ok(f) ==> extension matches Some(e) && format_for_extension(vstd::utf8::encode_utf8(e@)) == Some(f),
            r matches Err(err) ==> err matches CodecError::UnknownFormat(shown) && shown@ == path@,
    {
        let found = match extension {
            Some(ext) => {
                let bytes = ext.as_bytes();
                if matches_ignoring_ascii_case(bytes, &[0x6du8, 0x66u8, 0x34u8]) {
                    Some(Format::Mf4)
                } else if matches_ignoring_ascii_case(bytes, &[0x61u8, 0x73u8, 0x63u8]) {
                    Some(Format::Asc)
                } else if matches_ignoring_ascii_case(bytes, &[0x62u8, 0x6cu8, 0x66u8]) {
                    Some(Format::Blf)
                } else {
                    None
                }
            },
            None => None,
        };
        match found {
            Some(format) => Ok(format),
            None => Err(CodecError::UnknownFormat(path.to_owned())),
        }
    }

    /// Infer the format from a path's extension.
    pub fn from_path(path: &str) -> (r: Result<Format, CodecError>)
        ensures
            r is Ok <==> format_for_optional_extension(path_extension_of(path@)) is Some,
            r matches Ok(f) ==> format_for_optional_extension(path_extension_of(path@)) == Some(f),
            r matches Err(err) ==> err matches CodecError::UnknownFormat(shown) && shown@ == path@,
    {
        let ext = path_extension(path);
        match ext {
            Some(text) => Format::from_extension(Some(text.as_str()), path),
            None => Format::from_extension(None, path),
        }
    }
}

/// Explicit note about fidelity loss or adaptation while translating formats.
#[derive(Debug, Clone, PartialEq, Eq)]
pub struct FidelityNote {
    /// Event index when the note applies to a specific event.
    pub event_index: Option<usize>,
    /// Short field or area label.
    pub field: &'static str,
    /// Human-readable detail.
    pub detail: String,
}

/// The contents of a fidelity note, with its text as sequences.
pub struct NoteView {
    /// Event index when the note applies to a specific event.
    pub event_index: Option<usize>,
    /// Short field or area label.
    pub field: Seq<char>,
    /// Human-readable detail.
    pub detail: Seq<char>,
}

impl View for FidelityNote {
    type V = NoteView;

    open spec fn view(&self) -> NoteView {
        NoteView { event_index: self.event_index, field: self.field@, detail: self.detail@ }
    }
}

/// The contents of a list of notes.
pub open spec fn notes_view(notes: Seq<FidelityNote>) -> Seq<NoteView> {
    notes.map_values(|n: FidelityNote| n@)
}

/// One note for an event, when `cond` holds.
pub open spec fn note_if(cond: bool, index: usize, field: Seq<char>, detail: Seq<char>) -> Seq<NoteView> {
    if cond { seq![NoteView { event_index: Some(index), field, detail }] } else { Seq::empty() }
}

/// Append a note and say so in terms of the notes' contents.
pub fn push_note(notes: &mut Vec<FidelityNote>, note: FidelityNote)
    ensures
        notes_view(final(notes)@) == notes_view(old(notes)@).push(note@),
{
    notes.push(note);
    assert(notes_view(notes@) =~= notes_view(old(notes)@).push(note@));
}

/// Result of reading a capture file.
#[derive(Debug, Clone, PartialEq, Eq)]
pub struct ReadReport {
    /// Parsed events.
    pub events: Vec<crate::model::CaptureEvent>,
    /// Fidelity notes emitted while decoding.
    pub notes: Vec<FidelityNote>,
}

/// Result of writing a capture file.
#[derive(Debug, Clone, PartialEq, Eq, Default)]
pub struct WriteReport {
    /// Fidelity notes emitted while encoding.
    pub notes: Vec<FidelityNote>,
}

/// Codec errors.
#[derive(Debug)]
pub enum CodecError {
    /// I/O failed.
    Io(std::io::Error),
    /// A format-specific parse error occurred.
    Parse(String),
    /// The path extension does not map to a supported format.
    UnknownFormat(String),
    /// Core value validation failed while reconstructing an event.
    Core(CoreError),
}

/// Nanoseconds since the epoch that a timestamp stands for, with times
/// before the epoch clamped to whole seconds at zero.
pub open spec fn timestamp_ns(t: Timestamp) -> int {
    (if t.seconds < 0 { 0 } else { t.seconds as int }) * NANOS_PER_SECOND as int + t.nanos as int
}

/// Whether a timestamp's nanoseconds since the epoch fit 64 bits.
pub fn timestamp_fits(timestamp: Timestamp) -> (r: bool)
    ensures
        r == (timestamp_ns(timestamp) <= u64::MAX),
{
    let seconds: u64 = if timestamp.seconds < 0 { 0 } else { timestamp.seconds as u64 };
    seconds <= (u64::MAX - timestamp.nanos as u64) / 1_000_000_000
}

/// Convert a timestamp to nanoseconds since the epoch; negative seconds count as zero.
pub fn timestamp_to_ns(timestamp: Timestamp) -> (ns: u64)
    requires
        timestamp_ns(timestamp) <= u64::MAX,
    ensures
        ns as int == timestamp_ns(timestamp),
{
    let seconds: u64 = if timestamp.seconds < 0 { 0 } else { timestamp.seconds as u64 };
    assert(seconds * 1_000_000_000 <= timestamp_ns(timestamp));
    seconds * 1_000_000_000 + timestamp.nanos as u64
}

/// Split nanoseconds since the epoch into seconds and nanoseconds.
pub fn ns_to_timestamp(ns: u64) -> (t: Timestamp)
    ensures
        t.seconds as int == ns as int / NANOS_PER_SECOND as int,
        t.nanos as int == ns as int % NANOS_PER_SECOND as int,
        t.nanos < NANOS_PER_SECOND,
{
    Timestamp { seconds: (ns / 1_000_000_000) as i64, nanos: (ns % 1_000_000_000) as u32 }
}

/// A timestamp at or after the epoch, with nanoseconds below one second,
/// converts to nanoseconds and back unchanged.
pub proof fn lemma_timestamp_round_trip(t: Timestamp)
    requires
        t.seconds >= 0,
        t.nanos < NANOS_PER_SECOND,
    ensures
        timestamp_ns(t) / NANOS_PER_SECOND as int == t.seconds,
        timestamp_ns(t) % NANOS_PER_SECOND as int == t.nanos,
{
    let s = t.seconds as int;
    let n = t.nanos as int;
    assert((s * 1_000_000_000 + n) / 1_000_000_000 == s && (s * 1_000_000_000 + n) % 1_000_000_000 == n)
        by (nonlinear_arith)
        requires 0 <= n < 1_000_000_000, s >= 0;
}

/// Lower-casing the ASCII letters of an extension does not change the
/// format it names.
pub proof fn lemma_extension_case(ext: Seq<u8>)
    ensures
        format_for_extension(ext) == format_for_extension(ext.map_values(|b: u8| ascii_lower(b))),
{
    let lower = ext.map_values(|b: u8| ascii_lower(b));
    assert forall|i: int| 0 <= i < ext.len() implies ascii_lower(#[trigger] ext[i]) == ascii_lower(lower[i]) by {
        assert(lower[i] == ascii_lower(ext[i]));
    }
    let m = seq![0x6du8, 0x66u8, 0x34u8];
    let a = seq![0x61u8, 0x73u8, 0x63u8];
    let b = seq![0x62u8, 0x6cu8, 0x66u8];
    assert(equals_ignoring_ascii_case(ext, m) == equals_ignoring_ascii_case(lower, m));
    assert(equals_ignoring_ascii_case(ext, a) == equals_ignoring_ascii_case(lower, a));
    assert(equals_ignoring_ascii_case(ext, b) == equals_ignoring_ascii_case(lower, b));
}

} // verus!
