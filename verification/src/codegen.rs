//! Rendering of the generated protocol tables: the UDS services and
//! negative responses, the OBD PIDs and the J1939 PGNs, as Rust source
//! files built from the rows of the spec-data files.

use vstd::prelude::*;
use crate::bytes::append_bytes;
use crate::cli::{ascii_bytes, hex_text, lemma_hex_text_ascii, push_hex};
use crate::text::text_from_utf8_lossy;
use vstd::utf8::encode_utf8;

verus! {

/// A named byte: a UDS service (`sid`) or negative response (`code`).
#[derive(Debug, Clone, PartialEq, Eq)]
pub struct NamedByte {
    /// Service identifier, for a service.
    pub sid: Option<u8>,
    /// Response code, for a negative response.
    pub code: Option<u8>,
    /// Human-readable name.
    pub name: String,
}

/// An OBD PID with its name and unit.
#[derive(Debug, Clone, PartialEq, Eq)]
pub struct NamedUnitByte {
    /// Parameter identifier.
    pub pid: u8,
    /// Human-readable name.
    pub name: String,
    /// Engineering unit.
    pub unit: String,
}

/// A J1939 PGN with its name.
#[derive(Debug, Clone, PartialEq, Eq)]
pub struct NamedPgn {
    /// Parameter Group Number.
    pub pgn: u32,
    /// Human-readable name.
    pub name: String,
}

/// The UDS spec data: services and negative responses.
#[derive(Debug, Clone, PartialEq, Eq)]
pub struct UdsSpec {
    /// Services.
    pub services: Vec<NamedByte>,
    /// Negative responses.
    pub negative_responses: Vec<NamedByte>,
}

/// The OBD spec data: the PIDs of modes 1 and 9.
#[derive(Debug, Clone, PartialEq, Eq)]
pub struct ObdSpec {
    /// Mode 1 PIDs.
    pub mode1: Vec<NamedUnitByte>,
    /// Mode 9 PIDs.
    pub mode9: Vec<NamedUnitByte>,
}

/// The J1939 spec data: PGNs.
#[derive(Debug, Clone, PartialEq, Eq)]
pub struct J1939Spec {
    /// PGNs.
    pub pgns: Vec<NamedPgn>,
}

/// Text of the UDS file before the service rows.
pub const UDS_HEAD: &'static str = "//! Generated UDS tables. Regenerate with `cargo run -p xtask -- codegen`.\n\n/// Generated UDS service metadata.\n#[derive(Debug, Clone, Copy, PartialEq, Eq)]\npub struct GeneratedService {\n/// ISO 14229 service identifier.\npub sid: u8,\n/// Human-readable service name.\npub name: &'static str,\n}\n\n/// Generated UDS negative response metadata.\n#[derive(Debug, Clone, Copy, PartialEq, Eq)]\npub struct GeneratedNegativeResponse {\n/// ISO 14229 negative response code.\npub code: u8,\n/// Human-readable negative response name.\npub name: &'static str,\n}\n\n/// Generated UDS services keyed by service identifier.\npub const GENERATED_SERVICES: &[GeneratedService] = &[\n";

/// Text of the UDS file between the service and negative response rows.
pub const UDS_MIDDLE: &'static str = "\n];\n\n/// Generated UDS negative responses keyed by response code.\npub const GENERATED_NEGATIVE_RESPONSES: &[GeneratedNegativeResponse] = &[\n";

/// Text of the OBD file before its rows.
pub const OBD_HEAD: &'static str = "//! Generated OBD tables. Regenerate with `cargo run -p xtask -- codegen`.\n\n/// Generated OBD PID metadata.\n#[derive(Debug, Clone, Copy, PartialEq, Eq)]\npub struct GeneratedPid {\n/// OBD service mode.\npub mode: u8,\n/// OBD parameter identifier.\npub pid: u8,\n/// Human-readable PID name.\npub name: &'static str,\n/// Engineering unit for decoded values.\npub unit: &'static str,\n}\n\n/// Generated OBD PIDs keyed by service mode and PID.\npub const GENERATED_PIDS: &[GeneratedPid] = &[\n";

/// Text of the J1939 file before its rows.
pub const J1939_HEAD: &'static str = "//! Generated J1939 tables. Regenerate with `cargo run -p xtask -- codegen`.\n\n/// Generated J1939 PGN metadata.\n#[derive(Debug, Clone, Copy, PartialEq, Eq)]\npub struct GeneratedPgn {\n/// Parameter Group Number.\npub pgn: u32,\n/// Human-readable PGN name.\npub name: &'static str,\n}\n\n/// Generated J1939 PGN definitions keyed by PGN.\npub const GENERATED_PGNS: &[GeneratedPgn] = &[\n";

/// Text that closes a table and the file.
pub const TABLE_END: &'static str = "\n];\n";

/// Separator between rows.
pub const ROW_SEPARATOR: &'static str = "\n";

/// What `{:?}` writes for a string: the string quoted, with escapes.
pub uninterp spec fn debug_text(s: Seq<char>) -> Seq<char>;

/// Formats a string with `{:?}` (`<str as Debug>::fmt`); the text is named
/// `debug_text`.
#[verifier::external_body]
fn debug_quoted(s: &str) -> (r: String)
    ensures
        r@ == debug_text(s@),
{
    format!("{s:?}")
}

/// Rows joined by line breaks.
pub open spec fn joined(rows: Seq<Seq<char>>) -> Seq<char>
    decreases rows.len(),
{
    if rows.len() == 0 {
        Seq::empty()
    } else if rows.len() == 1 {
        rows[0]
    } else {
        joined(rows.drop_last()) + ROW_SEPARATOR@ + rows.last()
    }
}

/// A number as at least six upper-case hex digits.
pub open spec fn hex_at_least_six(v: u32) -> Seq<char> {
    if v < 0x100_0000 {
        hex_text(v as nat, 6)
    } else if v < 0x1000_0000 {
        hex_text(v as nat, 7)
    } else {
        hex_text(v as nat, 8)
    }
}

/// The row of a UDS service.
pub open spec fn service_row(sid: u8, name: Seq<char>) -> Seq<char> {
    "    GeneratedService { sid: 0x"@ + hex_text(sid as nat, 2) + ", name: "@ + debug_text(name) + " },"@
}

/// The row of a UDS negative response.
pub open spec fn response_row(code: u8, name: Seq<char>) -> Seq<char> {
    "    GeneratedNegativeResponse { code: 0x"@ + hex_text(code as nat, 2) + ", name: "@ + debug_text(name) + " },"@
}

/// The row of an OBD PID of a service mode.
pub open spec fn pid_row(mode: u8, pid: u8, name: Seq<char>, unit: Seq<char>) -> Seq<char> {
    "    GeneratedPid { mode: 0x"@ + hex_text(mode as nat, 2) + ", pid: 0x"@ + hex_text(pid as nat, 2)
        + ", name: "@ + debug_text(name) + ", unit: "@ + debug_text(unit) + " },"@
}

/// The row of a J1939 PGN.
pub open spec fn pgn_row(pgn: u32, name: Seq<char>) -> Seq<char> {
    "    GeneratedPgn { pgn: 0x"@ + hex_at_least_six(pgn) + ", name: "@ + debug_text(name) + " },"@
}

/// Every service has a service identifier and every negative response a
/// code.
pub open spec fn uds_complete(spec: UdsSpec) -> bool {
    &&& forall|i: int| 0 <= i < spec.services@.len() ==> (#[trigger] spec.services@[i]).sid is Some
    &&& forall|i: int| 0 <= i < spec.negative_responses@.len() ==> (#[trigger] spec.negative_responses@[i]).code is Some
}

/// The rows of the services.
pub open spec fn service_rows(entries: Seq<NamedByte>) -> Seq<Seq<char>> {
    entries.map_values(|e: NamedByte| service_row(e.sid.unwrap(), e.name@))
}

/// The rows of the negative responses.
pub open spec fn response_rows(entries: Seq<NamedByte>) -> Seq<Seq<char>> {
    entries.map_values(|e: NamedByte| response_row(e.code.unwrap(), e.name@))
}

/// The rows of the PIDs of a mode.
pub open spec fn pid_rows(mode: u8, entries: Seq<NamedUnitByte>) -> Seq<Seq<char>> {
    entries.map_values(|e: NamedUnitByte| pid_row(mode, e.pid, e.name@, e.unit@))
}

/// The rows of the PGNs.
pub open spec fn pgn_rows(entries: Seq<NamedPgn>) -> Seq<Seq<char>> {
    entries.map_values(|e: NamedPgn| pgn_row(e.pgn, e.name@))
}

/// The generated UDS file.
pub open spec fn uds_text(spec: UdsSpec) -> Seq<char> {
    UDS_HEAD@ + joined(service_rows(spec.services@)) + UDS_MIDDLE@ + joined(response_rows(spec.negative_responses@))
        + TABLE_END@
}

/// The generated OBD file: the mode 1 rows, then the mode 9 rows.
pub open spec fn obd_text(spec: ObdSpec) -> Seq<char> {
    OBD_HEAD@ + joined(pid_rows(1, spec.mode1@) + pid_rows(9, spec.mode9@)) + TABLE_END@
}

/// The generated J1939 file.
pub open spec fn j1939_text(spec: J1939Spec) -> Seq<char> {
    J1939_HEAD@ + joined(pgn_rows(spec.pgns@)) + TABLE_END@
}

proof fn lemma_encode_concat(a: Seq<char>, b: Seq<char>)
    ensures
        encode_utf8(a + b) == encode_utf8(a) + encode_utf8(b),
    decreases a.len(),
{
    if a.len() == 0 {
        assert(a + b =~= b);
    } else {
        lemma_encode_concat(a.drop_first(), b);
        assert((a + b).drop_first() =~= a.drop_first() + b);
        assert((a + b)[0] == a[0]);
    }
}

/// The bytes built so far, with the text they encode.
fn push_text(out: &mut Vec<u8>, s: &str, Ghost(before): Ghost<Seq<char>>)
    requires
        old(out)@ == encode_utf8(before),
    ensures
        final(out)@ == encode_utf8(before + s@),
{
    append_bytes(out, s.as_bytes());
    proof { lemma_encode_concat(before, s@); }
}

/// Append `v` in `width` upper-case hex digits.
fn push_hex_text(out: &mut Vec<u8>, v: u64, width: usize, Ghost(before): Ghost<Seq<char>>)
    requires
        old(out)@ == encode_utf8(before),
    ensures
        final(out)@ == encode_utf8(before + hex_text(v as nat, width as nat)),
{
    push_hex(out, v, width);
    proof {
        let h = hex_text(v as nat, width as nat);
        lemma_hex_text_ascii(v as nat, width as nat);
        vstd::utf8::is_ascii_chars_encode_utf8(h);
        assert(ascii_bytes(h) =~= encode_utf8(h));
        lemma_encode_concat(before, h);
    }
}

/// The text of the rows joined, given the text of the rows before `i`.
proof fn lemma_joined_step(rows: Seq<Seq<char>>, i: int)
    requires
        0 <= i < rows.len(),
    ensures
        joined(rows.take(i + 1)) == if i == 0 { rows[0] } else { joined(rows.take(i)) + ROW_SEPARATOR@ + rows[i] },
{
    assert(rows.take(i + 1).drop_last() =~= rows.take(i));
    assert(rows.take(i + 1).last() == rows[i]);
}

/// Start a row: a line break before every row but the first.
fn push_row(out: &mut Vec<u8>, first: bool, Ghost(before): Ghost<Seq<char>>) -> (after: Ghost<Seq<char>>)
    requires
        old(out)@ == encode_utf8(before),
    ensures
        after@ == if first { before } else { before + ROW_SEPARATOR@ },
        final(out)@ == encode_utf8(after@),
{
    if first {
        Ghost(before)
    } else {
        push_text(out, ROW_SEPARATOR, Ghost(before));
        Ghost(before + ROW_SEPARATOR@)
    }
}

/// Append the rows of the services.
fn push_service_rows(out: &mut Vec<u8>, entries: &Vec<NamedByte>, Ghost(before): Ghost<Seq<char>>)
    requires
        old(out)@ == encode_utf8(before),
        forall|i: int| 0 <= i < entries@.len() ==> (#[trigger] entries@[i]).sid is Some,
    ensures
        final(out)@ == encode_utf8(before + joined(service_rows(entries@))),
{
    let ghost rows = service_rows(entries@);
    let mut i: usize = 0;
    assert(rows.take(0) =~= Seq::<Seq<char>>::empty());
    assert(before + joined(rows.take(0)) =~= before);
    while i < entries.len()
        invariant
            i <= entries@.len(),
            rows == service_rows(entries@),
            rows.len() == entries@.len(),
            forall|k: int| 0 <= k < entries@.len() ==> (#[trigger] entries@[k]).sid is Some,
            out@ == encode_utf8(before + joined(rows.take(i as int))),
        decreases entries@.len() - i,
    {
        let ghost t = before + joined(rows.take(i as int));
        let separated = push_row(out, i == 0, Ghost(t));
        let ghost t1 = separated@;
        let entry = &entries[i];
        let sid = match entry.sid {
            Some(s) => s,
            None => 0,
        };
        push_text(out, "    GeneratedService { sid: 0x", Ghost(t1));
        let ghost t2 = t1 + "    GeneratedService { sid: 0x"@;
        push_hex_text(out, sid as u64, 2, Ghost(t2));
        let ghost t3 = t2 + hex_text(sid as nat, 2);
        push_text(out, ", name: ", Ghost(t3));
        let ghost t4 = t3 + ", name: "@;
        let quoted = debug_quoted(entry.name.as_str());
        push_text(out, quoted.as_str(), Ghost(t4));
        let ghost t5 = t4 + debug_text(entry.name@);
        push_text(out, " },", Ghost(t5));
        proof {
            lemma_joined_step(rows, i as int);
            assert(rows[i as int] == service_row(sid, entry.name@));
            assert(t5 + " },"@ =~= before + joined(rows.take(i + 1)));
        }
        i = i + 1;
    }
    assert(rows.take(entries@.len() as int) =~= rows);
}

/// Append the rows of the negative responses.
fn push_response_rows(out: &mut Vec<u8>, entries: &Vec<NamedByte>, Ghost(before): Ghost<Seq<char>>)
    requires
        old(out)@ == encode_utf8(before),
        forall|i: int| 0 <= i < entries@.len() ==> (#[trigger] entries@[i]).code is Some,
    ensures
        final(out)@ == encode_utf8(before + joined(response_rows(entries@))),
{
    let ghost rows = response_rows(entries@);
    let mut i: usize = 0;
    assert(rows.take(0) =~= Seq::<Seq<char>>::empty());
    assert(before + joined(rows.take(0)) =~= before);
    while i < entries.len()
        invariant
            i <= entries@.len(),
            rows == response_rows(entries@),
            rows.len() == entries@.len(),
            forall|k: int| 0 <= k < entries@.len() ==> (#[trigger] entries@[k]).code is Some,
            out@ == encode_utf8(before + joined(rows.take(i as int))),
        decreases entries@.len() - i,
    {
        let ghost t = before + joined(rows.take(i as int));
        let separated = push_row(out, i == 0, Ghost(t));
        let ghost t1 = separated@;
        let entry = &entries[i];
        let code = match entry.code {
            Some(c) => c,
            None => 0,
        };
        push_text(out, "    GeneratedNegativeResponse { code: 0x", Ghost(t1));
        let ghost t2 = t1 + "    GeneratedNegativeResponse { code: 0x"@;
        push_hex_text(out, code as u64, 2, Ghost(t2));
        let ghost t3 = t2 + hex_text(code as nat, 2);
        push_text(out, ", name: ", Ghost(t3));
        let ghost t4 = t3 + ", name: "@;
        let quoted = debug_quoted(entry.name.as_str());
        push_text(out, quoted.as_str(), Ghost(t4));
        let ghost t5 = t4 + debug_text(entry.name@);
        push_text(out, " },", Ghost(t5));
        proof {
            lemma_joined_step(rows, i as int);
            assert(rows[i as int] == response_row(code, entry.name@));
            assert(t5 + " },"@ =~= before + joined(rows.take(i + 1)));
        }
        i = i + 1;
    }
    assert(rows.take(entries@.len() as int) =~= rows);
}

/// Append the row of one PID.
fn push_pid_row(out: &mut Vec<u8>, mode: u8, entry: &NamedUnitByte, Ghost(t1): Ghost<Seq<char>>)
    requires
    old(out)@ == encode_utf8(t1),
    ensures
    final(out)@ == encode_utf8(t1 + pid_row(mode, entry.pid, entry.name@, entry.unit@)),
{
    push_text(out, "    GeneratedPid { mode: 0x", Ghost(t1));
    let ghost t2 = t1 + "    GeneratedPid { mode: 0x"@;
    push_hex_text(out, mode as u64, 2, Ghost(t2));
    let ghost t3 = t2 + hex_text(mode as nat, 2);
    push_text(out, ", pid: 0x", Ghost(t3));
    let ghost t4 = t3 + ", pid: 0x"@;
    push_hex_text(out, entry.pid as u64, 2, Ghost(t4));
    let ghost t5 = t4 + hex_text(entry.pid as nat, 2);
    push_text(out, ", name: ", Ghost(t5));
    let ghost t6 = t5 + ", name: "@;
    let quoted = debug_quoted(entry.name.as_str());
    push_text(out, quoted.as_str(), Ghost(t6));
    let ghost t7 = t6 + debug_text(entry.name@);
    push_text(out, ", unit: ", Ghost(t7));
    let ghost t8 = t7 + ", unit: "@;
    let unit = debug_quoted(entry.unit.as_str());
    push_text(out, unit.as_str(), Ghost(t8));
    let ghost t9 = t8 + debug_text(entry.unit@);
    push_text(out, " },", Ghost(t9));
    assert(t9 + " },"@ =~= t1 + pid_row(mode, entry.pid, entry.name@, entry.unit@));
}

/// Append the rows of the PIDs of one mode, after the rows `prior` already
/// written.
fn push_pid_rows(
    out: &mut Vec<u8>,
    mode: u8,
    entries: &Vec<NamedUnitByte>,
    started: bool,
    Ghost(head): Ghost<Seq<char>>,
    Ghost(prior): Ghost<Seq<Seq<char>>>,
)
    requires
        old(out)@ == encode_utf8(head + joined(prior)),
        started == (prior.len() > 0),
    ensures
        final(out)@ == encode_utf8(head + joined(prior + pid_rows(mode, entries@))),
{
    let ghost rows = prior + pid_rows(mode, entries@);
    let mut i: usize = 0;
    assert(rows.take(prior.len() as int) =~= prior);
    while i < entries.len()
        invariant
            i <= entries@.len(),
            rows == prior + pid_rows(mode, entries@),
            rows.len() == prior.len() + entries@.len(),
            started == (prior.len() > 0),
            out@ == encode_utf8(head + joined(rows.take(prior.len() + i as int))),
        decreases entries@.len() - i,
    {
        let ghost at: int = prior.len() + i;
        let ghost t = head + joined(rows.take(at));
        let separated = push_row(out, !started && i == 0, Ghost(t));
        let ghost t1 = separated@;
        let entry = &entries[i];
        push_pid_row(out, mode, entry, Ghost(t1));
        proof {
            lemma_joined_step(rows, at);
            assert(rows[at] == pid_row(mode, entry.pid, entry.name@, entry.unit@));
            assert(t1 + pid_row(mode, entry.pid, entry.name@, entry.unit@) =~= head + joined(rows.take(at + 1)));
        }
        i = i + 1;
    }
    assert(rows.take(prior.len() + entries@.len() as int) =~= rows);
}

/// Append the rows of the PGNs.
fn push_pgn_rows(out: &mut Vec<u8>, entries: &Vec<NamedPgn>, Ghost(before): Ghost<Seq<char>>)
    requires
        old(out)@ == encode_utf8(before),
    ensures
        final(out)@ == encode_utf8(before + joined(pgn_rows(entries@))),
{
    let ghost rows = pgn_rows(entries@);
    let mut i: usize = 0;
    assert(rows.take(0) =~= Seq::<Seq<char>>::empty());
    assert(before + joined(rows.take(0)) =~= before);
    while i < entries.len()
        invariant
            i <= entries@.len(),
            rows == pgn_rows(entries@),
            rows.len() == entries@.len(),
            out@ == encode_utf8(before + joined(rows.take(i as int))),
        decreases entries@.len() - i,
    {
        let ghost t = before + joined(rows.take(i as int));
        let separated = push_row(out, i == 0, Ghost(t));
        let ghost t1 = separated@;
        let entry = &entries[i];
        push_text(out, "    GeneratedPgn { pgn: 0x", Ghost(t1));
        let ghost t2 = t1 + "    GeneratedPgn { pgn: 0x"@;
        let width: usize = if entry.pgn < 0x100_0000 { 6 } else if entry.pgn < 0x1000_0000 { 7 } else { 8 };
        push_hex_text(out, entry.pgn as u64, width, Ghost(t2));
        let ghost t3 = t2 + hex_at_least_six(entry.pgn);
        push_text(out, ", name: ", Ghost(t3));
        let ghost t4 = t3 + ", name: "@;
        let quoted = debug_quoted(entry.name.as_str());
        push_text(out, quoted.as_str(), Ghost(t4));
        let ghost t5 = t4 + debug_text(entry.name@);
        push_text(out, " },", Ghost(t5));
        proof {
            lemma_joined_step(rows, i as int);
            assert(rows[i as int] == pgn_row(entry.pgn, entry.name@));
            assert(t5 + " },"@ =~= before + joined(rows.take(i + 1)));
        }
        i = i + 1;
    }
    assert(rows.take(entries@.len() as int) =~= rows);
}

/// The text that bytes built as the UTF-8 encoding of `text` stand for.
fn text_of(out: &Vec<u8>, Ghost(text): Ghost<Seq<char>>) -> (s: String)
    requires
        out@ == encode_utf8(text),
    ensures
        s@ == text,
{
    proof {
        vstd::utf8::encode_utf8_valid_utf8(text);
        vstd::utf8::encode_utf8_decode_utf8(text);
    }
    text_from_utf8_lossy(out.as_slice())
}

/// Render the generated UDS tables file.
pub fn uds_source(spec: &UdsSpec) -> (out: String)
    requires
        uds_complete(*spec),
    ensures
        out@ == uds_text(*spec),
{
    let mut bytes: Vec<u8> = Vec::new();
    assert(bytes@ =~= encode_utf8(Seq::<char>::empty()));
    push_text(&mut bytes, UDS_HEAD, Ghost(Seq::empty()));
    let ghost t1 = Seq::<char>::empty() + UDS_HEAD@;
    push_service_rows(&mut bytes, &spec.services, Ghost(t1));
    let ghost t2 = t1 + joined(service_rows(spec.services@));
    push_text(&mut bytes, UDS_MIDDLE, Ghost(t2));
    let ghost t3 = t2 + UDS_MIDDLE@;
    push_response_rows(&mut bytes, &spec.negative_responses, Ghost(t3));
    let ghost t4 = t3 + joined(response_rows(spec.negative_responses@));
    push_text(&mut bytes, TABLE_END, Ghost(t4));
    assert(t4 + TABLE_END@ =~= uds_text(*spec));
    text_of(&bytes, Ghost(uds_text(*spec)))
}

/// Render the generated OBD tables file.
pub fn obd_source(spec: &ObdSpec) -> (out: String)
    ensures
        out@ == obd_text(*spec),
{
    let mut bytes: Vec<u8> = Vec::new();
    assert(bytes@ =~= encode_utf8(Seq::<char>::empty()));
    push_text(&mut bytes, OBD_HEAD, Ghost(Seq::empty()));
    let ghost head = Seq::<char>::empty() + OBD_HEAD@;
    assert(joined(Seq::<Seq<char>>::empty()) =~= Seq::<char>::empty());
    assert(head + joined(Seq::<Seq<char>>::empty()) =~= head);
    push_pid_rows(&mut bytes, 1, &spec.mode1, false, Ghost(head), Ghost(Seq::empty()));
    let ghost first = Seq::<Seq<char>>::empty() + pid_rows(1, spec.mode1@);
    push_pid_rows(&mut bytes, 9, &spec.mode9, spec.mode1.len() > 0, Ghost(head), Ghost(first));
    let ghost t = head + joined(first + pid_rows(9, spec.mode9@));
    push_text(&mut bytes, TABLE_END, Ghost(t));
    assert(first + pid_rows(9, spec.mode9@) =~= pid_rows(1, spec.mode1@) + pid_rows(9, spec.mode9@));
    assert(t + TABLE_END@ =~= obd_text(*spec));
    text_of(&bytes, Ghost(obd_text(*spec)))
}

/// Render the generated J1939 tables file.
pub fn j1939_source(spec: &J1939Spec) -> (out: String)
    ensures
        out@ == j1939_text(*spec),
{
    let mut bytes: Vec<u8> = Vec::new();
    assert(bytes@ =~= encode_utf8(Seq::<char>::empty()));
    push_text(&mut bytes, J1939_HEAD, Ghost(Seq::empty()));
    let ghost t1 = Seq::<char>::empty() + J1939_HEAD@;
    push_pgn_rows(&mut bytes, &spec.pgns, Ghost(t1));
    let ghost t2 = t1 + joined(pgn_rows(spec.pgns@));
    push_text(&mut bytes, TABLE_END, Ghost(t2));
    assert(t2 + TABLE_END@ =~= j1939_text(*spec));
    text_of(&bytes, Ghost(j1939_text(*spec)))
}

} // verus!
