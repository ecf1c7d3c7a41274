//! The command-line tool's text handling: hexadecimal payloads and
//! identifiers, frame construction from them, one-line frame rendering,
//! and the pacing of a replay.

use vstd::prelude::*;
use crate::model::{CanFrame, CanId, CoreError, FdFlags, FrameClass, FrameView, Timestamp, MAX_STANDARD_ID, MAX_EXTENDED_ID};

verus! {

/// Errors of the command-line text handling.
#[derive(Debug, Clone, PartialEq, Eq)]
pub enum CliError {
    /// A hex payload has an odd number of digits.
    OddHexDigits,
    /// A pair of hex digits is not a byte.
    InvalidHexByte,
    /// The identifier text is not a hexadecimal 32-bit value.
    InvalidCanId(String),
    /// Core validation failed.
    Core(CoreError),
}

/// Whether a byte separates digit groups in a hex payload (space or underscore).
pub open spec fn is_separator(b: u8) -> bool {
    b == 0x20 || b == 0x5f
}

/// The bytes with every separator removed.
pub open spec fn without_separators(b: Seq<u8>) -> Seq<u8>
    decreases b.len(),
{
    if b.len() == 0 {
        Seq::empty()
    } else {
        let rest = without_separators(b.drop_last());
        if is_separator(b.last()) { rest } else { rest.push(b.last()) }
    }
}

/// The value of an ASCII hex digit, any case.
pub open spec fn hex_digit(b: u8) -> Option<u8> {
    if 0x30 <= b <= 0x39 {
        Some((b - 0x30) as u8)
    } else if 0x61 <= b <= 0x66 {
        Some((b - 0x61 + 10) as u8)
    } else if 0x41 <= b <= 0x46 {
        Some((b - 0x41 + 10) as u8)
    } else {
        None
    }
}

/// What `u8::from_str_radix` with radix 16 gives for a two-byte text: a
/// leading `+` followed by one digit, or two digits.
pub open spec fn hex_pair(a: u8, b: u8) -> Option<u8> {
    if a == 0x2b {
        hex_digit(b)
    } else {
        match (hex_digit(a), hex_digit(b)) {
            (Some(x), Some(y)) => Some((x * 16 + y) as u8),
            _ => None,
        }
    }
}

/// Whether byte `i` of UTF-8 text starts a character, or is its end.
pub open spec fn at_char_start(b: Seq<u8>, i: int) -> bool {
    i == 0 || i == b.len() || (0 <= i < b.len() && !(0x80 <= b[i] < 0xc0))
}

/// The bytes that the digit pairs from byte `i` on stand for; none when a
/// pair is not a byte.
pub open spec fn hex_pairs_from(c: Seq<u8>, i: int) -> Option<Seq<u8>>
    decreases c.len() - i,
{
    if i < 0 || i + 2 > c.len() {
        Some(Seq::empty())
    } else {
        match hex_pair(c[i], c[i + 1]) {
            Some(v) => match hex_pairs_from(c, i + 2) {
                Some(rest) => Some(seq![v] + rest),
                None => None,
            },
            None => None,
        }
    }
}

/// Whether each digit pair, up to the first that is not a byte, can be cut
/// out of the text at character boundaries.
pub open spec fn hex_pairs_cuttable(c: Seq<u8>, i: int) -> bool
    decreases c.len() - i,
{
    if i < 0 || i + 2 > c.len() {
        true
    } else if !at_char_start(c, i) || !at_char_start(c, i + 2) {
        false
    } else if hex_pair(c[i], c[i + 1]) is None {
        true
    } else {
        hex_pairs_cuttable(c, i + 2)
    }
}

/// What a hex payload text stands for.
pub open spec fn hex_payload(text: Seq<u8>) -> Result<Seq<u8>, CliError> {
    let c = without_separators(text);
    if c.len() == 0 {
        Ok(Seq::empty())
    } else if c.len() % 2 != 0 {
        Err(CliError::OddHexDigits)
    } else {
        match hex_pairs_from(c, 0) {
            Some(bytes) => Ok(bytes),
            None => Err(CliError::InvalidHexByte),
        }
    }
}

/// The value of an ASCII hex digit.
fn hex_digit_value(b: u8) -> (r: Option<u8>)
    ensures
        r == hex_digit(b),
{
    if 0x30 <= b && b <= 0x39 {
        Some(b - 0x30)
    } else if 0x61 <= b && b <= 0x66 {
        Some(b - 0x61 + 10)
    } else if 0x41 <= b && b <= 0x46 {
        Some(b - 0x41 + 10)
    } else {
        None
    }
}

/// The byte two hex characters stand for.
fn hex_pair_value(a: u8, b: u8) -> (r: Option<u8>)
    ensures
        r == hex_pair(a, b),
{
    if a == 0x2b {
        return hex_digit_value(b);
    }
    match (hex_digit_value(a), hex_digit_value(b)) {
        (Some(x), Some(y)) => Some(x * 16 + y),
        _ => None,
    }
}

/// The UTF-8 bytes of a text with spaces and underscores removed.
fn compact_hex(input: &str) -> (compact: Vec<u8>)
    ensures
        compact@ == without_separators(vstd::utf8::encode_utf8(input@)),
{
    let bytes = input.as_bytes();
    let ghost text = bytes@;
    let mut compact: Vec<u8> = Vec::new();
    let mut i: usize = 0;
    while i < bytes.len()
        invariant
            text == bytes@,
            i <= text.len(),
            compact@ == without_separators(text.take(i as int)),
        decreases text.len() - i,
    {
        assert(text.take(i + 1).drop_last() =~= text.take(i as int));
        let b = bytes[i];
        if !(b == 0x20 || b == 0x5f) {
            compact.push(b);
        }
        i = i + 1;
    }
    assert(text.take(text.len() as int) =~= text);
    compact
}

/// Whether byte `i` of the bytes starts a character or is their end.
fn starts_char(b: &Vec<u8>, i: usize) -> (r: bool)
    ensures
        r == at_char_start(b@, i as int),
{
    i == 0 || i == b.len() || (i < b.len() && !(0x80 <= b[i] && b[i] < 0xc0))
}

/// Whether the digit pairs of a hex payload text can be cut out at
/// character boundaries up to the first pair that is not a byte, as
/// `parse_hex_bytes` needs.
pub fn hex_payload_cuttable(input: &str) -> (r: bool)
    ensures
        r == hex_pairs_cuttable(without_separators(vstd::utf8::encode_utf8(input@)), 0),
{
    let compact = compact_hex(input);
    let ghost c = compact@;
    let mut offset: usize = 0;
    while offset < compact.len() && compact.len() - offset >= 2
        invariant
            c == compact@,
            c == without_separators(vstd::utf8::encode_utf8(input@)),
            offset <= c.len(),
            hex_pairs_cuttable(c, 0) == hex_pairs_cuttable(c, offset as int),
        decreases c.len() - offset,
    {
        if !starts_char(&compact, offset) || !starts_char(&compact, offset + 2) {
            return false;
        }
        if hex_pair_value(compact[offset], compact[offset + 1]).is_none() {
            return true;
        }
        offset = offset + 2;
    }
    true
}

/// Parse a hex payload such as `"01 02_03"`: spaces and underscores are
/// ignored, an empty text is an empty payload, and the digits must come in
/// pairs that each form a byte.
pub fn parse_hex_bytes(input: &str) -> (r: Result<Vec<u8>, CliError>)
    requires
        hex_pairs_cuttable(without_separators(vstd::utf8::encode_utf8(input@)), 0),
    ensures
        match hex_payload(vstd::utf8::encode_utf8(input@)) {
            Ok(bytes) => r matches Ok(v) && v@ == bytes,
            Err(e) => r == Err::<Vec<u8>, CliError>(e),
        },
{
    let compact = compact_hex(input);
    if compact.len() == 0 {
        return Ok(Vec::new());
    }
    if compact.len() % 2 != 0 {
        return Err(CliError::OddHexDigits);
    }
    let ghost c = compact@;
    let mut out: Vec<u8> = Vec::new();
    let mut offset: usize = 0;
    while offset < compact.len()
        invariant
            c == compact@,
            c == without_separators(vstd::utf8::encode_utf8(input@)),
            c.len() > 0,
            c.len() % 2 == 0,
            offset <= c.len(),
            offset % 2 == 0,
            hex_pairs_from(c, 0) is Some ==> hex_pairs_from(c, offset as int) is Some
                && hex_pairs_from(c, 0).unwrap() == out@ + hex_pairs_from(c, offset as int).unwrap(),
            hex_pairs_from(c, 0) is None <==> hex_pairs_from(c, offset as int) is None,
        decreases c.len() - offset,
    {
        match hex_pair_value(compact[offset], compact[offset + 1]) {
            Some(v) => {
                assert(hex_pairs_from(c, offset as int) is Some ==> hex_pairs_from(c, offset as int).unwrap()
                    == seq![v] + hex_pairs_from(c, offset + 2).unwrap());
                out.push(v);
            },
            None => {
                return Err(CliError::InvalidHexByte);
            },
        }
        offset = offset + 2;
    }
    assert(hex_pairs_from(c, offset as int) == Some(Seq::<u8>::empty()));
    assert(out@ =~= out@ + Seq::<u8>::empty());
    Ok(out)
}

/// The text with every leading `0x` removed, repeatedly.
pub open spec fn without_hex_prefixes(b: Seq<u8>) -> Seq<u8>
    decreases b.len(),
{
    if b.len() >= 2 && b[0] == 0x30 && b[1] == 0x78 {
        without_hex_prefixes(b.subrange(2, b.len() as int))
    } else {
        b
    }
}

/// The value of a run of hex digits; none when a byte is not a digit.
pub open spec fn hex_digits_value(d: Seq<u8>) -> Option<nat>
    decreases d.len(),
{
    if d.len() == 0 {
        Some(0)
    } else {
        match (hex_digits_value(d.drop_last()), hex_digit(d.last())) {
            (Some(v), Some(x)) => Some(v * 16 + x as nat),
            _ => None,
        }
    }
}

/// What `u32::from_str_radix` with radix 16 gives: an optional leading `+`,
/// then at least one digit, the value fitting 32 bits.
pub open spec fn hex_u32(t: Seq<u8>) -> Option<u32> {
    let digits = if t.len() > 0 && t[0] == 0x2b { t.subrange(1, t.len() as int) } else { t };
    if digits.len() == 0 {
        None
    } else {
        match hex_digits_value(digits) {
            Some(v) => if v <= u32::MAX { Some(v as u32) } else { None },
            None => None,
        }
    }
}

/// The value that an identifier text stands for, when it is hex for a
/// 32-bit value after any leading `0x`.
pub open spec fn id_value(input: Seq<char>) -> Option<u32> {
    hex_u32(without_hex_prefixes(vstd::utf8::encode_utf8(input)))
}

/// The identifier a text names: a standard identifier up to 0x7FF, an
/// extended one up to 0x1FFFFFFF.
pub open spec fn parsed_id(input: Seq<char>) -> Option<CanId> {
    match id_value(input) {
        Some(raw) => if raw <= MAX_STANDARD_ID {
            Some(CanId::spec_new(raw, false))
        } else if raw <= MAX_EXTENDED_ID {
            Some(CanId::spec_new(raw, true))
        } else {
            None
        },
        None => None,
    }
}

/// The error that parsing an identifier text that names no identifier
/// gives: the text is not hex for a 32-bit value, or the value is too
/// large for an extended identifier.
pub open spec fn is_id_error(input: Seq<char>, e: CliError) -> bool {
    match id_value(input) {
        None => e matches CliError::InvalidCanId(shown) && shown@ == input,
        Some(raw) => e matches CliError::Core(CoreError::InvalidCanId { value, .. }) && value == raw,
    }
}

/// Once a prefix of the digits is worth more than `bound`, all of them are
/// (or they are not all digits).
proof fn lemma_hex_value_grows(d: Seq<u8>, i: int, bound: nat)
    requires
        0 <= i <= d.len(),
        hex_digits_value(d.take(i)) matches Some(v) && v > bound,
    ensures
        hex_digits_value(d) matches Some(w) ==> w > bound,
    decreases d.len() - i,
{
    if i < d.len() {
        assert(d.take(i + 1).drop_last() =~= d.take(i));
        if hex_digits_value(d.take(i + 1)) is Some {
            lemma_hex_value_grows(d, i + 1, bound);
        } else {
            lemma_hex_value_none_stays(d, i + 1);
        }
    } else {
        assert(d.take(i) =~= d);
    }
}

/// Once a prefix holds a non-digit, so do all longer prefixes.
proof fn lemma_hex_value_none_stays(d: Seq<u8>, i: int)
    requires
        0 <= i <= d.len(),
        hex_digits_value(d.take(i)) is None,
    ensures
        hex_digits_value(d) is None,
    decreases d.len() - i,
{
    if i < d.len() {
        assert(d.take(i + 1).drop_last() =~= d.take(i));
        lemma_hex_value_none_stays(d, i + 1);
    } else {
        assert(d.take(i) =~= d);
    }
}

/// Parse a CAN identifier written in hex, with any number of leading `0x`:
/// values up to 0x7FF are standard identifiers, larger ones extended.
pub fn parse_id(input: &str) -> (r: Result<CanId, CliError>)
    ensures
        r is Ok <==> parsed_id(input@) is Some,
        r matches Ok(id) ==> parsed_id(input@) == Some(id),
        r matches Err(e) ==> is_id_error(input@, e),
{
    let bytes = input.as_bytes();
    let ghost text = bytes@;
    let mut start: usize = 0;
    assert(text.subrange(0, text.len() as int) =~= text);
    while bytes.len() - start >= 2 && bytes[start] == 0x30 && bytes[start + 1] == 0x78
        invariant
            text == bytes@,
            start <= text.len(),
            without_hex_prefixes(text) == without_hex_prefixes(text.subrange(start as int, text.len() as int)),
        decreases text.len() - start,
    {
        let ghost rest = text.subrange(start as int, text.len() as int);
        assert(rest.subrange(2, rest.len() as int) =~= text.subrange(start + 2, text.len() as int));
        start = start + 2;
    }
    let ghost t = text.subrange(start as int, text.len() as int);
    assert(without_hex_prefixes(t) == t);
    let mut first = start;
    if first < bytes.len() && bytes[first] == 0x2b {
        first = first + 1;
    }
    let ghost digits = text.subrange(first as int, text.len() as int);
    assert(digits =~= (if t.len() > 0 && t[0] == 0x2b { t.subrange(1, t.len() as int) } else { t }));
    if first == bytes.len() {
        return Err(CliError::InvalidCanId(input.to_owned()));
    }
    let mut value: u64 = 0;
    let mut i: usize = first;
    while i < bytes.len()
        invariant
            text == bytes@,
            first <= i <= text.len(),
            digits == text.subrange(first as int, text.len() as int),
            hex_digits_value(digits.take(i - first)) == Some(value as nat),
            value <= u32::MAX,
            hex_u32(without_hex_prefixes(vstd::utf8::encode_utf8(input@))) == hex_u32(t),
            digits.len() > 0,
            digits =~= (if t.len() > 0 && t[0] == 0x2b { t.subrange(1, t.len() as int) } else { t }),
        decreases text.len() - i,
    {
        assert(digits.take(i - first + 1).drop_last() =~= digits.take(i - first));
        assert(digits.take(i - first + 1).last() == bytes@[i as int]);
        match hex_digit_value(bytes[i]) {
            Some(d) => {
                let next: u64 = value * 16 + d as u64;
                if next > 0xffff_ffff {
                    proof {
                        lemma_hex_value_grows(digits, i - first + 1, u32::MAX as nat);
                    }
                    return Err(CliError::InvalidCanId(input.to_owned()));
                }
                value = next;
            },
            None => {
                proof {
                    lemma_hex_value_none_stays(digits, i - first + 1);
                }
                return Err(CliError::InvalidCanId(input.to_owned()));
            },
        }
        i = i + 1;
    }
    assert(digits.take(digits.len() as int) =~= digits);
    let raw = value as u32;
    if raw <= 0x7ff {
        match CanId::standard(raw as u16) {
            Ok(id) => Ok(id),
            Err(e) => Err(CliError::Core(e)),
        }
    } else {
        match CanId::extended(raw) {
            Ok(id) => Ok(id),
            Err(e) => Err(CliError::Core(e)),
        }
    }
}

/// The frame that the command-line texts describe, when valid.
pub open spec fn described_frame(id: Seq<char>, data: Seq<char>, fd: bool, brs: bool, esi: bool) -> Option<FrameView> {
    match (parsed_id(id), hex_payload(vstd::utf8::encode_utf8(data))) {
        (Some(cid), Ok(bytes)) => if bytes.len() <= crate::model::max_payload(fd) {
            Some(FrameView {
                id: cid,
                class: FrameClass::Data,
                data: bytes,
                fd,
                fd_flags: FdFlags { bit_rate_switch: brs, error_state_indicator: esi },
            })
        } else {
            None
        },
        _ => None,
    }
}

/// Build a data frame from an identifier text and a hex payload text.
pub fn build_frame(id: &str, data: &str, fd: bool, brs: bool, esi: bool) -> (r: Result<CanFrame, CliError>)
    requires
        parsed_id(id@) is Some ==> hex_pairs_cuttable(without_separators(vstd::utf8::encode_utf8(data@)), 0),
    ensures
        r is Ok <==> described_frame(id@, data@, fd, brs, esi) is Some,
        r matches Ok(f) ==> described_frame(id@, data@, fd, brs, esi) == Some(f@) && f.wf(),
        r matches Err(e) ==> match parsed_id(id@) {
            None => is_id_error(id@, e),
            Some(_) => match hex_payload(vstd::utf8::encode_utf8(data@)) {
                Err(pe) => e == pe,
                Ok(bytes) => e matches CliError::Core(CoreError::InvalidPayloadLength { length, max, .. })
                    && length == bytes.len() && max == crate::model::max_payload(fd),
            },
        },
{
    let can_id = match parse_id(id) {
        Ok(can_id) => can_id,
        Err(e) => return Err(e),
    };
    let payload = match parse_hex_bytes(data) {
        Ok(payload) => payload,
        Err(e) => return Err(e),
    };
    match CanFrame::new(
        can_id,
        FrameClass::Data,
        payload,
        fd,
        FdFlags { bit_rate_switch: brs, error_state_indicator: esi },
    ) {
        Ok(frame) => Ok(frame),
        Err(e) => Err(CliError::Core(e)),
    }
}

/// The upper-case hex digit for a value below 16.
pub open spec fn hex_char(d: int) -> char {
    if d < 10 { (48 + d) as char } else { (55 + d) as char }
}

/// `v` in `width` upper-case hex digits, most significant first, with
/// leading zeros (and the higher digits of `v` dropped).
pub open spec fn hex_text(v: nat, width: nat) -> Seq<char>
    decreases width,
{
    if width == 0 {
        Seq::empty()
    } else {
        hex_text(v / 16, (width - 1) as nat).push(hex_char((v % 16) as int))
    }
}

/// `n` in decimal digits.
pub open spec fn decimal_text(n: nat) -> Seq<char>
    decreases n,
{
    if n < 10 {
        seq![(48 + n) as char]
    } else {
        decimal_text(n / 10).push((48 + n % 10) as char)
    }
}

/// `t` right-aligned in a field of `width` characters.
pub open spec fn right_aligned(t: Seq<char>, width: nat) -> Seq<char> {
    if t.len() < width { Seq::new((width - t.len()) as nat, |i: int| ' ') + t } else { t }
}

/// The payload bytes as two-digit hex numbers separated by spaces.
pub open spec fn bytes_text(data: Seq<u8>) -> Seq<char>
    decreases data.len(),
{
    if data.len() == 0 {
        Seq::empty()
    } else if data.len() == 1 {
        hex_text(data[0] as nat, 2)
    } else {
        bytes_text(data.drop_last()) + seq![' '] + hex_text(data.last() as nat, 2)
    }
}

/// The one-line rendering of a frame: the identifier in hex (8 digits when
/// extended, 3 otherwise), the payload length right-aligned in two places
/// between brackets, the payload bytes, and ` fd` for a CAN FD frame.
pub open spec fn frame_text(f: FrameView) -> Seq<char> {
    let id = if f.id.spec_extended() { hex_text(f.id.spec_raw() as nat, 8) } else { hex_text(f.id.spec_raw() as nat, 3) };
    id + seq![' ', '['] + right_aligned(decimal_text(f.data.len()), 2) + seq![']', ' '] + bytes_text(f.data)
        + (if f.fd { seq![' ', 'f', 'd'] } else { Seq::empty() })
}

/// The bytes of ASCII text.
pub open spec fn ascii_bytes(t: Seq<char>) -> Seq<u8> {
    t.map_values(|c: char| c as u8)
}

/// Hex text is ASCII.
pub(crate) proof fn lemma_hex_text_ascii(v: nat, width: nat)
    ensures
        vstd::utf8::is_ascii_chars(hex_text(v, width)),
        hex_text(v, width).len() == width,
    decreases width,
{
    if width > 0 {
        lemma_hex_text_ascii(v / 16, (width - 1) as nat);
    }
}

/// Decimal text is ASCII.
pub(crate) proof fn lemma_decimal_text_ascii(n: nat)
    ensures
        vstd::utf8::is_ascii_chars(decimal_text(n)),
        decimal_text(n).len() >= 1,
    decreases n,
{
    if n >= 10 {
        lemma_decimal_text_ascii(n / 10);
    }
}

/// Payload text is ASCII.
pub(crate) proof fn lemma_bytes_text_ascii(data: Seq<u8>)
    ensures
        vstd::utf8::is_ascii_chars(bytes_text(data)),
    decreases data.len(),
{
    if data.len() == 1 {
        lemma_hex_text_ascii(data[0] as nat, 2);
    } else if data.len() > 1 {
        lemma_bytes_text_ascii(data.drop_last());
        lemma_hex_text_ascii(data.last() as nat, 2);
    }
}

/// Append `width` upper-case hex digits of `v`.
pub(crate) fn push_hex(out: &mut Vec<u8>, v: u64, width: usize)
    ensures
        final(out)@ == old(out)@ + ascii_bytes(hex_text(v as nat, width as nat)),
    decreases width,
{
    if width > 0 {
        push_hex(out, v / 16, width - 1);
        let d: u8 = (v % 16) as u8;
        let c: u8 = if d < 10 { 48 + d } else { 55 + d };
        let ghost before = out@;
        out.push(c);
        proof {
            let t = hex_text((v / 16) as nat, (width - 1) as nat);
            assert(hex_text(v as nat, width as nat) == t.push(hex_char((v % 16) as int)));
            assert(ascii_bytes(t.push(hex_char((v % 16) as int))) =~= ascii_bytes(t).push(c));
        }
    } else {
        assert(ascii_bytes(hex_text(v as nat, 0)) =~= Seq::<u8>::empty());
    }
}

/// Append the decimal digits of `n`.
pub(crate) fn push_decimal(out: &mut Vec<u8>, n: u64)
    ensures
        final(out)@ == old(out)@ + ascii_bytes(decimal_text(n as nat)),
    decreases n,
{
    if n >= 10 {
        push_decimal(out, n / 10);
        let ghost before = out@;
        out.push(48 + (n % 10) as u8);
        proof {
            let t = decimal_text((n / 10) as nat);
            assert(ascii_bytes(t.push((48 + n % 10) as char)) =~= ascii_bytes(t).push((48 + (n % 10) as u8) as u8));
        }
    } else {
        out.push(48 + n as u8);
        assert(ascii_bytes(decimal_text(n as nat)) =~= seq![(48 + n as u8) as u8]);
    }
}

/// Render a frame on one line, as the tool prints sent and received frames.
pub fn render_frame(frame: &CanFrame) -> (s: String)
    ensures
        s@ == frame_text(frame@),
{
    let ghost f = frame@;
    let mut out: Vec<u8> = Vec::new();
    if frame.id.is_extended() {
        push_hex(&mut out, frame.id.raw() as u64, 8);
    } else {
        push_hex(&mut out, frame.id.raw() as u64, 3);
    }
    let ghost id_part = out@;
    out.push(0x20);
    out.push(0x5b);
    let mut digits: Vec<u8> = Vec::new();
    push_decimal(&mut digits, frame.data.len() as u64);
    proof { lemma_decimal_text_ascii(frame.data@.len()); }
    if digits.len() < 2 {
        out.push(0x20);
        assert(ascii_bytes(right_aligned(decimal_text(f.data.len()), 2)) =~= seq![0x20u8] + digits@);
    } else {
        assert(ascii_bytes(right_aligned(decimal_text(f.data.len()), 2)) =~= digits@);
    }
    crate::bytes::append_bytes(&mut out, digits.as_slice());
    out.push(0x5d);
    out.push(0x20);
    let ghost head = out@;
    assert(head =~= ascii_bytes(
        (if f.id.spec_extended() { hex_text(f.id.spec_raw() as nat, 8) } else { hex_text(f.id.spec_raw() as nat, 3) })
            + seq![' ', '['] + right_aligned(decimal_text(f.data.len()), 2) + seq![']', ' ']));
    let mut i: usize = 0;
    assert(f.data.take(0) =~= Seq::<u8>::empty());
    assert(ascii_bytes(bytes_text(Seq::<u8>::empty())) =~= Seq::<u8>::empty());
    while i < frame.data.len()
        invariant
            f == frame@,
            i <= f.data.len(),
            out@ == head + ascii_bytes(bytes_text(f.data.take(i as int))),
        decreases f.data.len() - i,
    {
        let ghost prefix = f.data.take(i as int);
        let ghost next = f.data.take(i + 1);
        assert(next.drop_last() =~= prefix);
        if i > 0 {
            out.push(0x20);
        }
        push_hex(&mut out, frame.data[i] as u64, 2);
        proof {
            if i == 0 {
                assert(bytes_text(next) == hex_text(next[0] as nat, 2));
                assert(ascii_bytes(bytes_text(prefix)) =~= Seq::<u8>::empty());
                assert(out@ =~= head + ascii_bytes(bytes_text(next)));
            } else {
                assert(bytes_text(next) == bytes_text(prefix) + seq![' '] + hex_text(next.last() as nat, 2));
                assert(ascii_bytes(bytes_text(prefix) + seq![' '] + hex_text(next.last() as nat, 2))
                    =~= ascii_bytes(bytes_text(prefix)) + seq![0x20u8] + ascii_bytes(hex_text(next.last() as nat, 2)));
            }
        }
        i = i + 1;
    }
    assert(f.data.take(f.data.len() as int) =~= f.data);
    if frame.fd {
        out.push(0x20);
        out.push(0x66);
        out.push(0x64);
    }
    proof {
        let text = frame_text(f);
        assert(out@ =~= ascii_bytes(text));
        lemma_hex_text_ascii(f.id.spec_raw() as nat, 8);
        lemma_hex_text_ascii(f.id.spec_raw() as nat, 3);
        lemma_bytes_text_ascii(f.data);
        assert(vstd::utf8::is_ascii_chars(text));
        vstd::utf8::is_ascii_chars_encode_utf8(text);
        assert(out@ =~= vstd::utf8::encode_utf8(text));
        vstd::utf8::encode_utf8_valid_utf8(text);
        vstd::utf8::encode_utf8_decode_utf8(text);
    }
    crate::text::text_from_utf8_lossy(out.as_slice())
}

/// Nanoseconds since the epoch of a timestamp, negative before it.
pub open spec fn signed_ns(t: Timestamp) -> int {
    t.seconds as int * 1_000_000_000 + t.nanos as int
}

/// How long a replay waits between two events: the time from the previous
/// event to the current one in nanoseconds, zero when the current one is
/// not later, cut to 64 bits.
pub open spec fn replay_delay(previous: Timestamp, current: Timestamp) -> u64 {
    let delta = signed_ns(current) - signed_ns(previous);
    (if delta < 0 { 0 } else { delta }) as u64
}

/// The pause before replaying `current` after `previous`, in nanoseconds.
pub fn replay_delay_ns(previous: Timestamp, current: Timestamp) -> (ns: u64)
    ensures
        ns == replay_delay(previous, current),
{
    let now: i128 = current.seconds as i128 * 1_000_000_000 + current.nanos as i128;
    let before: i128 = previous.seconds as i128 * 1_000_000_000 + previous.nanos as i128;
    let delta: i128 = now - before;
    let clamped: i128 = if delta < 0 { 0 } else { delta };
    clamped as u64
}

} // verus!
