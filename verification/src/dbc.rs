//! DBC-driven frame decoding: signal bit extraction, sign extension,
//! multiplexing and deterministic matching across several databases.

use vstd::prelude::*;
use vstd::arithmetic::power2::{pow2, lemma_pow2_unfold, lemma_pow2_pos, lemma_pow2_strictly_increases};
use vstd::arithmetic::div_mod::{lemma_fundamental_div_mod, lemma_fundamental_div_mod_converse_mod, lemma_small_mod};
use vstd::bits::{lemma_u64_shl_is_mul, lemma_u64_pow2_no_overflow};
use crate::model::{CanFrame, CanId};

verus! {

/// Bit numbering of a signal.
#[derive(Debug, Clone, Copy, PartialEq, Eq)]
pub enum ByteOrder {
    /// Intel order: bits counted upward from the start bit.
    LittleEndian,
    /// Motorola order: the start bit is the most significant bit.
    BigEndian,
}

/// How a signal takes part in multiplexing.
#[derive(Debug, Clone, Copy, PartialEq, Eq)]
pub enum MultiplexIndicator {
    /// Multiplexor switch.
    Multiplexor,
    /// Signal present when the switch has the given value.
    MultiplexedSignal(u64),
    /// Signal that is multiplexed and is itself a multiplexor.
    MultiplexorAndMultiplexedSignal(u64),
    /// Normal signal.
    Plain,
}

/// Widest Intel-ordered signal that can be read into a 64-bit word.
pub const MAX_SIGNAL_BITS: u64 = 64;

/// The value of bit `bit` of a payload, counting from the least significant
/// bit of the first byte.
pub open spec fn bit_value(payload: Seq<u8>, bit: int) -> u8 {
    (payload[bit / 8] >> ((bit % 8) as u8)) & 1u8
}

/// The `n` bits upward from `start`, the first one least significant.
pub open spec fn le_bits(payload: Seq<u8>, start: int, n: nat) -> nat
    decreases n,
{
    if n == 0 {
        0
    } else {
        le_bits(payload, start, (n - 1) as nat) + (bit_value(payload, start + n - 1) as nat) * pow2((n - 1) as nat)
    }
}

/// The bit that follows `bit` in Motorola order: down within a byte, and
/// from the least significant bit of a byte to the most significant bit of
/// the next one.
pub open spec fn be_next(bit: int) -> int {
    if bit % 8 == 0 { bit + 15 } else { bit - 1 }
}

/// The `i`-th bit of a Motorola-ordered signal that starts at `start`.
pub open spec fn be_position(start: int, i: nat) -> int
    decreases i,
{
    if i == 0 { start } else { be_next(be_position(start, (i - 1) as nat)) }
}

/// `be_position` in closed form: down to the bottom of the start byte, then
/// eight bits in each later byte, from its top down.
spec fn be_position_closed(start: int, n: nat) -> int {
    let b0 = start % 8;
    if n <= b0 {
        start - n
    } else {
        let k = n - b0 - 1;
        8 * (start / 8 + 1 + k / 8) + 7 - k % 8
    }
}

proof fn lemma_be_position_closed(start: int, n: nat)
    requires
        start >= 0,
    ensures
        be_position(start, n) == be_position_closed(start, n),
    decreases n,
{
    if n > 0 {
        lemma_be_position_closed(start, (n - 1) as nat);
        let m = (n - 1) as nat;
        let b0 = start % 8;
        if m > b0 {
            let k = m - b0 - 1;
            let p = 8 * (start / 8 + 1 + k / 8) + 7 - k % 8;
            assert(p % 8 == 7 - k % 8);
            if k % 8 == 7 {
                assert((k + 1) / 8 == k / 8 + 1 && (k + 1) % 8 == 0);
            } else {
                assert((k + 1) / 8 == k / 8 && (k + 1) % 8 == k % 8 + 1);
            }
        } else if m == b0 {
            assert((start - b0) % 8 == 0);
        }
    }
}

/// The `n` bits of a Motorola-ordered signal, the first one most significant.
pub open spec fn be_bits(payload: Seq<u8>, start: int, n: nat) -> nat
    decreases n,
{
    if n == 0 {
        0
    } else {
        2 * be_bits(payload, start, (n - 1) as nat) + (bit_value(payload, be_position(start, (n - 1) as nat)) as nat)
    }
}

/// `n - 1`, or zero for zero.
pub open spec fn pred(n: nat) -> nat {
    if n == 0 { 0 } else { (n - 1) as nat }
}

/// The last bit a signal reads: the highest bit for Intel order, the end of
/// the Motorola walk otherwise.
pub open spec fn last_bit(order: ByteOrder, start: int, size: nat) -> int {
    match order {
        ByteOrder::LittleEndian => start + pred(size),
        ByteOrder::BigEndian => be_position(start, pred(size)),
    }
}

/// The unsigned value of a signal's bits.
pub open spec fn signal_bits(payload: Seq<u8>, order: ByteOrder, start: int, size: nat) -> nat {
    match order {
        ByteOrder::LittleEndian => le_bits(payload, start, size),
        ByteOrder::BigEndian => be_bits(payload, start, size),
    }
}

/// The low 64 bits of a number.
pub open spec fn low_word(n: nat) -> u64 {
    (n % 0x1_0000_0000_0000_0000nat) as u64
}

/// The low `width` bits of `raw` read as a two's-complement number.
pub open spec fn sign_extended(raw: u64, width: nat) -> int {
    let m = raw as int % pow2(width) as int;
    if m >= pow2(pred(width)) { m - pow2(width) } else { m }
}

proof fn lemma_bit_value_le_one(payload: Seq<u8>, bit: int)
    ensures
        bit_value(payload, bit) <= 1,
{
    let b = payload[bit / 8];
    let s = (bit % 8) as u8;
    assert((b >> s) & 1u8 <= 1) by (bit_vector);
}

proof fn lemma_le_bits_bound(payload: Seq<u8>, start: int, n: nat)
    ensures
        le_bits(payload, start, n) < pow2(n),
    decreases n,
{
    lemma_pow2_pos(n);
    if n > 0 {
        lemma_le_bits_bound(payload, start, (n - 1) as nat);
        lemma_bit_value_le_one(payload, start + n - 1);
        lemma_pow2_unfold(n);
        let b = bit_value(payload, start + n - 1) as nat;
        let p = pow2((n - 1) as nat);
        assert(b * p <= p) by (nonlinear_arith) requires b <= 1;
    }
}

proof fn lemma_be_bits_bound(payload: Seq<u8>, start: int, n: nat)
    ensures
        be_bits(payload, start, n) < pow2(n),
    decreases n,
{
    lemma_pow2_pos(n);
    if n > 0 {
        lemma_be_bits_bound(payload, start, (n - 1) as nat);
        lemma_bit_value_le_one(payload, be_position(start, (n - 1) as nat));
        lemma_pow2_unfold(n);
    }
}

/// Walking a Motorola-ordered signal never moves to an earlier byte, never
/// goes below bit zero, and advances at most 15 bits per step.
proof fn lemma_be_walk(start: int, i: nat, j: nat)
    requires
        start >= 0,
        i <= j,
    ensures
        be_position(start, i) >= 0,
        be_position(start, i) / 8 <= be_position(start, j) / 8,
        be_position(start, j) <= start + 15 * j,
    decreases j,
{
    if j > 0 {
        if i == j {
            lemma_be_walk(start, (j - 1) as nat, (j - 1) as nat);
        } else {
            lemma_be_walk(start, i, (j - 1) as nat);
        }
        let b = be_position(start, (j - 1) as nat);
        assert(be_next(b) / 8 >= b / 8);
    }
}

/// Read one bit of a payload.
pub fn bit_at(payload: &[u8], bit: u64) -> (r: u8)
    requires
        bit / 8 < payload@.len(),
    ensures
        r == bit_value(payload@, bit as int),
        r <= 1,
{
    proof { lemma_bit_value_le_one(payload@, bit as int); }
    let byte = payload[(bit / 8) as usize];
    (byte >> ((bit % 8) as u8)) & 1
}

proof fn lemma_add_high_bit(v: u64, b: u64, k: u64)
    requires
        k < 64,
        v < pow2(k as nat),
        b <= 1,
    ensures
        v | (b << k) == v + b * pow2(k as nat),
        v + b * pow2(k as nat) < pow2((k + 1) as nat),
{
    lemma_u64_pow2_no_overflow(k as nat);
    lemma_pow2_unfold((k + 1) as nat);
    lemma_u64_shl_is_mul(1, k);
    let p = 1u64 << k;
    assert(p == pow2(k as nat));
    assert(v < p ==> v | (b << k) == v + (b << k)) by (bit_vector)
        requires
            k < 64,
            b <= 1,
            p == 1u64 << k;
    if b == 0 {
        assert(b << k == 0) by (bit_vector)
            requires
                b == 0;
        assert(b * pow2(k as nat) == 0);
    } else {
        assert(b << k == p) by (bit_vector)
            requires
                b == 1,
                p == 1u64 << k;
        assert(b * pow2(k as nat) == pow2(k as nat));
    }
}

/// A number below 2^64 is its own low word.
proof fn lemma_low_word_small(n: nat)
    requires
        n < 0x1_0000_0000_0000_0000nat,
    ensures
        low_word(n) == n,
{
    lemma_small_mod(n, 0x1_0000_0000_0000_0000nat);
}

/// Shifting a bit into the low word of `x` gives the low word of `2x + b`.
proof fn lemma_low_word_shift(x: nat, value: u64, b: u64)
    requires
        value == low_word(x),
        b <= 1,
    ensures
        (value << 1) | b == low_word((2 * x + b) as nat),
{
    let m: int = 0x1_0000_0000_0000_0000;
    let q = x as int / m;
    lemma_fundamental_div_mod(x as int, m);
    assert(x as int == m * q + value);
    assert(2 * x + b == (2 * q) * m + (2 * value + b)) by (nonlinear_arith)
        requires
            x as int == m * q + value;
    if value < 0x8000_0000_0000_0000u64 {
        assert(value < 0x8000_0000_0000_0000u64 ==> (value << 1) | b == 2 * value + b) by (bit_vector)
            requires
                b <= 1;
        lemma_fundamental_div_mod_converse_mod(2 * x + b, m, 2 * q, 2 * value + b);
    } else {
        assert(value >= 0x8000_0000_0000_0000u64 ==> (value << 1) | b == 2 * (value - 0x8000_0000_0000_0000u64) + b)
            by (bit_vector)
            requires
                b <= 1;
        assert(2 * x + b == (2 * q + 1) * m + (2 * value + b - m)) by (nonlinear_arith)
            requires
                2 * x + b == (2 * q) * m + (2 * value + b);
        lemma_fundamental_div_mod_converse_mod(2 * x + b, m, 2 * q + 1, 2 * value + b - m);
    }
}

/// Read `length` bits upward from `start`, the first one least significant.
pub fn extract_little_endian(payload: &[u8], start: u64, length: u64) -> (r: u64)
    requires
        length <= MAX_SIGNAL_BITS,
        payload@.len() * 8 <= usize::MAX,
        length > 0 ==> (start + length - 1) / 8 < payload@.len(),
    ensures
        r == le_bits(payload@, start as int, length as nat),
{
    let mut value: u64 = 0;
    let mut offset: u64 = 0;
    while offset < length
        invariant
            offset <= length <= MAX_SIGNAL_BITS,
            payload@.len() * 8 <= usize::MAX,
            length > 0 ==> (start + length - 1) / 8 < payload@.len(),
            value == le_bits(payload@, start as int, offset as nat),
        decreases length - offset,
    {
        proof { lemma_le_bits_bound(payload@, start as int, offset as nat); }
        let b = bit_at(payload, start + offset) as u64;
        proof { lemma_add_high_bit(value, b, offset); }
        value = value | (b << offset);
        offset = offset + 1;
    }
    value
}

/// The bit after `bit` in Motorola order.
fn be_step(bit: u64) -> (r: u64)
    requires
        be_next(bit as int) <= u64::MAX,
    ensures
        r == be_next(bit as int),
{
    if bit % 8 == 0 { bit + 15 } else { bit - 1 }
}

/// Read a Motorola-ordered signal of `length` bits that starts at `start`,
/// the first bit read being the most significant; bits shifted past the
/// top of the 64-bit word are dropped.
pub fn extract_big_endian(payload: &[u8], start: u64, length: u64) -> (r: u64)
    requires
        payload@.len() * 8 <= usize::MAX,
        length > 0 ==> be_position(start as int, (length - 1) as nat) / 8 < payload@.len(),
    ensures
        r == low_word(be_bits(payload@, start as int, length as nat)),
{
    let mut value: u64 = 0;
    let mut bit: u64 = start;
    let mut i: u64 = 0;
    proof { lemma_low_word_small(0); }
    while i < length
        invariant
            i <= length,
            payload@.len() * 8 <= usize::MAX,
            length > 0 ==> be_position(start as int, (length - 1) as nat) / 8 < payload@.len(),
            i < length ==> bit == be_position(start as int, i as nat),
            value == low_word(be_bits(payload@, start as int, i as nat)),
        decreases length - i,
    {
        proof { lemma_be_walk(start as int, i as nat, (length - 1) as nat); }
        let b = bit_at(payload, bit) as u64;
        proof {
            lemma_low_word_shift(be_bits(payload@, start as int, i as nat), value, b);
            assert(be_bits(payload@, start as int, (i + 1) as nat)
                == 2 * be_bits(payload@, start as int, i as nat) + (bit_value(payload@, be_position(start as int, i as nat)) as nat));
        }
        value = (value << 1) | b;
        if i + 1 < length {
            proof { lemma_be_walk(start as int, (i + 1) as nat, (length - 1) as nat); }
            bit = be_step(bit);
        }
        i = i + 1;
    }
    value
}

/// One entry of a signal's value table.
#[derive(Debug, Clone, PartialEq, Eq)]
pub struct ValueDescription {
    /// Raw signal value.
    pub id: i64,
    /// Display text for that value.
    pub description: String,
}

/// Where and how a signal sits in a message payload.
#[derive(Debug, Clone, PartialEq, Eq)]
pub struct SignalLayout {
    /// Signal name.
    pub name: String,
    /// Multiplexing role.
    pub multiplexer_indicator: MultiplexIndicator,
    /// Start bit.
    pub start_bit: u64,
    /// Width in bits.
    pub size: u64,
    /// Bit numbering.
    pub byte_order: ByteOrder,
    /// Whether the raw value is two's complement.
    pub signed: bool,
    /// Engineering unit, empty when none.
    pub unit: String,
    /// Value table, searched in order.
    pub value_descriptions: Vec<ValueDescription>,
}

/// A message of a database: its identifier as the database writes it (bit
/// 31 set for extended identifiers), its name, signals and multiplexor switch.
#[derive(Debug, Clone, PartialEq, Eq)]
pub struct MessageLayout {
    /// Identifier, with bit 31 marking an extended identifier.
    pub id: u32,
    /// Message name.
    pub name: String,
    /// Signals in definition order.
    pub signals: Vec<SignalLayout>,
    /// The multiplexor switch signal, when the message has exactly one.
    pub multiplexor_switch: Option<SignalLayout>,
}

/// A loaded database under its label.
#[derive(Debug, Clone, PartialEq, Eq)]
pub struct DatabaseLayout {
    /// Database label.
    pub name: String,
    /// Messages in definition order.
    pub messages: Vec<MessageLayout>,
}

/// Decode diagnostics surfaced alongside passive decoding.
#[derive(Debug, Clone, PartialEq, Eq)]
pub enum Diagnostic {
    /// No loaded DBC matched the frame identifier.
    NoMatch {
        /// Raw CAN identifier.
        id: u32,
    },
    /// More than one loaded DBC matched the frame identifier.
    AmbiguousMessage {
        /// Raw CAN identifier.
        id: u32,
        /// Database labels that matched the same identifier.
        databases: Vec<String>,
    },
    /// A signal extended past the payload length.
    PayloadTooShort {
        /// Signal name.
        signal: String,
        /// Expected payload width in bits.
        expected_bits: usize,
        /// Actual payload length in bytes.
        actual_bytes: usize,
    },
}

/// Model of a diagnostic.
pub enum DiagnosticModel {
    /// No database matched.
    NoMatch { id: u32 },
    /// Several databases matched.
    AmbiguousMessage { id: u32, databases: Seq<Seq<char>> },
    /// A signal extended past the payload.
    PayloadTooShort { signal: Seq<char>, expected_bits: int, actual_bytes: int },
}

/// The views of a sequence of strings.
pub open spec fn string_views(v: Seq<String>) -> Seq<Seq<char>> {
    v.map_values(|s: String| s@)
}

/// The view of an optional string.
pub open spec fn option_string_view(o: Option<String>) -> Option<Seq<char>> {
    match o {
        Some(s) => Some(s@),
        None => None,
    }
}

impl View for Diagnostic {
    type V = DiagnosticModel;

    open spec fn view(&self) -> DiagnosticModel {
        match self {
            Diagnostic::NoMatch { id } => DiagnosticModel::NoMatch { id: *id },
            Diagnostic::AmbiguousMessage { id, databases } =>
                DiagnosticModel::AmbiguousMessage { id: *id, databases: string_views(databases@) },
            Diagnostic::PayloadTooShort { signal, expected_bits, actual_bytes } =>
                DiagnosticModel::PayloadTooShort {
                    signal: signal@,
                    expected_bits: *expected_bits as int,
                    actual_bytes: *actual_bytes as int,
                },
        }
    }
}

/// The raw value of a signal, or the diagnostic for a payload that ends
/// before the signal's last bit.
pub open spec fn raw_signal(payload: Seq<u8>, s: SignalLayout) -> Result<u64, DiagnosticModel> {
    let last = last_bit(s.byte_order, s.start_bit as int, s.size as nat);
    if last / 8 >= payload.len() {
        Err(DiagnosticModel::PayloadTooShort { signal: s.name@, expected_bits: last + 1, actual_bytes: payload.len() as int })
    } else {
        Ok(low_word(signal_bits(payload, s.byte_order, s.start_bit as int, s.size as nat)))
    }
}

/// The last bit of a signal.
pub open spec fn signal_last_bit(s: SignalLayout) -> int {
    last_bit(s.byte_order, s.start_bit as int, s.size as nat)
}

/// A payload holds every bit of a signal.
pub open spec fn holds(payload: Seq<u8>, s: SignalLayout) -> bool {
    signal_last_bit(s) / 8 < payload.len()
}

/// Reading a signal's bits stays within machine words: the payload's width
/// in bits and the width a short payload is reported to need fit in a
/// `usize`, and an Intel-ordered signal that the payload holds is at most
/// 64 bits wide.
pub open spec fn bits_readable(s: SignalLayout, payload: Seq<u8>) -> bool {
    &&& payload.len() * 8 <= usize::MAX
    &&& signal_last_bit(s) + 1 <= usize::MAX
    &&& (holds(payload, s) && s.byte_order == ByteOrder::LittleEndian ==> s.size <= MAX_SIGNAL_BITS)
}

/// Decoding a signal stays within machine words: its bits can be read and,
/// when the payload holds a signed signal, its width counted in 32 bits is
/// 1 to 64.
pub open spec fn readable(s: SignalLayout, payload: Seq<u8>) -> bool {
    &&& bits_readable(s, payload)
    &&& (holds(payload, s) && s.signed ==> 1 <= (s.size as u32) <= 64)
}

/// The last bit a signal reads, for any layout.
pub fn max_signal_bit(signal: &SignalLayout) -> (r: u128)
    ensures
        r == signal_last_bit(*signal),
{
    let start = signal.start_bit as u128;
    let n: u128 = if signal.size == 0 { 0 } else { (signal.size - 1) as u128 };
    match signal.byte_order {
        ByteOrder::LittleEndian => start + n,
        ByteOrder::BigEndian => {
            proof { lemma_be_position_closed(start as int, n as nat); }
            let b0 = start % 8;
            if n <= b0 {
                start - n
            } else {
                let k = n - b0 - 1;
                8 * (start / 8 + 1 + k / 8) + 7 - k % 8
            }
        },
    }
}

/// Read a signal's raw value, or report a payload too short for it.
pub fn extract_raw(payload: &[u8], signal: &SignalLayout) -> (res: Result<u64, Diagnostic>)
    requires
        bits_readable(*signal, payload@),
    ensures
        match (res, raw_signal(payload@, *signal)) {
            (Ok(v), Ok(m)) => v == m,
            (Err(d), Err(m)) => d@ == m,
            _ => false,
        },
{
    let max_bit = max_signal_bit(signal);
    if max_bit / 8 >= payload.len() as u128 {
        return Err(Diagnostic::PayloadTooShort {
            signal: signal.name.clone(),
            expected_bits: (max_bit + 1) as usize,
            actual_bytes: payload.len(),
        });
    }
    match signal.byte_order {
        ByteOrder::LittleEndian => {
            let v = extract_little_endian(payload, signal.start_bit, signal.size);
            proof {
                lemma_le_bits_bound(payload@, signal.start_bit as int, signal.size as nat);
                vstd::arithmetic::power2::lemma2_to64();
                vstd::arithmetic::power2::lemma2_to64_rest();
                if signal.size < 64 {
                    lemma_pow2_strictly_increases(signal.size as nat, 64);
                }
                lemma_low_word_small(le_bits(payload@, signal.start_bit as int, signal.size as nat));
            }
            Ok(v)
        },
        ByteOrder::BigEndian => Ok(extract_big_endian(payload, signal.start_bit, signal.size)),
    }
}

/// Reinterpret the low `width` bits of `raw` as a two's-complement number.
pub fn sign_extend(raw: u64, width: u64) -> (r: i64)
    requires
        1 <= width <= 64,
    ensures
        r == sign_extended(raw, width as nat),
{
    proof { lemma_pow2_unfold(width as nat); }
    if width == 64 {
        proof {
            vstd::arithmetic::power2::lemma2_to64();
            vstd::arithmetic::power2::lemma2_to64_rest();
            vstd::arithmetic::div_mod::lemma_small_mod(raw as nat, pow2(64));
        }
        assert(raw as int % pow2(64) as int == raw);
        if raw >= 0x8000_0000_0000_0000 {
            let d: u64 = 0xffff_ffff_ffff_ffff - raw;
            -(d as i64) - 1
        } else {
            raw as i64
        }
    } else {
        proof {
            lemma_u64_pow2_no_overflow(width as nat);
            lemma_u64_shl_is_mul(1, width);
            lemma_u64_shl_is_mul(1, (width - 1) as u64);
            lemma_pow2_strictly_increases((width - 1) as nat, width as nat);
        }
        let full: u64 = 1u64 << width;
        let half: u64 = 1u64 << (width - 1);
        assert(full == 2 * half);
        proof { vstd::arithmetic::power2::lemma2_to64_rest(); }
        assert(half <= 0x4000_0000_0000_0000) by {
            if width < 63 {
                lemma_pow2_strictly_increases((width - 1) as nat, 62);
            }
        }
        let m = raw % full;
        if m >= half {
            -((full - m) as i64)
        } else {
            m as i64
        }
    }
}

/// The identifier a database uses for a frame identifier: bit 31 marks an
/// extended identifier.
pub open spec fn message_id_of(id: CanId) -> u32 {
    if id.spec_extended() { (id.spec_raw() + 0x8000_0000) as u32 } else { id.spec_raw() }
}

/// The identifier a database uses for a frame identifier.
pub fn frame_message_id(id: CanId) -> (r: u32)
    ensures
        r == message_id_of(id),
        id.spec_extended() ==> r as int == id.spec_raw() + 0x8000_0000,
        !id.spec_extended() ==> r == id.spec_raw(),
{
    let raw = id.raw();
    if id.is_extended() {
        assert(raw <= 0x1fff_ffff ==> 0x8000_0000u32 | raw == raw + 0x8000_0000u32) by (bit_vector);
        0x8000_0000u32 | raw
    } else {
        raw
    }
}

/// A database writes an extended identifier with bit 31 set above its 29
/// bits and a standard identifier as it is: the message a frame selects has
/// the frame's identifier plus 2^31 when extended, the identifier itself
/// otherwise; so extended and standard frames never select the same message.
pub proof fn lemma_message_id_of(id: CanId, other: CanId)
    requires
        id.wf(),
        other.wf(),
    ensures
        id.spec_extended() ==> message_id_of(id) as int == id.spec_raw() + 0x8000_0000,
        id.spec_extended() ==> message_id_of(id) == (id.spec_raw() | 0x8000_0000u32),
        !id.spec_extended() ==> message_id_of(id) == id.spec_raw(),
        id.spec_extended() != other.spec_extended() ==> message_id_of(id) != message_id_of(other),
        message_id_of(id) == message_id_of(other) ==> id.spec_raw() == other.spec_raw()
            && id.spec_extended() == other.spec_extended(),
{
    let raw = id.spec_raw();
    if id.spec_extended() {
        assert(raw <= 0x1fff_ffff ==> raw | 0x8000_0000u32 == raw + 0x8000_0000u32) by (bit_vector);
    }
}

/// Whether a signal is present for the given multiplexor switch value.
pub open spec fn active(indicator: MultiplexIndicator, mux_value: Option<i64>) -> bool {
    match indicator {
        MultiplexIndicator::Plain => true,
        MultiplexIndicator::Multiplexor => true,
        MultiplexIndicator::MultiplexedSignal(expected) => mux_value == Some(expected as i64),
        MultiplexIndicator::MultiplexorAndMultiplexedSignal(expected) =>
            mux_value is None || mux_value == Some(expected as i64),
    }
}

/// Whether a signal is present for the given multiplexor switch value.
pub fn signal_active(signal: &SignalLayout, mux_value: Option<i64>) -> (r: bool)
    ensures
        r == active(signal.multiplexer_indicator, mux_value),
{
    match signal.multiplexer_indicator {
        MultiplexIndicator::Plain => true,
        MultiplexIndicator::Multiplexor => true,
        MultiplexIndicator::MultiplexedSignal(expected) => match mux_value {
            Some(v) => v == expected as i64,
            None => false,
        },
        MultiplexIndicator::MultiplexorAndMultiplexedSignal(expected) => match mux_value {
            Some(v) => v == expected as i64,
            None => true,
        },
    }
}


/// Structured decode result for one signal. Scaling by the database's
/// factor and offset is left to the caller, which holds them.
#[derive(Debug, Clone, PartialEq, Eq)]
pub struct DecodedSignal {
    /// Signal name from the DBC.
    pub name: String,
    /// Raw integer value after bit extraction and sign extension.
    pub raw: i64,
    /// Engineering unit from the DBC when present.
    pub unit: Option<String>,
    /// Enumerated display text when the DBC defines one.
    pub enum_text: Option<String>,
    /// Position of the signal in its message's signal list.
    pub signal_index: usize,
}

/// Model of a decoded signal.
pub struct DecodedSignalModel {
    pub name: Seq<char>,
    pub raw: i64,
    pub unit: Option<Seq<char>>,
    pub enum_text: Option<Seq<char>>,
    pub signal_index: int,
}

impl View for DecodedSignal {
    type V = DecodedSignalModel;

    open spec fn view(&self) -> DecodedSignalModel {
        DecodedSignalModel {
            name: self.name@,
            raw: self.raw,
            unit: option_string_view(self.unit),
            enum_text: option_string_view(self.enum_text),
            signal_index: self.signal_index as int,
        }
    }
}

/// The text of the first value-table entry for `value`.
pub open spec fn description_for(descriptions: Seq<ValueDescription>, value: i64) -> Option<Seq<char>>
    decreases descriptions.len(),
{
    if descriptions.len() == 0 {
        None
    } else if descriptions[0].id == value {
        Some(descriptions[0].description@)
    } else {
        description_for(descriptions.drop_first(), value)
    }
}

/// A signal's value: sign-extended when signed, else the raw bits
/// reinterpreted as a signed 64-bit integer.
pub open spec fn signal_value(s: SignalLayout, raw: u64) -> i64 {
    if s.signed { sign_extended(raw, (s.size as u32) as nat) as i64 } else { raw as i64 }
}

/// What decoding one signal of a payload gives.
pub open spec fn decoded_signal(payload: Seq<u8>, s: SignalLayout, index: int) -> Result<DecodedSignalModel, DiagnosticModel> {
    match raw_signal(payload, s) {
        Err(d) => Err(d),
        Ok(raw) => {
            let v = signal_value(s, raw);
            Ok(DecodedSignalModel {
                name: s.name@,
                raw: v,
                unit: if s.unit@.len() == 0 { None } else { Some(s.unit@) },
                enum_text: description_for(s.value_descriptions@, v),
                signal_index: index,
            })
        },
    }
}

fn description_lookup(descriptions: &Vec<ValueDescription>, value: i64) -> (r: Option<String>)
    ensures
        option_string_view(r) == description_for(descriptions@, value),
{
    let mut i: usize = 0;
    assert(descriptions@.skip(0) =~= descriptions@);
    while i < descriptions.len()
        invariant
            i <= descriptions@.len(),
            description_for(descriptions@, value) == description_for(descriptions@.skip(i as int), value),
        decreases descriptions@.len() - i,
    {
        assert(descriptions@.skip(i as int)[0] == descriptions@[i as int]);
        if descriptions[i].id == value {
            return Some(descriptions[i].description.clone());
        }
        assert(descriptions@.skip(i as int).drop_first() =~= descriptions@.skip(i + 1));
        i = i + 1;
    }
    assert(descriptions@.skip(i as int).len() == 0);
    None
}

/// Decode one signal of a payload.
pub fn extract_signal(signal: &SignalLayout, signal_index: usize, payload: &[u8]) -> (res: Result<DecodedSignal, Diagnostic>)
    requires
        readable(*signal, payload@),
    ensures
        match (res, decoded_signal(payload@, *signal, signal_index as int)) {
            (Ok(v), Ok(m)) => v@ == m,
            (Err(d), Err(m)) => d@ == m,
            _ => false,
        },
{
    let raw = extract_raw(payload, signal)?;
    let signed = if signal.signed { sign_extend(raw, (signal.size as u32) as u64) } else { raw as i64 };
    let enum_text = description_lookup(&signal.value_descriptions, signed);
    let unit = if signal.unit.as_str().is_empty() { None } else { Some(signal.unit.clone()) };
    Ok(DecodedSignal { name: signal.name.clone(), raw: signed, unit, enum_text, signal_index })
}


/// The value of the multiplexor switch in a payload, when the message has a
/// switch and the payload holds it.
pub open spec fn mux_value(payload: Seq<u8>, switch: Option<SignalLayout>) -> Option<i64> {
    match switch {
        None => None,
        Some(sw) => match raw_signal(payload, sw) {
            Ok(v) => Some(v as i64),
            Err(_) => None,
        },
    }
}

/// Decode the first `n` signals of a message: the signals present for the
/// switch value in order, and a diagnostic for each one the payload is too
/// short for.
pub open spec fn decoded_prefix(payload: Seq<u8>, signals: Seq<SignalLayout>, mux: Option<i64>, n: nat)
    -> (Seq<DecodedSignalModel>, Seq<DiagnosticModel>)
    decreases n,
{
    if n == 0 {
        (Seq::empty(), Seq::empty())
    } else {
        let (decoded, diagnostics) = decoded_prefix(payload, signals, mux, (n - 1) as nat);
        let s = signals[n - 1];
        if !active(s.multiplexer_indicator, mux) {
            (decoded, diagnostics)
        } else {
            match decoded_signal(payload, s, n - 1) {
                Ok(v) => (decoded.push(v), diagnostics),
                Err(d) => (decoded, diagnostics.push(d)),
            }
        }
    }
}

/// `i` is the first message of `msgs` with identifier `id`.
pub open spec fn is_first_match(msgs: Seq<MessageLayout>, id: u32, i: int) -> bool {
    &&& 0 <= i < msgs.len()
    &&& msgs[i].id == id
    &&& forall|j: int| 0 <= j < i ==> #[trigger] msgs[j].id != id
}

/// Some message of `msgs` has identifier `id`.
pub open spec fn has_match(msgs: Seq<MessageLayout>, id: u32) -> bool {
    exists|i: int| 0 <= i < msgs.len() && #[trigger] msgs[i].id == id
}

/// The first message of `msgs` with identifier `id`.
pub open spec fn first_match(msgs: Seq<MessageLayout>, id: u32) -> int {
    choose|i: int| is_first_match(msgs, id, i)
}

/// The indices, in order, of the first `n` databases that hold a message
/// with identifier `id`.
pub open spec fn matching_databases(dbs: Seq<DatabaseLayout>, id: u32, n: nat) -> Seq<int>
    decreases n,
{
    if n == 0 {
        Seq::empty()
    } else {
        let earlier = matching_databases(dbs, id, (n - 1) as nat);
        if has_match(dbs[n - 1].messages@, id) { earlier.push(n - 1) } else { earlier }
    }
}

proof fn lemma_matching_in_range(dbs: Seq<DatabaseLayout>, id: u32, n: nat)
    ensures
        forall|k: int| 0 <= k < matching_databases(dbs, id, n).len()
            ==> 0 <= #[trigger] matching_databases(dbs, id, n)[k] < n,
    decreases n,
{
    if n > 0 {
        lemma_matching_in_range(dbs, id, (n - 1) as nat);
        let earlier = matching_databases(dbs, id, (n - 1) as nat);
        assert forall|k: int| 0 <= k < matching_databases(dbs, id, n).len()
            implies 0 <= #[trigger] matching_databases(dbs, id, n)[k] < n by {
            if k < earlier.len() {
                assert(matching_databases(dbs, id, n)[k] == earlier[k]);
            }
        }
    }
}

/// The matching databases among the first `n` do not change when a
/// database is added after them.
proof fn lemma_matching_prefix(dbs: Seq<DatabaseLayout>, db: DatabaseLayout, id: u32, n: nat)
    requires
        n <= dbs.len(),
    ensures
        matching_databases(dbs.push(db), id, n) == matching_databases(dbs, id, n),
    decreases n,
{
    if n > 0 {
        lemma_matching_prefix(dbs, db, id, (n - 1) as nat);
        assert(dbs.push(db)[n - 1] == dbs[n - 1]);
    }
}

/// A message list that holds identifier `id` has a first message with it.
proof fn lemma_first_match_exists(msgs: Seq<MessageLayout>, id: u32, n: int)
    requires
        0 <= n <= msgs.len(),
        exists|i: int| 0 <= i < n && #[trigger] msgs[i].id == id,
    ensures
        exists|i: int| is_first_match(msgs, id, i),
    decreases n,
{
    if exists|i: int| 0 <= i < n - 1 && #[trigger] msgs[i].id == id {
        lemma_first_match_exists(msgs, id, n - 1);
    } else {
        assert(msgs[n - 1].id == id);
        assert(is_first_match(msgs, id, n - 1));
    }
}

/// When only database `d` holds identifier `id`, the matching databases
/// among the first `n` are `d` alone once `n` passes it, and none before.
proof fn lemma_single_matching(dbs: Seq<DatabaseLayout>, id: u32, d: int, n: nat)
    requires
        0 <= d < dbs.len(),
        n <= dbs.len(),
        has_match(dbs[d].messages@, id),
        forall|e: int| 0 <= e < dbs.len() && e != d ==> !has_match(#[trigger] dbs[e].messages@, id),
    ensures
        matching_databases(dbs, id, n) == if n > d { seq![d] } else { Seq::<int>::empty() },
    decreases n,
{
    if n > 0 {
        lemma_single_matching(dbs, id, d, (n - 1) as nat);
        if n - 1 != d {
            assert(!has_match(dbs[n - 1].messages@, id));
        }
    }
}

/// A frame with an extended identifier selects the database message whose
/// identifier is the frame's 29 bits with bit 31 set, as DBC files write
/// extended identifiers: when exactly one database holds such a message,
/// decoding gives that database's first message with that identifier.
pub proof fn lemma_extended_frame_selects(dbs: Seq<DatabaseLayout>, frame: CanFrame, d: int)
    requires
        frame.id.wf(),
        frame.id.spec_extended(),
        0 <= d < dbs.len(),
        has_match(dbs[d].messages@, (frame.id.spec_raw() + 0x8000_0000) as u32),
        forall|e: int| 0 <= e < dbs.len() && e != d
            ==> !has_match(#[trigger] dbs[e].messages@, (frame.id.spec_raw() + 0x8000_0000) as u32),
    ensures
        decode_outcome(dbs, frame).message matches Some(m) && m.database_index == d
            && is_first_match(dbs[d].messages@, (frame.id.spec_raw() + 0x8000_0000) as u32, m.message_index)
            && dbs[d].messages@[m.message_index].id as int == frame.id.spec_raw() + 0x8000_0000,
{
    let raw = frame.id.spec_raw();
    let id = (raw + 0x8000_0000) as u32;
    assert(raw <= 0x1fff_ffff ==> (raw + 0x8000_0000u32) as u32 as int == raw + 0x8000_0000) by (bit_vector);
    assert(message_id_of(frame.id) == id);
    lemma_single_matching(dbs, id, d, dbs.len());
    let msgs = dbs[d].messages@;
    lemma_first_match_exists(msgs, id, msgs.len() as int);
}

/// Adding a database that does not hold the frame's message leaves how the
/// frame decodes unchanged.
pub proof fn lemma_unrelated_database(dbs: Seq<DatabaseLayout>, db: DatabaseLayout, frame: CanFrame)
    requires
        !has_match(db.messages@, message_id_of(frame.id)),
    ensures
        decode_outcome(dbs.push(db), frame) == decode_outcome(dbs, frame),
{
    let id = message_id_of(frame.id);
    let more = dbs.push(db);
    lemma_matching_prefix(dbs, db, id, dbs.len());
    assert(more[dbs.len() as int] == db);
    assert(matching_databases(more, id, more.len()) == matching_databases(dbs, id, dbs.len()));
    let found = matching_databases(dbs, id, dbs.len());
    lemma_matching_in_range(dbs, id, dbs.len());
    assert(found.map_values(|d: int| more[d].name@) =~= found.map_values(|d: int| dbs[d].name@));
    if found.len() == 1 {
        assert(more[found[0]] == dbs[found[0]]);
    }
}

/// Decoded message payload and signal set.
#[derive(Debug, Clone, PartialEq, Eq)]
pub struct DecodedMessage {
    /// Source database label.
    pub database: String,
    /// Message name from the DBC.
    pub message_name: String,
    /// Decoded signal values.
    pub signals: Vec<DecodedSignal>,
    /// Position of the source database in the decoder.
    pub database_index: usize,
    /// Position of the message in its database.
    pub message_index: usize,
}

/// Model of a decoded message.
pub struct DecodedMessageModel {
    pub database: Seq<char>,
    pub message_name: Seq<char>,
    pub signals: Seq<DecodedSignalModel>,
    pub database_index: int,
    pub message_index: int,
}

impl View for DecodedMessage {
    type V = DecodedMessageModel;

    open spec fn view(&self) -> DecodedMessageModel {
        DecodedMessageModel {
            database: self.database@,
            message_name: self.message_name@,
            signals: self.signals@.map_values(|s: DecodedSignal| s@),
            database_index: self.database_index as int,
            message_index: self.message_index as int,
        }
    }
}

/// Outcome of decoding a frame.
#[derive(Debug, Clone, PartialEq, Eq)]
pub struct DecodeOutcome {
    /// Successfully decoded message when the match is unambiguous.
    pub message: Option<DecodedMessage>,
    /// Diagnostics emitted during matching or extraction.
    pub diagnostics: Vec<Diagnostic>,
}

/// Model of a decode outcome.
pub struct DecodeOutcomeModel {
    pub message: Option<DecodedMessageModel>,
    pub diagnostics: Seq<DiagnosticModel>,
}

impl View for DecodeOutcome {
    type V = DecodeOutcomeModel;

    open spec fn view(&self) -> DecodeOutcomeModel {
        DecodeOutcomeModel {
            message: match self.message {
                Some(m) => Some(m@),
                None => None,
            },
            diagnostics: self.diagnostics@.map_values(|d: Diagnostic| d@),
        }
    }
}

/// What decoding a frame against a list of databases gives: no match, an
/// ambiguous match across databases, or the signals of the one matching
/// message together with the diagnostics of the signals that did not fit.
pub open spec fn decode_outcome(dbs: Seq<DatabaseLayout>, frame: CanFrame) -> DecodeOutcomeModel {
    let id = message_id_of(frame.id);
    let found = matching_databases(dbs, id, dbs.len());
    if found.len() == 0 {
        DecodeOutcomeModel { message: None, diagnostics: seq![DiagnosticModel::NoMatch { id: frame.id.spec_raw() }] }
    } else if found.len() > 1 {
        DecodeOutcomeModel {
            message: None,
            diagnostics: seq![DiagnosticModel::AmbiguousMessage {
                id: frame.id.spec_raw(),
                databases: found.map_values(|d: int| dbs[d].name@),
            }],
        }
    } else {
        let d = found[0];
        let mi = first_match(dbs[d].messages@, id);
        let msg = dbs[d].messages@[mi];
        let mux = mux_value(frame.data@, msg.multiplexor_switch);
        let (signals, diagnostics) = decoded_prefix(frame.data@, msg.signals@, mux, msg.signals@.len());
        DecodeOutcomeModel {
            message: Some(DecodedMessageModel {
                database: dbs[d].name@,
                message_name: msg.name@,
                signals,
                database_index: d,
                message_index: mi,
            }),
            diagnostics,
        }
    }
}

/// The switch of a message, and every signal present for the switch value
/// in a payload, can be read with machine words.
pub open spec fn message_decodable(msg: MessageLayout, payload: Seq<u8>) -> bool {
    &&& (msg.multiplexor_switch matches Some(sw) ==> bits_readable(sw, payload))
    &&& forall|i: int| 0 <= i < msg.signals@.len()
        && active(#[trigger] msg.signals@[i].multiplexer_indicator, mux_value(payload, msg.multiplexor_switch))
        ==> readable(msg.signals@[i], payload)
}

/// A frame decodes with machine words: when exactly one database holds its
/// message, the switch and the signals present of that message can be read.
pub open spec fn decodable(dbs: Seq<DatabaseLayout>, frame: CanFrame) -> bool {
    let id = message_id_of(frame.id);
    let found = matching_databases(dbs, id, dbs.len());
    found.len() == 1 ==> message_decodable(
        dbs[found[0]].messages@[first_match(dbs[found[0]].messages@, id)],
        frame.data@,
    )
}

fn find_message(messages: &Vec<MessageLayout>, id: u32) -> (r: Option<usize>)
    ensures
        r matches Some(i) ==> is_first_match(messages@, id, i as int),
        r is None ==> !has_match(messages@, id),
{
    let mut i: usize = 0;
    while i < messages.len()
        invariant
            i <= messages@.len(),
            forall|j: int| 0 <= j < i ==> #[trigger] messages@[j].id != id,
        decreases messages@.len() - i,
    {
        if messages[i].id == id {
            return Some(i);
        }
        i = i + 1;
    }
    None
}

/// For each database, in order, that holds a message with identifier `id`:
/// the database and its first such message.
fn matching_messages(dbs: &Vec<DatabaseLayout>, id: u32) -> (matches: Vec<(usize, usize)>)
    ensures
        matches@.len() == matching_databases(dbs@, id, dbs@.len() as nat).len(),
        forall|k: int| 0 <= k < matches@.len() ==> {
            &&& #[trigger] matches@[k].0 == matching_databases(dbs@, id, dbs@.len() as nat)[k]
            &&& (matches@[k].0 as int) < dbs@.len()
            &&& is_first_match(dbs@[matches@[k].0 as int].messages@, id, matches@[k].1 as int)
        },
{
    let mut matches: Vec<(usize, usize)> = Vec::new();
    let mut d: usize = 0;
    while d < dbs.len()
        invariant
            d <= dbs@.len(),
            matches@.len() == matching_databases(dbs@, id, d as nat).len(),
            forall|k: int| 0 <= k < matches@.len() ==> {
                &&& #[trigger] matches@[k].0 == matching_databases(dbs@, id, d as nat)[k]
                &&& (matches@[k].0 as int) < d
                &&& is_first_match(dbs@[matches@[k].0 as int].messages@, id, matches@[k].1 as int)
            },
        decreases dbs@.len() - d,
    {
        match find_message(&dbs[d].messages, id) {
            Some(mi) => {
                proof { assert(has_match(dbs@[d as int].messages@, id)); }
                matches.push((d, mi));
            },
            None => {},
        }
        d = d + 1;
    }
    matches
}

/// Errors returned while loading DBC data.
#[derive(Debug)]
pub enum Error {
    /// I/O failed.
    Io(std::io::Error),
    /// DBC parsing failed.
    Parse(can_dbc::DbcError),
}

/// Deterministic multi-database decoder.
#[derive(Debug)]
pub struct Decoder {
    databases: Vec<DatabaseLayout>,
    sources: Vec<Option<can_dbc::Dbc>>,
}

impl View for Decoder {
    type V = Seq<DatabaseLayout>;

    closed spec fn view(&self) -> Seq<DatabaseLayout> {
        self.databases@
    }
}

/// Whether a signal's bits can be read from a payload with machine words.
fn bits_can_be_read(signal: &SignalLayout, payload: &[u8]) -> (r: bool)
    ensures
        r == bits_readable(*signal, payload@),
{
    if payload.len() > usize::MAX / 8 {
        return false;
    }
    let last = max_signal_bit(signal);
    if last >= usize::MAX as u128 {
        return false;
    }
    if last / 8 < payload.len() as u128 {
        match signal.byte_order {
            ByteOrder::LittleEndian => signal.size <= MAX_SIGNAL_BITS,
            ByteOrder::BigEndian => true,
        }
    } else {
        true
    }
}

/// Whether a signal can be decoded from a payload with machine words.
fn can_be_read(signal: &SignalLayout, payload: &[u8]) -> (r: bool)
    ensures
        r == readable(*signal, payload@),
{
    if !bits_can_be_read(signal, payload) {
        return false;
    }
    let last = max_signal_bit(signal);
    if last / 8 < payload.len() as u128 && signal.signed {
        let width = signal.size as u32;
        1 <= width && width <= 64
    } else {
        true
    }
}

impl Decoder {
    /// The databases were loaded from DBC text, where they were; none for
    /// those pushed as layouts.
    pub closed spec fn sources(&self) -> Seq<Option<can_dbc::Dbc>> {
        self.sources@
    }

    /// Construct an empty decoder.
    pub fn new() -> (d: Decoder)
        ensures
            d@ == Seq::<DatabaseLayout>::empty(),
            d.sources() == Seq::<Option<can_dbc::Dbc>>::empty(),
    {
        Decoder { databases: Vec::new(), sources: Vec::new() }
    }

    /// Add a database layout after those already loaded.
    pub fn push_database(&mut self, database: DatabaseLayout)
        ensures
            final(self)@ == old(self)@.push(database),
            final(self).sources() == old(self).sources().push(None),
    {
        self.databases.push(database);
        self.sources.push(None);
    }

    /// Load a DBC from text and store it under a caller-provided label.
    pub fn push_named(&mut self, name: &str, dbc_text: &str) -> (r: Result<(), Error>)
        ensures
            match crate::dbc_text::dbc_text_contents(dbc_text@) {
                Some(contents) => {
                    &&& r is Ok
                    &&& final(self)@.len() == old(self)@.len() + 1
                    &&& final(self)@.drop_last() == old(self)@
                    &&& crate::dbc_text::is_layout_of(final(self)@.last(), name@, contents)
                    &&& final(self).sources().drop_last() == old(self).sources()
                    &&& final(self).sources().last() matches Some(dbc)
                        && crate::dbc_text::dbc_contents(dbc) == contents
                },
                None => r matches Err(Error::Parse(_)) && final(self)@ == old(self)@
                    && final(self).sources() == old(self).sources(),
            },
    {
        let dbc = match crate::dbc_text::parse_dbc(dbc_text) {
            Ok(dbc) => dbc,
            Err(e) => return Err(Error::Parse(e)),
        };
        let layout = crate::dbc_text::database_layout(name, &dbc);
        let ghost before = self.databases@;
        let ghost before_sources = self.sources@;
        self.databases.push(layout);
        self.sources.push(Some(dbc));
        assert(self.databases@.drop_last() =~= before);
        assert(self.sources@.drop_last() =~= before_sources);
        Ok(())
    }

    /// The parsed database that database `index` was loaded from, when it
    /// was loaded from DBC text.
    pub fn source(&self, index: usize) -> (r: Option<&can_dbc::Dbc>)
        ensures
            match r {
                Some(dbc) => index < self.sources().len() && self.sources()[index as int] == Some(*dbc),
                None => index >= self.sources().len() || self.sources()[index as int] is None,
            },
    {
        if index < self.sources.len() {
            match &self.sources[index] {
                Some(dbc) => Some(dbc),
                None => None,
            }
        } else {
            None
        }
    }

    /// Whether `decode_frame` can read, with machine words, the switch and
    /// the signals present of the message the frame selects.
    pub fn can_decode(&self, frame: &CanFrame) -> (r: bool)
        ensures
            r == decodable(self@, *frame),
    {
        let dbs = &self.databases;
        let id = frame_message_id(frame.id);
        let matches = matching_messages(dbs, id);
        if matches.len() != 1 {
            return true;
        }
        let (db_index, message_index) = matches[0];
        let message = &dbs[db_index].messages[message_index];
        proof {
            assert(message_index as int == first_match(dbs@[db_index as int].messages@, id));
            assert(decodable(self@, *frame) == message_decodable(*message, frame.data@));
        }
        let switch_value: Option<i64> = match &message.multiplexor_switch {
            Some(switch) => {
                if !bits_can_be_read(switch, frame.data.as_slice()) {
                    return false;
                }
                match extract_raw(frame.data.as_slice(), switch) {
                    Ok(v) => Some(v as i64),
                    Err(_) => None,
                }
            },
            None => None,
        };
        let mut i: usize = 0;
        while i < message.signals.len()
            invariant
                i <= message.signals@.len(),
                decodable(self@, *frame) == message_decodable(*message, frame.data@),
                message.multiplexor_switch matches Some(sw) ==> bits_readable(sw, frame.data@),
                switch_value == mux_value(frame.data@, message.multiplexor_switch),
                forall|k: int| 0 <= k < i
                    && active(#[trigger] message.signals@[k].multiplexer_indicator, switch_value)
                    ==> readable(message.signals@[k], frame.data@),
            decreases message.signals@.len() - i,
        {
            if signal_active(&message.signals[i], switch_value) && !can_be_read(&message.signals[i], frame.data.as_slice()) {
                return false;
            }
            i = i + 1;
        }
        true
    }

    /// Decode a frame against the loaded databases.
    pub fn decode_frame(&self, frame: &CanFrame) -> (out: DecodeOutcome)
        requires
            decodable(self@, *frame),
        ensures
            out@ == decode_outcome(self@, *frame),
    {
        let dbs = &self.databases;
        let id = frame_message_id(frame.id);
        let matches = matching_messages(dbs, id);
        let ghost found = matching_databases(dbs@, id, dbs@.len());
        proof { lemma_matching_in_range(dbs@, id, dbs@.len()); }
        if matches.len() == 0 {
            let mut diagnostics: Vec<Diagnostic> = Vec::new();
            diagnostics.push(Diagnostic::NoMatch { id: frame.id.raw() });
            let out = DecodeOutcome { message: None, diagnostics };
            assert(out@.diagnostics =~= decode_outcome(dbs@, *frame).diagnostics);
            return out;
        }
        if matches.len() > 1 {
            let mut names: Vec<String> = Vec::new();
            let mut k: usize = 0;
            while k < matches.len()
                invariant
                    k <= matches@.len(),
                    matches@.len() == found.len(),
                    forall|j: int| 0 <= j < matches@.len() ==> #[trigger] matches@[j].0 == found[j],
                    forall|j: int| 0 <= j < matches@.len() ==> (matches@[j].0 as int) < dbs@.len(),
                    names@.len() == k,
                    forall|j: int| 0 <= j < k ==> #[trigger] names@[j]@ == dbs@[found[j]].name@,
                decreases matches@.len() - k,
            {
                let (db_index, _) = matches[k];
                names.push(dbs[db_index].name.clone());
                k = k + 1;
            }
            let mut diagnostics: Vec<Diagnostic> = Vec::new();
            diagnostics.push(Diagnostic::AmbiguousMessage { id: frame.id.raw(), databases: names });
            let out = DecodeOutcome { message: None, diagnostics };
            assert(string_views(names@) =~= found.map_values(|d: int| dbs@[d].name@));
            assert(out@.diagnostics =~= decode_outcome(dbs@, *frame).diagnostics);
            return out;
        }
        let (db_index, message_index) = matches[0];
        let database = &dbs[db_index];
        let message = &database.messages[message_index];
        proof {
            assert(message_index as int == first_match(database.messages@, id));
        }
        let switch_value: Option<i64> = match &message.multiplexor_switch {
            Some(switch) => match extract_raw(frame.data.as_slice(), switch) {
                Ok(v) => Some(v as i64),
                Err(_) => None,
            },
            None => None,
        };
        let mut signals: Vec<DecodedSignal> = Vec::new();
        let mut diagnostics: Vec<Diagnostic> = Vec::new();
        let mut i: usize = 0;
        while i < message.signals.len()
            invariant
                i <= message.signals@.len(),
                message_decodable(*message, frame.data@),
                switch_value == mux_value(frame.data@, message.multiplexor_switch),
                signals@.map_values(|s: DecodedSignal| s@) == decoded_prefix(frame.data@, message.signals@, switch_value, i as nat).0,
                diagnostics@.map_values(|d: Diagnostic| d@) == decoded_prefix(frame.data@, message.signals@, switch_value, i as nat).1,
            decreases message.signals@.len() - i,
        {
            let signal = &message.signals[i];
            if signal_active(signal, switch_value) {
                assert(readable(*signal, frame.data@));
                match extract_signal(signal, i, frame.data.as_slice()) {
                    Ok(decoded) => {
                        let ghost before = signals@;
                        signals.push(decoded);
                        assert(signals@.map_values(|s: DecodedSignal| s@) =~= before.map_values(|s: DecodedSignal| s@).push(decoded@));
                    },
                    Err(diagnostic) => {
                        let ghost before = diagnostics@;
                        diagnostics.push(diagnostic);
                        assert(diagnostics@.map_values(|d: Diagnostic| d@) =~= before.map_values(|d: Diagnostic| d@).push(diagnostic@));
                    },
                }
            }
            i = i + 1;
        }
        let decoded = DecodedMessage {
            database: database.name.clone(),
            message_name: message.name.clone(),
            signals,
            database_index: db_index,
            message_index,
        };
        DecodeOutcome { message: Some(decoded), diagnostics }
    }
}

} // verus!
