//! The text of the live monitor: one line per captured event, the body
//! shown while waiting for traffic, and the bounded list of recent events.

use vstd::prelude::*;
use crate::cli::{
    ascii_bytes, bytes_text, decimal_text, hex_text, lemma_bytes_text_ascii, lemma_decimal_text_ascii,
    lemma_hex_text_ascii, push_decimal, push_hex, right_aligned,
};
use crate::model::{CaptureEvent, Direction, EventView};

verus! {

/// The seconds of a timestamp in decimal, with a minus sign when negative.
pub open spec fn seconds_text(s: i64) -> Seq<char> {
    if s < 0 { seq!['-'] + decimal_text((-(s as int)) as nat) } else { decimal_text(s as nat) }
}

/// `t` padded on the left with zeros to `width` characters.
pub open spec fn zero_padded(t: Seq<char>, width: nat) -> Seq<char> {
    if t.len() < width { Seq::new((width - t.len()) as nat, |i: int| '0') + t } else { t }
}

/// `t` padded on the right with spaces to `width` characters.
pub open spec fn left_aligned(t: Seq<char>, width: nat) -> Seq<char> {
    if t.len() < width { t + Seq::new((width - t.len()) as nat, |i: int| ' ') } else { t }
}

/// The identifier of a frame in hex: 8 digits when extended, 3 otherwise.
pub open spec fn id_text(e: EventView) -> Seq<char> {
    if e.frame.id.spec_extended() {
        hex_text(e.frame.id.spec_raw() as nat, 8)
    } else {
        hex_text(e.frame.id.spec_raw() as nat, 3)
    }
}

/// The direction of an event as `Rx` or `Tx`.
pub open spec fn direction_text(d: Direction) -> Seq<char> {
    if d == Direction::Rx { seq!['R', 'x'] } else { seq!['T', 'x'] }
}

/// The time of an event: seconds right-aligned in ten places, a dot, and
/// the nanoseconds in at least nine digits.
pub open spec fn time_text(e: EventView) -> Seq<char> {
    right_aligned(seconds_text(e.timestamp.seconds), 10) + seq!['.'] + zero_padded(decimal_text(e.timestamp.nanos as nat), 9)
}

/// The monitor line of an event: its time, direction, identifier
/// left-aligned in eight places, and payload bytes in hex.
pub open spec fn event_line(e: EventView) -> Seq<char> {
    time_text(e) + seq![' '] + direction_text(e.direction) + seq![' '] + left_aligned(id_text(e), 8) + seq![' ']
        + bytes_text(e.frame.data)
}

/// The bytes of joined ASCII texts are the joined bytes.
proof fn lemma_ascii_concat(a: Seq<char>, b: Seq<char>)
    ensures
        ascii_bytes(a + b) == ascii_bytes(a) + ascii_bytes(b),
{
    assert(ascii_bytes(a + b) =~= ascii_bytes(a) + ascii_bytes(b));
}

/// `n` copies of `fill`.
pub open spec fn filler(n: int, fill: u8) -> Seq<u8> {
    Seq::new(if n > 0 { n as nat } else { 0 }, |i: int| fill)
}

/// Append `piece` after enough copies of `fill` to reach `width` bytes.
fn push_right_aligned(out: &mut Vec<u8>, piece: &[u8], width: usize, fill: u8)
    ensures
        final(out)@ == old(out)@ + filler(width - piece@.len(), fill) + piece@,
{
    let ghost start = out@;
    let mut k: usize = piece.len();
    while k < width
        invariant
            piece@.len() <= k,
            k <= width || k == piece@.len(),
            out@ == start + filler(k - piece@.len(), fill),
        decreases width - k,
    {
        out.push(fill);
        k = k + 1;
        assert(out@ =~= start + filler(k - piece@.len(), fill));
    }
    assert(filler(k - piece@.len(), fill) =~= filler(width - piece@.len(), fill));
    crate::bytes::append_bytes(out, piece);
}

/// Append `piece` followed by enough spaces to reach `width` bytes.
fn push_left_aligned(out: &mut Vec<u8>, piece: &[u8], width: usize)
    ensures
        final(out)@ == old(out)@ + piece@ + filler(width - piece@.len(), 0x20),
{
    crate::bytes::append_bytes(out, piece);
    let ghost start = out@;
    let mut k: usize = piece.len();
    while k < width
        invariant
            piece@.len() <= k,
            k <= width || k == piece@.len(),
            out@ == start + filler(k - piece@.len(), 0x20),
        decreases width - k,
    {
        out.push(0x20);
        k = k + 1;
        assert(out@ =~= start + filler(k - piece@.len(), 0x20));
    }
    assert(filler(k - piece@.len(), 0x20) =~= filler(width - piece@.len(), 0x20));
}

/// Padding text by bytes is padding its ASCII text by characters.
proof fn lemma_padding(t: Seq<char>, width: nat)
    ensures
        ascii_bytes(right_aligned(t, width)) == filler(width - t.len(), 0x20) + ascii_bytes(t),
        ascii_bytes(zero_padded(t, width)) == filler(width - t.len(), 0x30) + ascii_bytes(t),
        ascii_bytes(left_aligned(t, width)) == ascii_bytes(t) + filler(width - t.len(), 0x20),
{
    assert(ascii_bytes(right_aligned(t, width)) =~= filler(width - t.len(), 0x20) + ascii_bytes(t));
    assert(ascii_bytes(zero_padded(t, width)) =~= filler(width - t.len(), 0x30) + ascii_bytes(t));
    assert(ascii_bytes(left_aligned(t, width)) =~= ascii_bytes(t) + filler(width - t.len(), 0x20));
}

/// The decimal text of a seconds count.
fn seconds_bytes(s: i64) -> (out: Vec<u8>)
    ensures
        out@ == ascii_bytes(seconds_text(s)),
        out@.len() == seconds_text(s).len(),
        vstd::utf8::is_ascii_chars(seconds_text(s)),
{
    let mut out: Vec<u8> = Vec::new();
    proof {
        lemma_decimal_text_ascii((-(s as int)) as nat);
        lemma_decimal_text_ascii(s as nat);
    }
    if s < 0 {
        out.push(0x2d);
        let magnitude: u64 = ((-(s + 1)) as u64) + 1;
        push_decimal(&mut out, magnitude);
        assert(ascii_bytes(seq!['-'] + decimal_text((-(s as int)) as nat))
            =~= seq![0x2du8] + ascii_bytes(decimal_text((-(s as int)) as nat)));
    } else {
        push_decimal(&mut out, s as u64);
    }
    out
}

/// Append the payload bytes as two-digit hex numbers separated by spaces.
pub(crate) fn push_bytes_text(out: &mut Vec<u8>, data: &[u8])
    ensures
        final(out)@ == old(out)@ + ascii_bytes(bytes_text(data@)),
        vstd::utf8::is_ascii_chars(bytes_text(data@)),
{
    let ghost head = out@;
    let mut i: usize = 0;
    assert(data@.take(0) =~= Seq::<u8>::empty());
    assert(ascii_bytes(bytes_text(Seq::<u8>::empty())) =~= Seq::<u8>::empty());
    while i < data.len()
        invariant
            i <= data@.len(),
            out@ == head + ascii_bytes(bytes_text(data@.take(i as int))),
        decreases data@.len() - i,
    {
        let ghost prefix = data@.take(i as int);
        let ghost next = data@.take(i + 1);
        assert(next.drop_last() =~= prefix);
        if i > 0 {
            out.push(0x20);
        }
        push_hex(out, data[i] as u64, 2);
        proof {
            if i == 0 {
                assert(ascii_bytes(bytes_text(prefix)) =~= Seq::<u8>::empty());
                assert(out@ =~= head + ascii_bytes(bytes_text(next)));
            } else {
                assert(ascii_bytes(bytes_text(prefix) + seq![' '] + hex_text(next.last() as nat, 2))
                    =~= ascii_bytes(bytes_text(prefix)) + seq![0x20u8] + ascii_bytes(hex_text(next.last() as nat, 2)));
            }
        }
        i = i + 1;
    }
    assert(data@.take(data@.len() as int) =~= data@);
    proof { lemma_bytes_text_ascii(data@); }
}

/// The monitor line of an event is ASCII.
proof fn lemma_event_line_ascii(e: EventView)
    requires
        vstd::utf8::is_ascii_chars(seconds_text(e.timestamp.seconds)),
    ensures
        vstd::utf8::is_ascii_chars(event_line(e)),
{
    lemma_decimal_text_ascii(e.timestamp.nanos as nat);
    lemma_hex_text_ascii(e.frame.id.spec_raw() as nat, 8);
    lemma_hex_text_ascii(e.frame.id.spec_raw() as nat, 3);
    lemma_bytes_text_ascii(e.frame.data);
}

/// Append the time of an event.
fn push_time(out: &mut Vec<u8>, event: &CaptureEvent)
    ensures
        final(out)@ == old(out)@ + ascii_bytes(time_text(event@)),
        vstd::utf8::is_ascii_chars(seconds_text(event.timestamp.seconds)),
{
    let ghost start = out@;
    let seconds = seconds_bytes(event.timestamp.seconds);
    push_right_aligned(out, seconds.as_slice(), 10, 0x20);
    out.push(0x2e);
    let mut nanos: Vec<u8> = Vec::new();
    push_decimal(&mut nanos, event.timestamp.nanos as u64);
    proof { lemma_decimal_text_ascii(event.timestamp.nanos as nat); }
    push_right_aligned(out, nanos.as_slice(), 9, 0x30);
    proof {
        let t = event@.timestamp;
        lemma_padding(seconds_text(t.seconds), 10);
        lemma_padding(decimal_text(t.nanos as nat), 9);
        lemma_ascii_concat(right_aligned(seconds_text(t.seconds), 10), seq!['.']);
        lemma_ascii_concat(right_aligned(seconds_text(t.seconds), 10) + seq!['.'], zero_padded(decimal_text(t.nanos as nat), 9));
        assert(ascii_bytes(seq!['.']) =~= seq![0x2eu8]);
        assert(out@ =~= start + ascii_bytes(time_text(event@)));
    }
}

/// Append the identifier of an event's frame, left-aligned in eight places.
fn push_id(out: &mut Vec<u8>, event: &CaptureEvent)
    ensures
        final(out)@ == old(out)@ + ascii_bytes(left_aligned(id_text(event@), 8)),
{
    let mut id: Vec<u8> = Vec::new();
    if event.frame.id.is_extended() {
        push_hex(&mut id, event.frame.id.raw() as u64, 8);
    } else {
        push_hex(&mut id, event.frame.id.raw() as u64, 3);
    }
    proof {
        lemma_hex_text_ascii(event@.frame.id.spec_raw() as nat, 8);
        lemma_hex_text_ascii(event@.frame.id.spec_raw() as nat, 3);
        lemma_padding(id_text(event@), 8);
    }
    push_left_aligned(out, id.as_slice(), 8);
}

/// Append the monitor line of an event.
fn push_event_line(out: &mut Vec<u8>, event: &CaptureEvent)
    ensures
        final(out)@ == old(out)@ + ascii_bytes(event_line(event@)),
        vstd::utf8::is_ascii_chars(event_line(event@)),
{
    let ghost e = event@;
    let ghost start = out@;
    push_time(out, event);
    out.push(0x20);
    match event.direction {
        Direction::Rx => {
            out.push(0x52);
            out.push(0x78);
        },
        Direction::Tx => {
            out.push(0x54);
            out.push(0x78);
        },
    }
    out.push(0x20);
    let ghost mid = out@;
    push_id(out, event);
    out.push(0x20);
    push_bytes_text(out, event.frame.data.as_slice());
    proof {
        let a = time_text(e);
        let b = seq![' '] + direction_text(e.direction) + seq![' '];
        let c = left_aligned(id_text(e), 8) + seq![' '];
        let d = bytes_text(e.frame.data);
        assert(event_line(e) =~= a + b + c + d);
        lemma_ascii_concat(a, b);
        lemma_ascii_concat(a + b, c);
        lemma_ascii_concat(a + b + c, d);
        assert(ascii_bytes(b) =~= seq![0x20u8] + ascii_bytes(direction_text(e.direction)) + seq![0x20u8]);
        assert(ascii_bytes(direction_text(e.direction)) =~= (if e.direction == Direction::Rx { seq![0x52u8, 0x78u8] } else { seq![0x54u8, 0x78u8] }));
        lemma_ascii_concat(left_aligned(id_text(e), 8), seq![' ']);
        assert(ascii_bytes(seq![' ']) =~= seq![0x20u8]);
        assert(out@ =~= start + ascii_bytes(event_line(e)));
        lemma_event_line_ascii(e);
    }
}

/// ASCII text appended as bytes reads back as that text.
proof fn lemma_ascii_text(out: Seq<u8>, text: Seq<char>)
    requires
        out == ascii_bytes(text),
        vstd::utf8::is_ascii_chars(text),
    ensures
        vstd::utf8::valid_utf8(out),
        vstd::utf8::decode_utf8(out) == text,
{
    vstd::utf8::is_ascii_chars_encode_utf8(text);
    assert(out =~= vstd::utf8::encode_utf8(text));
    vstd::utf8::encode_utf8_valid_utf8(text);
    vstd::utf8::encode_utf8_decode_utf8(text);
}

/// Format one captured event as a monitor line.
pub fn format_event(event: &CaptureEvent) -> (s: String)
    ensures
        s@ == event_line(event@),
{
    let mut out: Vec<u8> = Vec::new();
    push_event_line(&mut out, event);
    proof {
        assert(out@ =~= ascii_bytes(event_line(event@)));
        lemma_ascii_text(out@, event_line(event@));
    }
    crate::text::text_from_utf8_lossy(out.as_slice())
}

/// The lines of the events, separated by line breaks.
pub open spec fn lines_text(events: Seq<EventView>) -> Seq<char>
    decreases events.len(),
{
    if events.len() == 0 {
        Seq::empty()
    } else if events.len() == 1 {
        event_line(events[0])
    } else {
        lines_text(events.drop_last()) + seq!['\n'] + event_line(events.last())
    }
}

/// What the monitor shows for the recent events: their lines, or a prompt
/// while there are none yet.
pub open spec fn monitor_text(events: Seq<EventView>) -> Seq<char> {
    if events.len() == 0 { "Waiting for CAN traffic...\nPress q to quit."@ } else { lines_text(events) }
}

/// The text the monitor shows for the recent events.
pub fn monitor_body(events: &[CaptureEvent]) -> (s: String)
    ensures
        s@ == monitor_text(crate::mf4::events_view(events@)),
{
    let ghost all = crate::mf4::events_view(events@);
    if events.len() == 0 {
        return "Waiting for CAN traffic...\nPress q to quit.".to_owned();
    }
    let mut out: Vec<u8> = Vec::new();
    let mut i: usize = 0;
    assert(all.take(0) =~= Seq::<EventView>::empty());
    assert(ascii_bytes(lines_text(Seq::<EventView>::empty())) =~= Seq::<u8>::empty());
    while i < events.len()
        invariant
            all == crate::mf4::events_view(events@),
            all.len() == events@.len(),
            i <= events@.len(),
            out@ == ascii_bytes(lines_text(all.take(i as int))),
            vstd::utf8::is_ascii_chars(lines_text(all.take(i as int))),
        decreases events@.len() - i,
    {
        let ghost prefix = all.take(i as int);
        let ghost next = all.take(i + 1);
        assert(next.drop_last() =~= prefix);
        assert(next.last() == events@[i as int]@);
        let ghost before = out@;
        if i > 0 {
            out.push(0x0a);
        }
        push_event_line(&mut out, &events[i]);
        proof {
            if i == 0 {
                assert(lines_text(next) == event_line(next[0]));
                assert(out@ =~= ascii_bytes(lines_text(next)));
            } else {
                let line = event_line(next.last());
                lemma_ascii_concat(lines_text(prefix), seq!['\n']);
                lemma_ascii_concat(lines_text(prefix) + seq!['\n'], line);
                assert(ascii_bytes(seq!['\n']) =~= seq![0x0au8]);
                assert(out@ =~= ascii_bytes(lines_text(next)));
            }
            assert(vstd::utf8::is_ascii_chars(lines_text(next)));
        }
        i = i + 1;
    }
    assert(all.take(all.len() as int) =~= all);
    proof {
        lemma_ascii_text(out@, lines_text(all));
    }
    crate::text::text_from_utf8_lossy(out.as_slice())
}

/// The recent events after `event` arrives: the oldest is dropped first
/// when the list already holds `limit` events (a limit of zero drops none).
pub open spec fn recent_after(events: Seq<CaptureEvent>, event: CaptureEvent, limit: usize) -> Seq<CaptureEvent> {
    if events.len() == limit && limit > 0 { events.drop_first().push(event) } else { events.push(event) }
}

/// Keep the recent events: add the new one, first dropping the oldest when
/// the list already holds `limit` events.
pub fn push_recent(events: &mut Vec<CaptureEvent>, event: CaptureEvent, limit: usize)
    ensures
        final(events)@ == recent_after(old(events)@, event, limit),
{
    if events.len() == limit && limit > 0 {
        events.remove(0);
    }
    events.push(event);
}

/// With a positive limit, a list of recent events within the limit stays
/// within it, ends with the new event, and keeps the newest of the others
/// in order.
pub proof fn lemma_recent_bounded(events: Seq<CaptureEvent>, event: CaptureEvent, limit: usize)
    requires
        limit > 0,
        events.len() <= limit,
    ensures
        recent_after(events, event, limit).len() <= limit,
        recent_after(events, event, limit).last() == event,
        recent_after(events, event, limit).drop_last()
            == events.subrange(events.len() - (recent_after(events, event, limit).len() - 1), events.len() as int),
{
    let r = recent_after(events, event, limit);
    assert(r.drop_last() =~= events.subrange(events.len() - (r.len() - 1), events.len() as int));
}

} // verus!
