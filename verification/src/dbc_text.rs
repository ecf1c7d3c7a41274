//! DBC text read by the `can-dbc` parser into the layouts the decoder
//! works on: the messages of a parsed database, their signals, value
//! tables and multiplexor switches.

use vstd::prelude::*;
use can_dbc::{Dbc, DbcError};
use crate::dbc::{ByteOrder, DatabaseLayout, MessageLayout, MultiplexIndicator, SignalLayout, ValueDescription};

verus! {

#[verifier::external_type_specification]
#[verifier::external_body]
pub struct ExDbc(Dbc);

#[verifier::external_type_specification]
#[verifier::external_body]
pub struct ExDbcError(DbcError);

/// The contents of a signal layout, with its text as sequences.
pub struct SignalModel {
    /// Signal name.
    pub name: Seq<char>,
    /// Multiplexing role.
    pub indicator: MultiplexIndicator,
    /// Start bit.
    pub start_bit: u64,
    /// Width in bits.
    pub size: u64,
    /// Bit numbering.
    pub byte_order: ByteOrder,
    /// Two's complement raw value.
    pub signed: bool,
    /// Engineering unit.
    pub unit: Seq<char>,
    /// Value table entries in order.
    pub descriptions: Seq<(i64, Seq<char>)>,
}

/// The contents of a message layout.
pub struct MessageModel {
    /// Identifier, bit 31 set for extended identifiers.
    pub id: u32,
    /// Message name.
    pub name: Seq<char>,
    /// Signals in definition order.
    pub signals: Seq<SignalModel>,
    /// The multiplexor switch signal.
    pub switch: Option<SignalModel>,
}

/// The contents of a value table.
pub open spec fn descriptions_view(d: Seq<ValueDescription>) -> Seq<(i64, Seq<char>)> {
    d.map_values(|v: ValueDescription| (v.id, v.description@))
}

impl View for SignalLayout {
    type V = SignalModel;

    open spec fn view(&self) -> SignalModel {
        SignalModel {
            name: self.name@,
            indicator: self.multiplexer_indicator,
            start_bit: self.start_bit,
            size: self.size,
            byte_order: self.byte_order,
            signed: self.signed,
            unit: self.unit@,
            descriptions: descriptions_view(self.value_descriptions@),
        }
    }
}

/// The contents of a list of signal layouts.
pub open spec fn signals_view(s: Seq<SignalLayout>) -> Seq<SignalModel> {
    s.map_values(|l: SignalLayout| l@)
}

impl View for MessageLayout {
    type V = MessageModel;

    open spec fn view(&self) -> MessageModel {
        MessageModel {
            id: self.id,
            name: self.name@,
            signals: signals_view(self.signals@),
            switch: match self.multiplexor_switch {
                Some(s) => Some(s@),
                None => None,
            },
        }
    }
}

/// The contents of a list of message layouts.
pub open spec fn messages_view(m: Seq<MessageLayout>) -> Seq<MessageModel> {
    m.map_values(|l: MessageLayout| l@)
}

/// The messages a parsed database holds, in definition order, each with its
/// identifier (`MessageId::raw`), name, signals with their value tables
/// (`Dbc::value_descriptions_for_signal`), and multiplexor switch
/// (`Dbc::message_multiplexor_switch`, none when it reports an error).
pub uninterp spec fn dbc_contents(dbc: Dbc) -> Seq<MessageModel>;

/// The messages that parsing a DBC text gives, when it parses.
pub uninterp spec fn dbc_text_contents(text: Seq<char>) -> Option<Seq<MessageModel>>;

/// Calls `Dbc::try_from` on DBC text; what the text holds is named
/// `dbc_text_contents`, and the parsed database holds exactly that.
#[verifier::external_body]
pub(crate) fn parse_dbc(text: &str) -> (r: Result<Dbc, DbcError>)
    ensures
        match r {
            Ok(dbc) => dbc_text_contents(text@) == Some(dbc_contents(dbc)),
            Err(_) => dbc_text_contents(text@) is None,
        },
{
    Dbc::try_from(text)
}

/// Reads `dbc.messages.len()`.
#[verifier::external_body]
fn message_count(dbc: &Dbc) -> (n: usize)
    ensures
        n == dbc_contents(*dbc).len(),
{
    dbc.messages.len()
}

/// Reads a message's identifier (`MessageId::raw`), name and number of signals.
#[verifier::external_body]
fn message_header(dbc: &Dbc, i: usize) -> (r: (u32, String, usize))
    requires
        i < dbc_contents(*dbc).len(),
    ensures
        r.0 == dbc_contents(*dbc)[i as int].id,
        r.1@ == dbc_contents(*dbc)[i as int].name,
        r.2 == dbc_contents(*dbc)[i as int].signals.len(),
{
    let message = &dbc.messages[i];
    (message.id.raw(), message.name.clone(), message.signals.len())
}

/// Reads a signal's name, start bit, size, byte order (little-endian or
/// not), value type (signed or not) and unit.
#[verifier::external_body]
fn signal_fields(dbc: &Dbc, i: usize, j: usize) -> (r: (String, u64, u64, bool, bool, String))
    requires
        i < dbc_contents(*dbc).len(),
        j < dbc_contents(*dbc)[i as int].signals.len(),
    ensures
        r.0@ == dbc_contents(*dbc)[i as int].signals[j as int].name,
        r.1 == dbc_contents(*dbc)[i as int].signals[j as int].start_bit,
        r.2 == dbc_contents(*dbc)[i as int].signals[j as int].size,
        r.3 == (dbc_contents(*dbc)[i as int].signals[j as int].byte_order == ByteOrder::LittleEndian),
        r.4 == dbc_contents(*dbc)[i as int].signals[j as int].signed,
        r.5@ == dbc_contents(*dbc)[i as int].signals[j as int].unit,
{
    let s = &dbc.messages[i].signals[j];
    let little = matches!(s.byte_order, can_dbc::ByteOrder::LittleEndian);
    let signed = matches!(s.value_type, can_dbc::ValueType::Signed);
    (s.name.clone(), s.start_bit, s.size, little, signed, s.unit.clone())
}

/// Reads a signal's multiplexer indicator.
#[verifier::external_body]
fn signal_indicator(dbc: &Dbc, i: usize, j: usize) -> (r: MultiplexIndicator)
    requires
        i < dbc_contents(*dbc).len(),
        j < dbc_contents(*dbc)[i as int].signals.len(),
    ensures
        r == dbc_contents(*dbc)[i as int].signals[j as int].indicator,
{
    match dbc.messages[i].signals[j].multiplexer_indicator {
        can_dbc::MultiplexIndicator::Multiplexor => MultiplexIndicator::Multiplexor,
        can_dbc::MultiplexIndicator::MultiplexedSignal(v) => MultiplexIndicator::MultiplexedSignal(v),
        can_dbc::MultiplexIndicator::MultiplexorAndMultiplexedSignal(v) => MultiplexIndicator::MultiplexorAndMultiplexedSignal(v),
        can_dbc::MultiplexIndicator::Plain => MultiplexIndicator::Plain,
    }
}

/// Calls `Dbc::value_descriptions_for_signal` for a signal of a message,
/// an empty table when there is none.
#[verifier::external_body]
fn signal_descriptions(dbc: &Dbc, i: usize, j: usize) -> (r: Vec<ValueDescription>)
    requires
        i < dbc_contents(*dbc).len(),
        j < dbc_contents(*dbc)[i as int].signals.len(),
    ensures
        descriptions_view(r@) == dbc_contents(*dbc)[i as int].signals[j as int].descriptions,
{
    let message = &dbc.messages[i];
    let found = dbc.value_descriptions_for_signal(message.id, &message.signals[j].name).unwrap_or(&[]);
    found.iter().map(|d| ValueDescription { id: d.id, description: d.description.clone() }).collect()
}

/// Calls `Dbc::message_multiplexor_switch` for a message (none when it
/// reports an error) and reads the switch signal's name, start bit, size,
/// byte order (little-endian or not), value type (signed or not) and unit;
/// the switch it finds is a signal whose indicator is `Multiplexor`.
#[verifier::external_body]
fn switch_fields(dbc: &Dbc, i: usize) -> (r: Option<(String, u64, u64, bool, bool, String)>)
    requires
        i < dbc_contents(*dbc).len(),
    ensures
        match (r, dbc_contents(*dbc)[i as int].switch) {
            (Some(f), Some(s)) => f.0@ == s.name && f.1 == s.start_bit && f.2 == s.size
                && f.3 == (s.byte_order == ByteOrder::LittleEndian) && f.4 == s.signed && f.5@ == s.unit
                && s.indicator == MultiplexIndicator::Multiplexor,
            (None, None) => true,
            _ => false,
        },
{
    let switch = dbc.message_multiplexor_switch(dbc.messages[i].id).ok().flatten();
    switch.map(|s| {
        let little = matches!(s.byte_order, can_dbc::ByteOrder::LittleEndian);
        (s.name.clone(), s.start_bit, s.size, little, matches!(s.value_type, can_dbc::ValueType::Signed), s.unit.clone())
    })
}

/// Calls `Dbc::message_multiplexor_switch` for a message and then
/// `Dbc::value_descriptions_for_signal` for the switch signal, an empty
/// table when there is none.
#[verifier::external_body]
fn switch_descriptions(dbc: &Dbc, i: usize) -> (r: Vec<ValueDescription>)
    requires
        i < dbc_contents(*dbc).len(),
    ensures
        match dbc_contents(*dbc)[i as int].switch {
            Some(s) => descriptions_view(r@) == s.descriptions,
            None => r@.len() == 0,
        },
{
    let message = &dbc.messages[i];
    match dbc.message_multiplexor_switch(message.id).ok().flatten() {
        Some(s) => {
            let found = dbc.value_descriptions_for_signal(message.id, &s.name).unwrap_or(&[]);
            found.iter().map(|d| ValueDescription { id: d.id, description: d.description.clone() }).collect()
        },
        None => Vec::new(),
    }
}

/// The layout of signal `j` of message `i` of a parsed database.
fn signal_layout(dbc: &Dbc, i: usize, j: usize) -> (s: SignalLayout)
    requires
        i < dbc_contents(*dbc).len(),
        j < dbc_contents(*dbc)[i as int].signals.len(),
    ensures
        s@ == dbc_contents(*dbc)[i as int].signals[j as int],
{
    let (name, start_bit, size, little, signed, unit) = signal_fields(dbc, i, j);
    let multiplexer_indicator = signal_indicator(dbc, i, j);
    let value_descriptions = signal_descriptions(dbc, i, j);
    let byte_order = if little { ByteOrder::LittleEndian } else { ByteOrder::BigEndian };
    SignalLayout { name, multiplexer_indicator, start_bit, size, byte_order, signed, unit, value_descriptions }
}

/// The layout of the multiplexor switch of message `i`, if it has one.
fn switch_layout(dbc: &Dbc, i: usize) -> (s: Option<SignalLayout>)
    requires
        i < dbc_contents(*dbc).len(),
    ensures
        match (s, dbc_contents(*dbc)[i as int].switch) {
            (Some(l), Some(m)) => l@ == m,
            (None, None) => true,
            _ => false,
        },
{
    match switch_fields(dbc, i) {
        Some((name, start_bit, size, little, signed, unit)) => {
            let value_descriptions = switch_descriptions(dbc, i);
            let byte_order = if little { ByteOrder::LittleEndian } else { ByteOrder::BigEndian };
            Some(SignalLayout {
                name,
                multiplexer_indicator: MultiplexIndicator::Multiplexor,
                start_bit,
                size,
                byte_order,
                signed,
                unit,
                value_descriptions,
            })
        },
        None => None,
    }
}

/// The layout of message `i` of a parsed database.
fn message_layout(dbc: &Dbc, i: usize) -> (m: MessageLayout)
    requires
        i < dbc_contents(*dbc).len(),
    ensures
        m@ == dbc_contents(*dbc)[i as int],
{
    let (id, name, count) = message_header(dbc, i);
    let ghost model = dbc_contents(*dbc)[i as int];
    let mut signals: Vec<SignalLayout> = Vec::new();
    let mut j: usize = 0;
    while j < count
        invariant
            i < dbc_contents(*dbc).len(),
            model == dbc_contents(*dbc)[i as int],
            count == model.signals.len(),
            j <= count,
            signals_view(signals@) == model.signals.take(j as int),
        decreases count - j,
    {
        let signal = signal_layout(dbc, i, j);
        let ghost before = signals@;
        signals.push(signal);
        assert(signals_view(signals@) =~= signals_view(before).push(signal@));
        assert(model.signals.take(j + 1) =~= model.signals.take(j as int).push(model.signals[j as int]));
        j = j + 1;
    }
    assert(model.signals.take(count as int) =~= model.signals);
    let multiplexor_switch = switch_layout(dbc, i);
    let m = MessageLayout { id, name, signals, multiplexor_switch };
    assert(m@ =~= model);
    m
}

/// Whether `layout` holds, under `name`, the messages `contents`.
pub open spec fn is_layout_of(layout: DatabaseLayout, name: Seq<char>, contents: Seq<MessageModel>) -> bool {
    &&& layout.name@ == name
    &&& messages_view(layout.messages@) == contents
}

/// The layout of a parsed database under a name.
pub fn database_layout(name: &str, dbc: &Dbc) -> (d: DatabaseLayout)
    ensures
        is_layout_of(d, name@, dbc_contents(*dbc)),
{
    let count = message_count(dbc);
    let ghost contents = dbc_contents(*dbc);
    let mut messages: Vec<MessageLayout> = Vec::new();
    let mut i: usize = 0;
    while i < count
        invariant
            contents == dbc_contents(*dbc),
            count == contents.len(),
            i <= count,
            messages_view(messages@) == contents.take(i as int),
        decreases count - i,
    {
        let message = message_layout(dbc, i);
        let ghost before = messages@;
        messages.push(message);
        assert(messages_view(messages@) =~= messages_view(before).push(message@));
        assert(contents.take(i + 1) =~= contents.take(i as int).push(contents[i as int]));
        i = i + 1;
    }
    assert(contents.take(count as int) =~= contents);
    DatabaseLayout { name: name.to_owned(), messages }
}

} // verus!
