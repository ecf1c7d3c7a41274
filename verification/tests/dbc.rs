use cantools::dbc::{
    max_signal_bit, ByteOrder, DatabaseLayout, DecodeOutcome, Decoder, Diagnostic, Error, MessageLayout,
    MultiplexIndicator, SignalLayout, ValueDescription,
};
use cantools::model::{CanFrame, CanId, FdFlags, FrameClass};

const SIMPLE_DBC: &str = r#"
VERSION ""
NS_ :
BS_:
BU_: Vector__XXX
BO_ 291 ExampleMessage: 8 Vector__XXX
 SG_ Speed : 0|16@1+ (0.1,0) [0|250] "km/h" Vector__XXX
 SG_ Mode M : 16|8@1+ (1,0) [0|3] "" Vector__XXX
 SG_ Temp m1 : 24|8@1- (1,-40) [-40|215] "C" Vector__XXX
VAL_ 291 Mode 0 "Idle" 1 "Drive";
"#;

/// The database of `SIMPLE_DBC`, as the layout the decoder reads:
/// message 291 `ExampleMessage` with `Speed` (0|16, little-endian,
/// unsigned, factor 0.1, km/h), the switch `Mode` (16|8, values Idle and
/// Drive) and `Temp` (24|8, signed, offset -40, C) present when Mode is 1.
fn simple_database(name: &str) -> DatabaseLayout {
    let mode = SignalLayout {
        name: "Mode".to_string(),
        multiplexer_indicator: MultiplexIndicator::Multiplexor,
        start_bit: 16,
        size: 8,
        byte_order: ByteOrder::LittleEndian,
        signed: false,
        unit: String::new(),
        value_descriptions: vec![
            ValueDescription { id: 0, description: "Idle".to_string() },
            ValueDescription { id: 1, description: "Drive".to_string() },
        ],
    };
    DatabaseLayout {
        name: name.to_string(),
        messages: vec![MessageLayout {
            id: 291,
            name: "ExampleMessage".to_string(),
            signals: vec![
                SignalLayout {
                    name: "Speed".to_string(),
                    multiplexer_indicator: MultiplexIndicator::Plain,
                    start_bit: 0,
                    size: 16,
                    byte_order: ByteOrder::LittleEndian,
                    signed: false,
                    unit: "km/h".to_string(),
                    value_descriptions: vec![],
                },
                mode.clone(),
                SignalLayout {
                    name: "Temp".to_string(),
                    multiplexer_indicator: MultiplexIndicator::MultiplexedSignal(1),
                    start_bit: 24,
                    size: 8,
                    byte_order: ByteOrder::LittleEndian,
                    signed: true,
                    unit: "C".to_string(),
                    value_descriptions: vec![],
                },
            ],
            multiplexor_switch: Some(mode),
        }],
    }
}

/// Factor and offset of the signals above, in order.
const SCALING: [(f64, f64); 3] = [(0.1, 0.0), (1.0, 0.0), (1.0, -40.0)];

#[test]
fn decodes_signals_and_enums() {
    let mut decoder = Decoder::new();
    decoder.push_named("vehicle.dbc", SIMPLE_DBC).expect("dbc");

    let frame = CanFrame::new(
        CanId::standard(0x123).expect("id"),
        FrameClass::Data,
        vec![0x10, 0x27, 0x01, 0x50],
        false,
        FdFlags::default(),
    )
    .expect("frame");

    let outcome = decoder.decode_frame(&frame);
    let message = outcome.message.expect("decoded message");
    assert!(outcome.diagnostics.is_empty());
    assert_eq!(message.message_name, "ExampleMessage");
    assert_eq!(message.signals.len(), 3);
    assert_eq!(message.signals[0].name, "Speed");
    let source = decoder.source(message.database_index).expect("parsed database");
    let definition = &source.messages[message.message_index].signals[message.signals[0].signal_index];
    assert_eq!(message.signals[0].raw as f64 * definition.factor + definition.offset, 1000.0);
    assert_eq!(message.signals[1].enum_text.as_deref(), Some("Drive"));
}

#[test]
fn decodes_hand_built_layouts() {
    let mut decoder = Decoder::new();
    decoder.push_database(simple_database("vehicle.dbc"));
    assert!(decoder.source(0).is_none());

    let frame = CanFrame::new(
        CanId::standard(0x123).expect("id"),
        FrameClass::Data,
        vec![0x10, 0x27, 0x01, 0x50],
        false,
        FdFlags::default(),
    )
    .expect("frame");

    let outcome = decoder.decode_frame(&frame);
    let message = outcome.message.expect("decoded message");
    assert!(outcome.diagnostics.is_empty());
    assert_eq!(message.message_name, "ExampleMessage");
    assert_eq!(message.signals.len(), 3);
    assert_eq!(message.signals[0].name, "Speed");
    let (factor, offset) = SCALING[message.signals[0].signal_index];
    assert_eq!(message.signals[0].raw as f64 * factor + offset, 1000.0);
    assert_eq!(message.signals[1].enum_text.as_deref(), Some("Drive"));
}

#[test]
fn reports_ambiguity_across_databases() {
    let mut decoder = Decoder::new();
    decoder.push_named("a.dbc", SIMPLE_DBC).expect("dbc");
    decoder.push_named("b.dbc", SIMPLE_DBC).expect("dbc");

    let frame =
        CanFrame::new(CanId::standard(0x123).expect("id"), FrameClass::Data, vec![0; 8], false, FdFlags::default())
            .expect("frame");

    let outcome = decoder.decode_frame(&frame);
    assert!(outcome.message.is_none());
    assert_eq!(
        outcome.diagnostics,
        vec![Diagnostic::AmbiguousMessage { id: 0x123, databases: vec!["a.dbc".to_string(), "b.dbc".to_string()] }]
    );
}

#[test]
fn reports_short_payloads() {
    let mut decoder = Decoder::new();
    decoder.push_named("vehicle.dbc", SIMPLE_DBC).expect("dbc");

    let frame =
        CanFrame::new(CanId::standard(0x123).expect("id"), FrameClass::Data, vec![0x01], false, FdFlags::default())
            .expect("frame");

    let outcome = decoder.decode_frame(&frame);
    assert!(matches!(
        outcome,
        DecodeOutcome {
            message: Some(_),
            ref diagnostics,
        } if !diagnostics.is_empty()
    ));
}

#[test]
fn reports_unknown_identifiers() {
    let mut decoder = Decoder::new();
    decoder.push_database(simple_database("vehicle.dbc"));
    let frame =
        CanFrame::new(CanId::standard(0x124).expect("id"), FrameClass::Data, vec![0; 8], false, FdFlags::default())
            .expect("frame");
    let outcome = decoder.decode_frame(&frame);
    assert!(outcome.message.is_none());
    assert_eq!(outcome.diagnostics, vec![Diagnostic::NoMatch { id: 0x124 }]);
}

#[test]
fn signed_signal_and_inactive_multiplexed_signal() {
    let mut decoder = Decoder::new();
    decoder.push_database(simple_database("vehicle.dbc"));
    let frame = CanFrame::new(
        CanId::standard(0x123).expect("id"),
        FrameClass::Data,
        vec![0x00, 0x00, 0x01, 0xff],
        false,
        FdFlags::default(),
    )
    .expect("frame");
    let message = decoder.decode_frame(&frame).message.expect("decoded message");
    assert_eq!(message.signals[2].name, "Temp");
    assert_eq!(message.signals[2].raw, -1);

    let idle = CanFrame::new(
        CanId::standard(0x123).expect("id"),
        FrameClass::Data,
        vec![0x00, 0x00, 0x00, 0xff],
        false,
        FdFlags::default(),
    )
    .expect("frame");
    let message = decoder.decode_frame(&idle).message.expect("decoded message");
    assert_eq!(message.signals.len(), 2);
    assert_eq!(message.signals[1].enum_text.as_deref(), Some("Idle"));
}

#[test]
fn parsed_text_gives_the_hand_built_layout() {
    let mut from_text = Decoder::new();
    from_text.push_named("vehicle.dbc", SIMPLE_DBC).expect("dbc");
    let mut from_layout = Decoder::new();
    from_layout.push_database(simple_database("vehicle.dbc"));
    for payload in [vec![0x10, 0x27, 0x01, 0x50], vec![0x00, 0x00, 0x00, 0xff], vec![0x01], vec![]] {
        let frame =
            CanFrame::new(CanId::standard(0x123).expect("id"), FrameClass::Data, payload, false, FdFlags::default())
                .expect("frame");
        assert_eq!(from_text.decode_frame(&frame), from_layout.decode_frame(&frame));
    }
}

#[test]
fn rejects_malformed_dbc_text() {
    let mut decoder = Decoder::new();
    let result = decoder.push_named("broken.dbc", "BO_ this is not a database");
    assert!(matches!(result, Err(Error::Parse(_))));
    assert!(decoder.source(0).is_none());
    let frame =
        CanFrame::new(CanId::standard(0x123).expect("id"), FrameClass::Data, vec![0; 8], false, FdFlags::default())
            .expect("frame");
    assert_eq!(decoder.decode_frame(&frame).diagnostics, vec![Diagnostic::NoMatch { id: 0x123 }]);
}

fn frame_with(payload: Vec<u8>) -> CanFrame {
    let fd = payload.len() > 8;
    CanFrame::new(CanId::standard(0x123).expect("id"), FrameClass::Data, payload, fd, FdFlags::default())
        .expect("frame")
}

#[test]
fn decodes_only_fitting_layouts() {
    let classic = frame_with(vec![0; 8]);
    let wide_payload = frame_with(vec![0; 16]);
    let mut wide = simple_database("wide.dbc");
    wide.messages[0].signals[0].size = 65;

    // A 65-bit Intel signal that the payload does not hold is reported short.
    let mut alone = Decoder::new();
    alone.push_database(wide.clone());
    assert!(alone.can_decode(&classic));
    let outcome = alone.decode_frame(&classic);
    assert_eq!(
        outcome.diagnostics,
        vec![Diagnostic::PayloadTooShort { signal: "Speed".to_string(), expected_bits: 65, actual_bytes: 8 }]
    );
    // One that it holds cannot be read into a 64-bit word.
    assert!(!alone.can_decode(&wide_payload));

    let mut ambiguous = Decoder::new();
    ambiguous.push_named("vehicle.dbc", SIMPLE_DBC).expect("dbc");
    assert!(ambiguous.can_decode(&wide_payload));
    ambiguous.push_database(wide);
    assert!(ambiguous.can_decode(&wide_payload));
    let outcome = ambiguous.decode_frame(&wide_payload);
    assert!(outcome.message.is_none());
    assert_eq!(
        outcome.diagnostics,
        vec![Diagnostic::AmbiguousMessage {
            id: 0x123,
            databases: vec!["vehicle.dbc".to_string(), "wide.dbc".to_string()]
        }]
    );

    // A signed signal of no bits is only a problem when Mode selects it.
    let mut empty = simple_database("empty.dbc");
    empty.messages[0].signals[2].size = 0;
    let mut decoder = Decoder::new();
    decoder.push_database(empty);
    assert!(decoder.can_decode(&classic));
    let message = decoder.decode_frame(&classic).message.expect("decoded message");
    assert_eq!(message.signals.len(), 2);
    assert!(!decoder.can_decode(&frame_with(vec![0, 0, 1, 0])));
}

#[test]
fn wide_motorola_signals_keep_their_low_word() {
    let mut layout = simple_database("wide.dbc");
    let speed = &mut layout.messages[0].signals[0];
    speed.byte_order = ByteOrder::BigEndian;
    speed.start_bit = 7;
    speed.size = 72;
    let mut decoder = Decoder::new();
    decoder.push_database(layout);
    let mut payload = vec![0xAA, 1, 2, 3, 4, 5, 6, 7, 8];
    payload.extend_from_slice(&[0; 7]);
    let frame = frame_with(payload);
    assert!(decoder.can_decode(&frame));
    let message = decoder.decode_frame(&frame).message.expect("decoded message");
    assert_eq!(message.signals[0].name, "Speed");
    assert_eq!(message.signals[0].raw, 0x0102_0304_0506_0708);
}

#[test]
fn last_bits_of_signal_layouts() {
    let mut signal = simple_database("db").messages[0].signals[0].clone();
    signal.byte_order = ByteOrder::BigEndian;
    for (start, size, last) in [(7, 16, 8), (0, 2, 15), (3, 4, 0), (3, 0, 3), (12, 6, 23), (12, 13, 16), (7, 72, 64)] {
        signal.start_bit = start;
        signal.size = size;
        assert_eq!(max_signal_bit(&signal), last, "start {start} size {size}");
    }
    signal.byte_order = ByteOrder::LittleEndian;
    signal.start_bit = u64::MAX;
    signal.size = u64::MAX;
    assert_eq!(max_signal_bit(&signal), 2 * u64::MAX as u128 - 1);
}

#[test]
fn unrelated_databases_leave_decoding_unchanged() {
    let frame = frame_with(vec![0x10, 0x27, 0x01, 0x50]);
    let mut decoder = Decoder::new();
    decoder.push_named("vehicle.dbc", SIMPLE_DBC).expect("dbc");
    let before = decoder.decode_frame(&frame);
    let mut other = simple_database("other.dbc");
    other.messages[0].id = 0x124;
    decoder.push_database(other);
    assert_eq!(decoder.decode_frame(&frame), before);
}
