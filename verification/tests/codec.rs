use std::io::Cursor;

use ablf::{BlfFile, ObjectTypes};
use cantools::blf::{build_can_message, encode_blf, import_blf_object, is_plain_blf, read_blf_bytes, BlfObject, BlfReadMessage};
use cantools::codec::{ns_to_timestamp, timestamp_to_ns, CodecError, FidelityNote, Format};
use cantools::mf4::{decode_record, encode_mf4, encode_record, is_plain_mf4, read_mf4_bytes, read_mf4_records, RECORD_SIZE};
use cantools::model::{
    Annotation, CanFrame, CanId, CaptureEvent, Direction, FdFlags, FrameClass, InterfaceRef, Timestamp,
};
use mf4_rs::api::mdf::MDF;

fn mf4_events() -> Vec<CaptureEvent> {
    vec![
        CaptureEvent::new(
            Timestamp { seconds: 10, nanos: 25 },
            InterfaceRef { name: Some("vcan0".to_string()), index: Some(1) },
            Direction::Rx,
            CanFrame::new(CanId::standard(0x321).expect("id"), FrameClass::Data, vec![1, 2, 3, 4], false, FdFlags::default())
                .expect("frame"),
        ),
        CaptureEvent::new(
            Timestamp { seconds: 11, nanos: 0 },
            InterfaceRef { name: Some("vcan1".to_string()), index: Some(2) },
            Direction::Tx,
            CanFrame::new(
                CanId::extended(0x18daf110).expect("id"),
                FrameClass::Data,
                (0..24).collect(),
                true,
                FdFlags { bit_rate_switch: true, error_state_indicator: false },
            )
            .expect("frame"),
        ),
    ]
}

/// Read an MF4 image back as events with the library's reader.
fn read_mf4_image(bytes: Vec<u8>) -> Vec<CaptureEvent> {
    let report = read_mf4_bytes(bytes).expect("records with bytes").expect("read mf4");
    assert!(report.notes.is_empty());
    report.events
}

/// Read the capture records of an MF4 image group by group, with `mf4-rs`
/// directly and the library's record reader.
fn read_mf4_groups_directly(bytes: Vec<u8>) -> Vec<CaptureEvent> {
    let mdf = MDF::from_bytes(bytes).expect("read mf4");
    let mut events = Vec::new();
    for group in mdf.channel_groups() {
        let name = group.name().expect("group name");
        let record_size = group.raw_channel_group().block.samples_byte_nr as usize;
        let blocks = group.raw_data_group().data_blocks(group.mmap()).expect("data blocks");
        let mut records = Vec::new();
        for block in blocks {
            for record in block.records(record_size) {
                records.push(record.to_vec());
            }
        }
        read_mf4_records(name.as_deref(), &records, &mut events).expect("decode records");
    }
    events
}

#[test]
fn mf4_round_trip() {
    let events = mf4_events();
    let (bytes, report) = encode_mf4(&events).expect("write mf4");
    assert!(report.notes.is_empty());
    let read = read_mf4_image(bytes);
    assert_eq!(read, events);
}

#[test]
fn mf4_record_layout() {
    let events = mf4_events();
    let mut notes = Vec::new();
    let record = encode_record(&events[1], &mut notes, 1);
    assert_eq!(record.len(), RECORD_SIZE);
    assert_eq!(&record[0..8], &11_000_000_000u64.to_le_bytes());
    assert_eq!(&record[8..12], &0x18daf110u32.to_le_bytes());
    assert_eq!(&record[12..14], &(0x0001u16 | 0x0008 | 0x0010 | 0x0040).to_le_bytes());
    assert_eq!(&record[14..18], &2u32.to_le_bytes());
    assert_eq!(record[18], 24);
    assert_eq!(&record[20..25], b"vcan1");
    assert!(record[25..52].iter().all(|b| *b == 0));
    assert_eq!(decode_record(&record).expect("decode"), events[1]);
}

#[test]
fn mf4_notes_truncation_and_annotations() {
    let mut event = mf4_events().remove(0);
    event.interface.name = Some("a-very-long-interface-name-that-exceeds".to_string());
    event.annotations.push(Annotation { key: "k".to_string(), value: "v".to_string() });
    let mut notes = Vec::new();
    let record = encode_record(&event, &mut notes, 4);
    assert_eq!(
        notes,
        vec![
            FidelityNote {
                event_index: Some(4),
                field: "interface_name",
                detail: "MF4 export truncated interface name to 32 bytes".to_string(),
            },
            FidelityNote {
                event_index: Some(4),
                field: "annotations",
                detail: "MF4 export omits structured annotations in the bootstrap layout".to_string(),
            },
        ]
    );
    let decoded = decode_record(&record).expect("decode");
    assert_eq!(decoded.interface.name.as_deref(), Some("a-very-long-interface-name-that-"));
    assert!(decoded.annotations.is_empty());
}

#[test]
fn mf4_record_with_bad_identifier_is_rejected() {
    let mut record = vec![0u8; RECORD_SIZE];
    record[8..12].copy_from_slice(&0x3000_0000u32.to_le_bytes());
    record[12..14].copy_from_slice(&0x0040u16.to_le_bytes());
    assert!(matches!(decode_record(&record), Err(CodecError::Core(_))));
    let mut classic = vec![0u8; RECORD_SIZE];
    classic[18] = 12;
    assert!(matches!(decode_record(&classic), Err(CodecError::Core(_))));
}

#[test]
fn mf4_other_groups_and_short_records_are_skipped() {
    let mut events = Vec::new();
    read_mf4_records(Some("other"), &[vec![0u8; RECORD_SIZE]], &mut events).expect("skip");
    read_mf4_records(None, &[vec![0u8; RECORD_SIZE]], &mut events).expect("skip");
    read_mf4_records(Some("cantools.capture"), &[vec![0u8; 10]], &mut events).expect("short");
    assert!(events.is_empty());
}

fn blf_event() -> CaptureEvent {
    CaptureEvent::new(
        Timestamp { seconds: 2, nanos: 5 },
        InterfaceRef { name: Some("can0".to_string()), index: Some(2) },
        Direction::Tx,
        CanFrame::new(
            CanId::extended(0x18daf110).expect("id"),
            FrameClass::Data,
            vec![0x02, 0x10, 0x03],
            false,
            FdFlags::default(),
        )
        .expect("frame"),
    )
}

/// Read a BLF image with the library's reader.
fn read_blf_image(bytes: Vec<u8>) -> (Vec<CaptureEvent>, Vec<FidelityNote>) {
    let report = read_blf_bytes(bytes).expect("payloads stored").expect("read blf");
    (report.events, report.notes)
}

/// Read a BLF image with the `ablf` parser directly and take in its objects.
fn read_blf_directly(bytes: Vec<u8>) -> (Vec<CaptureEvent>, Vec<FidelityNote>) {
    let blf = BlfFile::from_reader(Cursor::new(bytes)).map_err(|(error, _)| error).expect("read blf");
    assert!(blf.is_valid());
    let mut events = Vec::new();
    let mut notes = Vec::new();
    for object in blf.into_iter() {
        let object = match object.data {
            ObjectTypes::CanMessage86(message) => BlfObject::CanMessage(BlfReadMessage {
                timestamp_ns: message.header.timestamp_ns,
                channel: message.channel,
                flags: message.flags,
                dlc: message.dlc,
                id: message.id,
                data: message.data,
                bit_count: message.bit_count,
            }),
            other => BlfObject::Other(format!("{other:?}")),
        };
        import_blf_object(&object, &mut events, &mut notes).expect("import");
    }
    (events, notes)
}

#[test]
fn blf_round_trip() {
    let event = blf_event();
    let (bytes, _) = encode_blf(std::slice::from_ref(&event));
    let (events, notes) = read_blf_image(bytes);

    assert_eq!(events.len(), 1);
    assert_eq!(events[0].frame.id, event.frame.id);
    assert_eq!(events[0].direction, event.direction);
    assert!(!notes.is_empty());
}

#[test]
fn blf_file_layout() {
    let event = blf_event();
    let (bytes, report) = encode_blf(std::slice::from_ref(&event));
    assert_eq!(bytes.len(), 144 + 54);
    assert_eq!(&bytes[0..4], b"LOGG");
    assert_eq!(&bytes[16..24], &(144u64 + 54).to_le_bytes());
    assert_eq!(&bytes[144..148], b"LOBJ");
    assert_eq!(&bytes[152..156], &54u32.to_le_bytes());
    assert_eq!(&bytes[156..160], &86u32.to_le_bytes());
    assert_eq!(report.notes.len(), 2);
    assert_eq!(report.notes[0].field, "interface_name");
    assert_eq!(report.notes[0].event_index, Some(0));
    assert_eq!(report.notes[1].field, "payload");

    let message = build_can_message(&event);
    assert_eq!(message.id, 0x98daf110);
    assert_eq!(message.flags, 0x01);
    assert_eq!(message.dlc, 3);
    assert_eq!(message.bit_count, 24);
    assert_eq!(message.channel, 2);
    assert_eq!(message.timestamp_ns, 2_000_000_005);
    assert_eq!(message.data, vec![0x02, 0x10, 0x03, 0, 0, 0, 0, 0]);
}

#[test]
fn blf_import_message_and_other_objects() {
    let mut events = Vec::new();
    let mut notes = Vec::new();
    let message = BlfReadMessage {
        timestamp_ns: 3_500_000_000,
        channel: 7,
        flags: 0,
        dlc: 2,
        id: 0x4000_0123,
        data: vec![9, 8, 7, 6, 5, 4, 3, 2],
        bit_count: 0,
    };
    import_blf_object(&BlfObject::CanMessage(message), &mut events, &mut notes).expect("import");
    import_blf_object(&BlfObject::Other("AppText".to_string()), &mut events, &mut notes).expect("import");
    assert_eq!(events.len(), 1);
    assert_eq!(events[0].frame.class, FrameClass::Remote);
    assert_eq!(events[0].frame.id, CanId::standard(0x123).expect("id"));
    assert_eq!(events[0].frame.data, vec![9, 8]);
    assert_eq!(events[0].timestamp, Timestamp { seconds: 3, nanos: 500_000_000 });
    assert_eq!(events[0].interface.index, Some(7));
    assert_eq!(events[0].direction, Direction::Rx);
    assert_eq!(notes[1].detail, "ignored BLF object AppText");
    assert_eq!(notes[1].event_index, None);

    let bad = BlfReadMessage { timestamp_ns: 0, channel: 1, flags: 0, dlc: 0, id: 0x0000_0800, data: vec![], bit_count: 0 };
    assert!(matches!(
        import_blf_object(&BlfObject::CanMessage(bad), &mut events, &mut notes),
        Err(CodecError::Core(_))
    ));
}

#[test]
fn formats_follow_extensions() {
    assert_eq!(Format::from_path("capture.mf4").ok(), Some(Format::Mf4));
    assert_eq!(Format::from_path("dir.x/CAPTURE.BLF").ok(), Some(Format::Blf));
    assert_eq!(Format::from_path("log.Asc").ok(), Some(Format::Asc));
    assert!(matches!(Format::from_path("notes.txt"), Err(CodecError::UnknownFormat(p)) if p == "notes.txt"));
    assert!(matches!(Format::from_path("mf4"), Err(CodecError::UnknownFormat(_))));
    assert!(matches!(Format::from_path(".blf"), Err(CodecError::UnknownFormat(_))));
    assert_eq!(Format::from_extension(Some("mF4"), "x").ok(), Some(Format::Mf4));
    assert!(Format::from_extension(None, "x").is_err());
}

#[test]
fn timestamps_convert_to_nanoseconds() {
    assert_eq!(timestamp_to_ns(Timestamp { seconds: 2, nanos: 5 }), 2_000_000_005);
    assert_eq!(timestamp_to_ns(Timestamp { seconds: -4, nanos: 7 }), 7);
    assert_eq!(ns_to_timestamp(11_000_000_025), Timestamp { seconds: 11, nanos: 25 });
}

#[test]
fn mf4_file_layout() {
    let events = mf4_events();
    let (bytes, _) = encode_mf4(&events).expect("write mf4");
    assert_eq!(&bytes[0..8], b"MDF     ");
    assert_eq!(&bytes[8..16], b"4.10    ");
    assert_eq!(&bytes[64..68], b"##HD");
    assert_eq!(&bytes[64 + 24..64 + 32], &272u64.to_le_bytes());
    assert_eq!(&bytes[64 + 72..64 + 80], &10_000_000_025u64.to_le_bytes());
    assert_eq!(&bytes[168..172], b"##CG");
    assert_eq!(&bytes[168 + 80..168 + 88], &2u64.to_le_bytes());
    assert_eq!(&bytes[272..276], b"##DG");
    assert_eq!(&bytes[336..340], b"##TX");
    assert_eq!(&bytes[336 + 24..336 + 62], b"cantools-rs capture-focused MF4 export");
    let payload_start = bytes.len() - 2 * RECORD_SIZE;
    assert_eq!(&bytes[payload_start - 24..payload_start - 20], b"##DT");
    assert_eq!(&bytes[payload_start - 16..payload_start - 8], &(24u64 + 2 * RECORD_SIZE as u64).to_le_bytes());
    let mut notes = Vec::new();
    assert_eq!(&bytes[payload_start..payload_start + RECORD_SIZE], encode_record(&events[0], &mut notes, 0).as_slice());
}

#[test]
fn mf4_notes_every_lost_field() {
    let mut event = mf4_events().remove(0);
    event.timestamp = Timestamp { seconds: -3, nanos: 0 };
    event.interface.index = None;
    event.interface.name = Some(String::new());
    let mut notes = Vec::new();
    encode_record(&event, &mut notes, 2);
    let fields: Vec<&str> = notes.iter().map(|n| n.field).collect();
    assert_eq!(fields, vec!["timestamp", "interface_index", "interface_name"]);
    assert!(notes.iter().all(|n| n.event_index == Some(2)));
    assert_eq!(notes[2].detail, "MF4 export cannot keep an empty interface name or the text after a zero byte");

    let mut zero = mf4_events().remove(0);
    zero.interface.name = Some("vc\0an".to_string());
    let mut notes = Vec::new();
    encode_record(&zero, &mut notes, 0);
    assert_eq!(notes.len(), 1);
    assert_eq!(notes[0].field, "interface_name");
}

#[test]
fn blf_notes_every_lost_field() {
    let mut event = blf_event();
    event.timestamp = Timestamp { seconds: -1, nanos: 0 };
    event.interface.index = Some(0x1_0002);
    let (_, report) = encode_blf(std::slice::from_ref(&event));
    let details: Vec<&str> = report.notes.iter().map(|n| n.detail.as_str()).collect();
    assert_eq!(
        details,
        vec![
            "BLF export writes timestamps before the epoch as zero",
            "BLF export keeps only a numeric channel, not the interface name",
            "BLF export cuts the interface index to a 16-bit channel",
            "BLF export is best-effort in the bootstrap implementation and may not preserve every payload/layout detail",
        ]
    );
    event.interface = InterfaceRef { name: None, index: None };
    let (_, report) = encode_blf(std::slice::from_ref(&event));
    assert_eq!(report.notes[1].detail, "BLF export writes an unknown interface index as channel 1");
}

#[test]
fn readers_agree_with_the_outside_parsers() {
    let events = mf4_events();
    let (bytes, _) = encode_mf4(&events).expect("write mf4");
    assert_eq!(read_mf4_image(bytes.clone()), read_mf4_groups_directly(bytes));

    let (bytes, _) = encode_blf(&[blf_event(), blf_event()]);
    assert_eq!(read_blf_image(bytes.clone()), read_blf_directly(bytes));
}

#[test]
fn readers_report_unreadable_files() {
    assert!(read_blf_bytes(vec![1, 2, 3]).is_none());
    let (mut bytes, _) = encode_blf(&[blf_event()]);
    assert!(is_plain_blf(&bytes));
    bytes[144 + 8] = 40;
    assert!(!is_plain_blf(&bytes));
    assert!(read_blf_bytes(bytes).is_none());
    assert!(read_mf4_bytes(vec![1, 2, 3]).is_none());
    let (mut bytes, _) = encode_mf4(&mf4_events()).expect("write mf4");
    assert!(is_plain_mf4(&bytes));
    let (empty, _) = encode_mf4(&[]).expect("write mf4");
    assert!(is_plain_mf4(&empty));
    bytes[100] ^= 0xff;
    assert!(!is_plain_mf4(&bytes));
    assert!(read_mf4_bytes(bytes).is_none());
}
