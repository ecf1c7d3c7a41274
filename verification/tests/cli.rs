use cantools::cli::{build_frame, parse_hex_bytes, parse_id, render_frame, replay_delay_ns, CliError};
use cantools::model::{CanFrame, CanId, CoreError, FdFlags, FrameClass, Timestamp};

#[test]
fn parses_hex_payloads() {
    assert_eq!(parse_hex_bytes("01 02_0a"), Ok(vec![0x01, 0x02, 0x0a]));
    assert_eq!(parse_hex_bytes("DEADbeef"), Ok(vec![0xde, 0xad, 0xbe, 0xef]));
    assert_eq!(parse_hex_bytes(""), Ok(vec![]));
    assert_eq!(parse_hex_bytes("  _ "), Ok(vec![]));
    assert_eq!(parse_hex_bytes("+f"), Ok(vec![0x0f]));
    assert_eq!(parse_hex_bytes("123"), Err(CliError::OddHexDigits));
    assert_eq!(parse_hex_bytes("zz"), Err(CliError::InvalidHexByte));
    assert_eq!(parse_hex_bytes("-1"), Err(CliError::InvalidHexByte));
}

#[test]
fn parses_identifiers() {
    assert_eq!(parse_id("0x123"), Ok(CanId::standard(0x123).expect("id")));
    assert_eq!(parse_id("7ff"), Ok(CanId::standard(0x7ff).expect("id")));
    assert_eq!(parse_id("800"), Ok(CanId::extended(0x800).expect("id")));
    assert_eq!(parse_id("0x0x18DAF110"), Ok(CanId::extended(0x18daf110).expect("id")));
    assert_eq!(parse_id("xyz"), Err(CliError::InvalidCanId("xyz".to_string())));
    assert_eq!(parse_id("0x"), Err(CliError::InvalidCanId("0x".to_string())));
    assert_eq!(parse_id("100000000"), Err(CliError::InvalidCanId("100000000".to_string())));
    assert_eq!(
        parse_id("ffffffff"),
        Err(CliError::Core(CoreError::InvalidCanId { value: 0xffff_ffff, kind: "extended identifier" }))
    );
}

#[test]
fn builds_frames_from_text() {
    let frame = build_frame("0x123", "01 02", false, false, false).expect("frame");
    assert_eq!(frame.id, CanId::standard(0x123).expect("id"));
    assert_eq!(frame.data, vec![1, 2]);
    assert_eq!(frame.class, FrameClass::Data);
    let fd = build_frame("18daf110", "00", true, true, false).expect("fd frame");
    assert!(fd.fd);
    assert!(fd.fd_flags.bit_rate_switch);
    assert_eq!(
        build_frame("123", "00 01 02 03 04 05 06 07 08", false, false, false),
        Err(CliError::Core(CoreError::InvalidPayloadLength { length: 9, max: 8, kind: "classic CAN frame" }))
    );
    assert_eq!(build_frame("123", "0", false, false, false), Err(CliError::OddHexDigits));
}

#[test]
fn renders_frames_on_one_line() {
    let frame = CanFrame::new(CanId::standard(0x12).expect("id"), FrameClass::Data, vec![0xab, 0x01], false, FdFlags::default())
        .expect("frame");
    assert_eq!(render_frame(&frame), "012 [ 2] AB 01");
    let fd = CanFrame::new(CanId::extended(0x18daf110).expect("id"), FrameClass::Data, vec![0; 12], true, FdFlags::default())
        .expect("frame");
    assert_eq!(render_frame(&fd), "18DAF110 [12] 00 00 00 00 00 00 00 00 00 00 00 00 fd");
    let empty = CanFrame::new(CanId::standard(0x7ff).expect("id"), FrameClass::Remote, vec![], false, FdFlags::default())
        .expect("frame");
    assert_eq!(render_frame(&empty), "7FF [ 0] ");
}

#[test]
fn replay_waits_for_the_gap_between_events() {
    let a = Timestamp { seconds: 1, nanos: 900_000_000 };
    let b = Timestamp { seconds: 2, nanos: 100_000_000 };
    assert_eq!(replay_delay_ns(a, b), 200_000_000);
    assert_eq!(replay_delay_ns(b, a), 0);
    assert_eq!(replay_delay_ns(Timestamp { seconds: -1, nanos: 0 }, Timestamp { seconds: 0, nanos: 0 }), 1_000_000_000);
}
