use std::time::UNIX_EPOCH;

use cantools::model::{
    CanFrame, CanId, CaptureEvent, CoreError, Direction, FdFlags, FrameClass, InterfaceRef, Timestamp,
};

#[test]
fn validates_standard_identifier_bounds() {
    assert!(CanId::standard(0x7ff).is_ok());
    assert!(CanId::standard(0x800).is_err());
}

#[test]
fn validates_payload_length_for_classic_can() {
    let id = CanId::standard(0x123).expect("valid id");
    assert!(CanFrame::new(id, FrameClass::Data, vec![0; 8], false, FdFlags::default()).is_ok());
    assert!(CanFrame::new(id, FrameClass::Data, vec![0; 9], false, FdFlags::default()).is_err());
}

#[test]
fn timestamp_from_system_time_works() {
    let timestamp =
        Timestamp::from_system_time(UNIX_EPOCH + std::time::Duration::from_secs(2)).expect("valid time");
    assert_eq!(timestamp.seconds, 2);
    assert_eq!(timestamp.nanos, 0);
}

#[test]
fn timestamp_keeps_subsecond_nanos() {
    let timestamp = Timestamp::from_system_time(UNIX_EPOCH + std::time::Duration::new(7, 123_456_789))
        .expect("valid time");
    assert_eq!(timestamp, Timestamp { seconds: 7, nanos: 123_456_789 });
}

#[test]
fn timestamp_before_epoch_is_rejected() {
    let before = UNIX_EPOCH - std::time::Duration::from_secs(1);
    assert_eq!(Timestamp::from_system_time(before), Err(CoreError::TimestampBeforeEpoch));
}

#[test]
fn extended_identifier_bounds() {
    let id = CanId::extended(0x1fff_ffff).expect("largest extended id");
    assert_eq!(id.raw(), 0x1fff_ffff);
    assert!(id.is_extended());
    assert_eq!(
        CanId::extended(0x2000_0000),
        Err(CoreError::InvalidCanId { value: 0x2000_0000, kind: "extended identifier" })
    );
    assert_eq!(
        CanId::standard(0x800),
        Err(CoreError::InvalidCanId { value: 0x800, kind: "standard identifier" })
    );
}

#[test]
fn fd_frames_carry_up_to_64_bytes() {
    let id = CanId::standard(0x10).expect("id");
    let frame = CanFrame::new(id, FrameClass::Data, vec![7; 64], true, FdFlags::default()).expect("fd frame");
    assert_eq!(frame.dlc(), 64);
    assert_eq!(
        CanFrame::new(id, FrameClass::Data, vec![7; 65], true, FdFlags::default()),
        Err(CoreError::InvalidPayloadLength { length: 65, max: 64, kind: "CAN FD frame" })
    );
    assert_eq!(
        CanFrame::new(id, FrameClass::Data, vec![0; 9], false, FdFlags::default()),
        Err(CoreError::InvalidPayloadLength { length: 9, max: 8, kind: "classic CAN frame" })
    );
}

#[test]
fn capture_event_starts_without_annotations() {
    let frame = CanFrame::new(CanId::standard(1).expect("id"), FrameClass::Remote, vec![], false, FdFlags::default())
        .expect("frame");
    let event = CaptureEvent::new(
        Timestamp { seconds: 1, nanos: 2 },
        InterfaceRef { name: Some("can0".to_string()), index: Some(3) },
        Direction::Tx,
        frame.clone(),
    );
    assert!(event.annotations.is_empty());
    assert_eq!(event.frame, frame);
    assert_eq!(event.direction, Direction::Tx);
}
