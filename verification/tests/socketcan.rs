use std::time::{Duration, UNIX_EPOCH};

use cantools::model::{CanFrame, CanId, CoreError, Direction, FdFlags, FrameClass, Timestamp};
use cantools::socketcan::{can_id_from_frame, frame_from_native, native_frame_for, received_event};

fn padded(mut data: Vec<u8>) -> Vec<u8> {
    data.resize(64, 0);
    data
}

#[test]
fn identifier_words_carry_flags() {
    let remote = CanFrame::new(CanId::extended(0x1234).expect("id"), FrameClass::Remote, vec![], false, FdFlags::default())
        .expect("frame");
    assert_eq!(can_id_from_frame(&remote), 0x8000_0000 | 0x4000_0000 | 0x1234);
    let error = CanFrame::new(CanId::standard(0x7).expect("id"), FrameClass::Error, vec![], false, FdFlags::default())
        .expect("frame");
    assert_eq!(can_id_from_frame(&error), 0x2000_0007);
}

#[test]
fn classic_frames_survive_the_kernel_structure() {
    let frame = CanFrame::new(CanId::standard(0x321).expect("id"), FrameClass::Data, vec![1, 2, 3], false, FdFlags::default())
        .expect("frame");
    let native = native_frame_for(&frame);
    assert!(!native.fd);
    assert_eq!(native.len, 3);
    assert_eq!(native.data, vec![1, 2, 3, 0, 0, 0, 0, 0]);
    let back = frame_from_native(native.can_id, native.len, native.flags, &padded(native.data), native.fd).expect("frame");
    assert_eq!(back, frame);
}

#[test]
fn fd_frames_survive_the_kernel_structure() {
    let frame = CanFrame::new(
        CanId::extended(0x18daf110).expect("id"),
        FrameClass::Data,
        (0..20).collect(),
        true,
        FdFlags { bit_rate_switch: true, error_state_indicator: true },
    )
    .expect("frame");
    let native = native_frame_for(&frame);
    assert_eq!(native.flags, 0x03);
    assert_eq!(native.data.len(), 64);
    let back = frame_from_native(native.can_id, native.len, native.flags, &padded(native.data), native.fd).expect("frame");
    assert_eq!(back, frame);
}

#[test]
fn short_reads_are_classic_frames() {
    let frame = frame_from_native(0x123, 12, 0x03, &[0xaa; 64], false).expect("frame");
    assert!(!frame.fd);
    assert_eq!(frame.data.len(), 8);
    assert_eq!(frame.fd_flags, FdFlags::default());
}

#[test]
fn received_frames_become_events() {
    let frame = CanFrame::new(CanId::standard(0x1).expect("id"), FrameClass::Data, vec![], false, FdFlags::default())
        .expect("frame");
    let event = received_event(frame.clone(), UNIX_EPOCH + Duration::new(5, 6), "vcan0", 3).expect("event");
    assert_eq!(event.timestamp, Timestamp { seconds: 5, nanos: 6 });
    assert_eq!(event.interface.name.as_deref(), Some("vcan0"));
    assert_eq!(event.interface.index, Some(3));
    assert_eq!(event.direction, Direction::Rx);
    assert_eq!(event.frame, frame);
    let early = received_event(frame, UNIX_EPOCH - Duration::from_secs(1), "vcan0", 3);
    assert_eq!(early, Err(CoreError::TimestampBeforeEpoch));
}
