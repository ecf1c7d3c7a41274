use cantools::model::{CanFrame, CanId, CaptureEvent, Direction, FdFlags, FrameClass, InterfaceRef, Timestamp};
use cantools::monitor::{format_event, monitor_body, push_recent};

fn event(seconds: i64, nanos: u32, direction: Direction, id: CanId, data: Vec<u8>) -> CaptureEvent {
    CaptureEvent::new(
        Timestamp { seconds, nanos },
        InterfaceRef { name: None, index: None },
        direction,
        CanFrame::new(id, FrameClass::Data, data, false, FdFlags::default()).expect("frame"),
    )
}

#[test]
fn formats_monitor_lines() {
    let rx = event(12, 3400, Direction::Rx, CanId::standard(0x12).expect("id"), vec![0x01, 0xab]);
    assert_eq!(format_event(&rx), "        12.000003400 Rx 012      01 AB");
    let tx = event(-5, 0, Direction::Tx, CanId::extended(0x18daf110).expect("id"), vec![]);
    assert_eq!(format_event(&tx), "        -5.000000000 Tx 18DAF110 ");
    let wide = event(i64::MIN, 1_234_567_890, Direction::Rx, CanId::standard(0).expect("id"), vec![0xff]);
    assert_eq!(format_event(&wide), "-9223372036854775808.1234567890 Rx 000      FF");
}

#[test]
fn monitor_body_joins_lines() {
    assert_eq!(monitor_body(&[]), "Waiting for CAN traffic...\nPress q to quit.");
    let a = event(1, 0, Direction::Rx, CanId::standard(1).expect("id"), vec![]);
    let b = event(2, 0, Direction::Tx, CanId::standard(2).expect("id"), vec![0x10]);
    assert_eq!(
        monitor_body(&[a.clone(), b.clone()]),
        format!("{}\n{}", format_event(&a), format_event(&b))
    );
}

#[test]
fn recent_events_are_bounded() {
    let mut events = Vec::new();
    for i in 0..5 {
        push_recent(&mut events, event(i, 0, Direction::Rx, CanId::standard(1).expect("id"), vec![]), 3);
    }
    assert_eq!(events.iter().map(|e| e.timestamp.seconds).collect::<Vec<_>>(), vec![2, 3, 4]);
    let mut unbounded = Vec::new();
    for i in 0..3 {
        push_recent(&mut unbounded, event(i, 0, Direction::Rx, CanId::standard(1).expect("id"), vec![]), 0);
    }
    assert_eq!(unbounded.len(), 3);
}
