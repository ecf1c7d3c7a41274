use cantools::isotp::{segment, FlowStatus, IsotpError, ProtocolDataUnit, Reassembler};

#[test]
fn single_frame_round_trip() {
    let data = vec![1, 2, 3];
    let frames = segment(&data, 8).expect("segments");
    assert_eq!(frames, vec![ProtocolDataUnit::SingleFrame(data)]);
}

#[test]
fn multi_frame_reassembly() {
    let payload: Vec<u8> = (0..20).collect();
    let frames = segment(&payload, 8).expect("segments");
    assert_eq!(frames.len(), 3);

    let mut reassembler = Reassembler::default();
    let mut completed = None;
    for frame in &frames {
        completed = reassembler.ingest(frame).expect("valid pdu");
    }

    assert_eq!(completed.expect("payload"), payload);
}

#[test]
fn segments_carry_sequence_numbers() {
    let payload: Vec<u8> = (0..20).collect();
    let frames = segment(&payload, 8).expect("segments");
    assert_eq!(frames[0], ProtocolDataUnit::FirstFrame { total_len: 20, payload: (0..6).collect() });
    assert_eq!(frames[1], ProtocolDataUnit::ConsecutiveFrame { sequence_number: 1, payload: (6..13).collect() });
    assert_eq!(frames[2], ProtocolDataUnit::ConsecutiveFrame { sequence_number: 2, payload: (13..20).collect() });
}

#[test]
fn encodes_each_pdu_kind() {
    assert_eq!(ProtocolDataUnit::SingleFrame(vec![9, 8]).encode(8), Ok(vec![2, 9, 8]));
    assert_eq!(ProtocolDataUnit::SingleFrame(vec![0; 8]).encode(8), Err(IsotpError::SingleFrameTooLarge));
    assert_eq!(
        ProtocolDataUnit::FirstFrame { total_len: 0x123, payload: vec![1, 2] }.encode(8),
        Ok(vec![0x11, 0x23, 1, 2])
    );
    assert_eq!(
        ProtocolDataUnit::ConsecutiveFrame { sequence_number: 0x1f, payload: vec![5] }.encode(8),
        Ok(vec![0x2f, 5])
    );
    assert_eq!(
        ProtocolDataUnit::FlowControl { status: FlowStatus::Wait, block_size: 4, separation_time_ms: 10 }.encode(8),
        Ok(vec![0x31, 4, 10])
    );
}

#[test]
fn reassembly_rejects_out_of_order_frames() {
    let mut reassembler = Reassembler::default();
    assert_eq!(
        reassembler.ingest(&ProtocolDataUnit::ConsecutiveFrame { sequence_number: 1, payload: vec![1] }),
        Err(IsotpError::UnexpectedConsecutiveFrame)
    );
    assert_eq!(
        reassembler.ingest(&ProtocolDataUnit::FirstFrame { total_len: 10, payload: vec![0; 6] }),
        Ok(None)
    );
    assert_eq!(
        reassembler.ingest(&ProtocolDataUnit::ConsecutiveFrame { sequence_number: 2, payload: vec![1] }),
        Err(IsotpError::SequenceNumberMismatch { expected: 1, actual: 2 })
    );
}

#[test]
fn long_transfers_wrap_sequence_numbers() {
    let payload: Vec<u8> = (0..200).map(|i| i as u8).collect();
    let frames = segment(&payload, 8).expect("segments");
    let mut reassembler = Reassembler::default();
    let mut completed = None;
    for frame in &frames {
        completed = reassembler.ingest(frame).expect("valid pdu");
    }
    assert_eq!(completed.expect("payload"), payload);
}
