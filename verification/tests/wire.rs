use timing_search::wire::{
    encode_value, probe_batch, probe_value, round_script, Direction, ProbeOp, REPLY_WIDTH,
    VALUE_WIDTH,
};

#[test]
fn probe_value_moves_by_the_offset() {
    assert_eq!(probe_value(10, Direction::Increasing, 5), 15);
    assert_eq!(probe_value(10, Direction::Decreasing, 5), 5);
    assert_eq!(probe_value(10, Direction::Increasing, 0), 10);
    assert_eq!(probe_value(10, Direction::Decreasing, 0), 10);
}

#[test]
fn probe_value_wraps_past_the_largest_value() {
    assert_eq!(probe_value(u128::MAX, Direction::Increasing, 1), 0);
    assert_eq!(probe_value(u128::MAX - 5, Direction::Increasing, 999), 993);
    assert_eq!(probe_value(u128::MAX, Direction::Increasing, 0), u128::MAX);
}

#[test]
fn probe_value_wraps_below_zero() {
    assert_eq!(probe_value(0, Direction::Decreasing, 1), u128::MAX);
    assert_eq!(probe_value(3, Direction::Decreasing, 999), u128::MAX - 995);
    assert_eq!(probe_value(0, Direction::Decreasing, 0), 0);
}

#[test]
fn encode_value_puts_the_high_byte_first() {
    assert_eq!(
        encode_value(0x0102_0304_0506_0708_090a_0b0c_0d0e_0f10),
        [1, 2, 3, 4, 5, 6, 7, 8, 9, 10, 11, 12, 13, 14, 15, 16]
    );
    assert_eq!(encode_value(0), [0u8; 16]);
    assert_eq!(encode_value(u128::MAX), [0xffu8; 16]);
    assert_eq!(encode_value(1), [0, 0, 0, 0, 0, 0, 0, 0, 0, 0, 0, 0, 0, 0, 0, 1]);
    assert_eq!(encode_value(1 << 120), [1, 0, 0, 0, 0, 0, 0, 0, 0, 0, 0, 0, 0, 0, 0, 0]);
}

#[test]
fn encode_value_agrees_with_the_standard_encoding() {
    let samples = [
        0u128,
        1,
        255,
        256,
        0xdead_beef,
        u128::MAX / 2,
        u128::MAX / 3,
        u128::MAX - 1,
        u128::MAX,
    ];
    for value in samples {
        assert_eq!(encode_value(value), value.to_be_bytes());
        assert_eq!(u128::from_be_bytes(encode_value(value)), value);
    }
}

#[test]
fn value_width_is_that_of_an_encoding() {
    assert_eq!(encode_value(7).len(), VALUE_WIDTH);
    assert_eq!(VALUE_WIDTH, 16);
    assert_eq!(REPLY_WIDTH, 4);
}

#[test]
fn probe_batch_holds_a_thousand_values_in_offset_order() {
    let pivot = u128::MAX / 2;
    let batch = probe_batch(pivot, Direction::Increasing, 1000);
    assert_eq!(batch.len(), 1000);
    for (offset, bytes) in batch.iter().enumerate() {
        assert_eq!(*bytes, (pivot + offset as u128).to_be_bytes());
    }
    let batch = probe_batch(pivot, Direction::Decreasing, 1000);
    assert_eq!(batch.len(), 1000);
    for (offset, bytes) in batch.iter().enumerate() {
        assert_eq!(*bytes, (pivot - offset as u128).to_be_bytes());
    }
}

#[test]
fn probe_batch_wraps_at_both_ends() {
    let up = probe_batch(u128::MAX - 1, Direction::Increasing, 4);
    assert_eq!(
        up,
        vec![
            (u128::MAX - 1).to_be_bytes(),
            u128::MAX.to_be_bytes(),
            0u128.to_be_bytes(),
            1u128.to_be_bytes(),
        ]
    );
    let down = probe_batch(1, Direction::Decreasing, 4);
    assert_eq!(
        down,
        vec![
            1u128.to_be_bytes(),
            0u128.to_be_bytes(),
            u128::MAX.to_be_bytes(),
            (u128::MAX - 1).to_be_bytes(),
        ]
    );
}

#[test]
fn probe_batch_of_nothing_is_empty() {
    assert!(probe_batch(5, Direction::Increasing, 0).is_empty());
}

#[test]
fn round_script_frames_the_batch() {
    let pivot = 0x1234_5678_9abc_def0_1234_5678_9abc_def0u128;
    let ops = round_script(pivot, Direction::Decreasing, 1000);
    assert_eq!(ops.len(), 1003);
    assert_eq!(ops[0], ProbeOp::Connect);
    for offset in 0..1000u128 {
        assert_eq!(
            ops[offset as usize + 1],
            ProbeOp::Send { bytes: (pivot - offset).to_be_bytes() }
        );
    }
    assert_eq!(ops[1001], ProbeOp::HalfClose);
    assert_eq!(ops[1002], ProbeOp::AwaitReply { len: 4 });
}

#[test]
fn round_script_has_one_connect_one_half_close_and_one_read() {
    let ops = round_script(42, Direction::Increasing, 1000);
    let connects = ops.iter().filter(|op| matches!(op, ProbeOp::Connect)).count();
    let sends = ops.iter().filter(|op| matches!(op, ProbeOp::Send { .. })).count();
    let closes = ops.iter().filter(|op| matches!(op, ProbeOp::HalfClose)).count();
    let reads = ops.iter().filter(|op| matches!(op, ProbeOp::AwaitReply { .. })).count();
    assert_eq!((connects, sends, closes, reads), (1, 1000, 1, 1));
}

#[test]
fn round_script_of_an_empty_batch_still_closes_and_reads() {
    let ops = round_script(42, Direction::Increasing, 0);
    assert_eq!(
        ops,
        vec![ProbeOp::Connect, ProbeOp::HalfClose, ProbeOp::AwaitReply { len: REPLY_WIDTH }]
    );
}
