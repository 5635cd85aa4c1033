use battleship::protocol::{frame_message, message_length, AllyField, EnemyField, MAX_MESSAGE_LEN};

#[test]
fn frame_starts_with_big_endian_length() {
    let payload = vec![7u8; 300];
    let framed = frame_message(&payload);
    assert_eq!(&framed[..4], &[0, 0, 1, 44]);
    assert_eq!(&framed[4..], &payload[..]);
}

#[test]
fn empty_payload_frames_to_zero_header() {
    assert_eq!(frame_message(&[]), vec![0, 0, 0, 0]);
}

#[test]
fn header_is_read_big_endian() {
    assert_eq!(message_length([0, 0, 0, 5]), Some(5));
    assert_eq!(message_length([0, 0, 1, 2]), Some(258));
    assert_eq!(message_length([0, 0, 8, 0]), Some(2048));
}

#[test]
fn header_beyond_receive_buffer_is_refused() {
    assert_eq!(message_length([0, 0, 8, 1]), None);
    assert_eq!(message_length([1, 0, 0, 0]), None);
    assert_eq!(message_length([255, 255, 255, 255]), None);
}

#[test]
fn framed_length_reads_back() {
    for len in [0usize, 1, 255, 256, 1000, MAX_MESSAGE_LEN] {
        let payload: Vec<u8> = (0..len).map(|i| i as u8).collect();
        let framed = frame_message(&payload);
        let header = [framed[0], framed[1], framed[2], framed[3]];
        assert_eq!(message_length(header), Some(len));
        assert_eq!(&framed[4..], &payload[..]);
    }
}

#[test]
fn field_symbols() {
    assert_eq!(char::from(AllyField::Free), '🟦');
    assert_eq!(char::from(AllyField::Occupied), '⚪');
    assert_eq!(char::from(AllyField::Missed), '🟫');
    assert_eq!(char::from(AllyField::Hit), '🟡');
    assert_eq!(char::from(AllyField::Sank), '🔴');
    assert_eq!(char::from(EnemyField::Unknown), '🟦');
    assert_eq!(char::from(EnemyField::Hit), '🟡');
    assert_eq!(char::from(EnemyField::Sank), '🔴');
    assert_eq!(char::from(EnemyField::Missed), '🟫');
}
