use kazoo_core::ipc::types::{
    instrument_id_from, NoteEventMsg, RegisterMsg, NOTE_ON, REGISTER_NAME_LEN,
};

const TEST_ID: [u8; 16] = [7, 1, 0, 0, 42, 0, 0, 0, 0, 0, 0, 0, 3, 0, 0, 0];

#[test]
fn register_msg_roundtrip() {
    let msg = RegisterMsg::new(TEST_ID, "kazoo-808", 2, 44_100, 128);
    let mut buf = vec![0u8; RegisterMsg::WIRE_SIZE];
    let len = msg.encode(&mut buf);
    assert_eq!(len, RegisterMsg::WIRE_SIZE);

    let decoded = RegisterMsg::decode(&buf);
    assert_eq!(decoded.instrument_id, msg.instrument_id);
    assert_eq!(decoded.name_str(), "kazoo-808");
    assert_eq!(decoded.channel_count, 2);
    assert_eq!(decoded.sample_rate, 44_100);
    assert_eq!(decoded.buffer_size, 128);
}

#[test]
fn register_msg_long_name_truncated() {
    let long_name = "a]".repeat(20); // 40 chars, longer than REGISTER_NAME_LEN
    let msg = RegisterMsg::new(TEST_ID, &long_name, 1, 48_000, 256);
    assert_eq!(msg.name_str().len(), REGISTER_NAME_LEN);
}

#[test]
fn register_msg_name_cut_inside_a_character_reads_empty() {
    // 31 ASCII bytes then a two-byte character: truncation splits it.
    let name = format!("{}é", "x".repeat(31));
    let msg = RegisterMsg::new(TEST_ID, &name, 1, 48_000, 256);
    assert_eq!(msg.name_str(), "");
}

#[test]
fn register_msg_wire_layout() {
    let msg = RegisterMsg::new(TEST_ID, "ab", 1, 0x0001_0203, 0x0A0B_0C0D);
    let mut buf = vec![0xEEu8; RegisterMsg::WIRE_SIZE + 2];
    msg.encode(&mut buf);
    assert_eq!(&buf[0..16], &TEST_ID);
    assert_eq!(&buf[16..18], b"ab");
    assert!(buf[18..48].iter().all(|&b| b == 0));
    assert_eq!(buf[48], 1);
    assert_eq!(&buf[49..53], &[0x03, 0x02, 0x01, 0x00]);
    assert_eq!(&buf[53..57], &[0x0D, 0x0C, 0x0B, 0x0A]);
    assert_eq!(&buf[57..], &[0xEE, 0xEE]);
}

#[test]
fn note_event_msg_roundtrip() {
    let msg = NoteEventMsg {
        source: [1; 16],
        target: [2; 16],
        event_type: NOTE_ON,
        channel: 0,
        note: 60,
        velocity: 100,
    };
    let mut buf = vec![0u8; NoteEventMsg::WIRE_SIZE];
    msg.encode(&mut buf);

    let decoded = NoteEventMsg::decode(&buf);
    assert_eq!(decoded.source, [1; 16]);
    assert_eq!(decoded.target, [2; 16]);
    assert_eq!(decoded.event_type, NOTE_ON);
    assert_eq!(decoded.note, 60);
    assert_eq!(decoded.velocity, 100);
}

#[test]
fn instrument_id_layout() {
    let id = instrument_id_from(0x0403_0201, 0x0C0B_0A09_0807_0605, 0x100F_0E0D);
    assert_eq!(id, [1, 2, 3, 4, 5, 6, 7, 8, 9, 10, 11, 12, 13, 14, 15, 16]);
    assert_ne!(instrument_id_from(7, 99, 0), instrument_id_from(7, 99, 1));
}
