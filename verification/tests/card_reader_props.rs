use finale_bridge::card_reader::augment_presence_payload;
use finale_bridge::card_reader::card_id_hex;
use finale_bridge::card_reader::CardReader;
use finale_bridge::card_reader::CMD_POLL;
use finale_bridge::card_reader::init_step;
use finale_bridge::card_reader::ReaderPhase;
use finale_bridge::packets::rs232c::SequenceCounter;

#[test]
fn poll_payload_renders_card_id() {
    let mut payload = vec![0u8; 20];
    payload[4..12].copy_from_slice(&[0x01, 0x02, 0x03, 0x04, 0x05, 0x06, 0x07, 0x08]);
    let id = card_id_hex(&payload).unwrap();
    assert_eq!(id, b"0102030405060708".to_vec());
}

#[test]
fn card_id_is_uppercase_hex() {
    let mut payload = vec![0u8; 20];
    payload[4..12].copy_from_slice(&[0xAB, 0xCD, 0xEF, 0x00, 0x9F, 0xFF, 0x10, 0x5A]);
    let id = card_id_hex(&payload).unwrap();
    assert_eq!(id, b"ABCDEF009FFF105A".to_vec());
}

#[test]
fn short_payload_means_no_card() {
    assert!(card_id_hex(&[0u8; 19]).is_none());
    assert!(card_id_hex(&[0u8; 21]).is_none());
    assert!(card_id_hex(&[]).is_none());
}

#[test]
fn sequence_number_wraps_at_32() {
    let mut counter = SequenceCounter::new();
    let mut seen = Vec::new();
    for _ in 0..33 {
        let v = counter.next();
        assert!(v < 32);
        seen.push(v);
    }
    assert_eq!(seen[0], 0);
    assert_eq!(seen[31], 31);
    assert_eq!(seen[32], 0);
}

#[test]
fn requests_are_sequence_stamped() {
    let mut reader = CardReader::new();
    let first = reader.cmd_frame(0x00, CMD_POLL, &[0x00]);
    assert_eq!(first, vec![0xE0, 0x05, 0x00, 0x00, 0x42, 0x00, 0x47]);
    let second = reader.cmd_frame(0x00, CMD_POLL, &[0x00]);
    assert_eq!(second, vec![0xE0, 0x05, 0x00, 0x01, 0x42, 0x00, 0x48]);
}

#[test]
fn presence_suffix_overwrites_fixed_range() {
    let mut payload: Vec<u8> = (0u8..20).collect();
    augment_presence_payload(&mut payload, &[9, 9, 9, 9, 8, 8, 8, 8]);
    assert_eq!(&payload[..12], &(0u8..12).collect::<Vec<u8>>()[..]);
    assert_eq!(&payload[12..], &[9, 9, 9, 9, 8, 8, 8, 8]);
}

#[test]
fn reader_startup_phases_run_in_order() {
    let mut phase = ReaderPhase::FirstReset;
    let mut seen = Vec::new();
    while phase != ReaderPhase::Polling {
        let (cmd, payload, next) = init_step(phase);
        seen.push((cmd, payload));
        phase = next;
    }
    assert_eq!(seen.len(), 5);
    assert_eq!(seen[0], (0x62, vec![0x00]));
    assert_eq!(seen[1], (0x62, vec![0x00]));
    assert_eq!(seen[2], (0x30, vec![0x00]));
    assert_eq!(seen[3], (0x32, vec![0x00]));
    assert_eq!(seen[4], (0x40, vec![0x01, 0x03]));
    let (cmd, payload, next) = init_step(phase);
    assert_eq!((cmd, payload), (0x42, vec![0x00]));
    assert!(matches!(next, ReaderPhase::Polling));
}
