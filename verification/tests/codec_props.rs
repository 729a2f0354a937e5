use finale_bridge::codec::decode_frame;
use finale_bridge::codec::checksum_of;
use finale_bridge::codec::ByteReader;
use finale_bridge::codec::ByteWriter;
use finale_bridge::codec::LinkError;
use finale_bridge::bit_read;
use finale_bridge::packets::rs232c::RequestPacket;

#[test]
fn escape_unescape_every_byte() {
    for b in 0..=255u8 {
        let mut w = ByteWriter::new();
        w.write_u8_escaped(b);
        let mut r = ByteReader::new(w.into_vec());
        assert_eq!(r.read_u8_escaped().unwrap(), b);
    }
}

#[test]
fn escape_wire_form_of_markers() {
    let mut w = ByteWriter::new();
    w.write_u8_escaped(0xE0);
    w.write_u8_escaped(0xD0);
    w.write_u8_escaped(0x42);
    assert_eq!(w.as_vec().as_slice(), &[0xD0, 0xDF, 0xD0, 0xCF, 0x42]);
}

#[test]
fn decode_round_trips_escaped_frame() {
    let mut packet = RequestPacket::new(0x00, 0x42, &[0xD0, 0xE0, 0x7F]);
    let mut w = ByteWriter::new();
    packet.write(&mut w);
    let wire = w.into_vec();
    assert_eq!(
        wire.as_slice(),
        &[0xE0, 0x07, 0x00, 0x00, 0x42, 0xD0, 0xCF, 0xD0, 0xDF, 0x7F, 0x78]
    );
    let mut r = ByteReader::new(wire);
    let body = decode_frame(&mut r, 0).unwrap();
    assert_eq!(body, vec![0x07, 0x00, 0x00, 0x42, 0xD0, 0xE0, 0x7F]);
}

#[test]
fn decode_rejects_corrupted_byte() {
    let mut packet = RequestPacket::new(0x00, 0x42, &[0xD0, 0xE0, 0x7F]);
    let mut w = ByteWriter::new();
    packet.write(&mut w);
    let mut wire = w.into_vec();
    assert_eq!(wire[9], 0x7F);
    wire[9] = 0x70;
    let mut r = ByteReader::new(wire);
    assert_eq!(decode_frame(&mut r, 0), Err(LinkError::Checksum));
}

#[test]
fn decode_resynchronizes_after_noise() {
    let mut packet = RequestPacket::new(0x00, 0x42, &[0x05]);
    let mut w = ByteWriter::new();
    packet.write(&mut w);
    let mut wire = vec![0x13, 0x37, 0xCA];
    wire.extend_from_slice(w.as_vec());
    let mut r = ByteReader::new(wire);
    let body = decode_frame(&mut r, 0).unwrap();
    assert_eq!(body, vec![0x05, 0x00, 0x00, 0x42, 0x05]);
}

#[test]
fn decode_times_out_on_truncated_input() {
    let mut r = ByteReader::new(vec![]);
    assert_eq!(decode_frame(&mut r, 0), Err(LinkError::Timeout));
    let mut r = ByteReader::new(vec![0xE0, 0x05, 0x00]);
    assert_eq!(decode_frame(&mut r, 0), Err(LinkError::Timeout));
    let mut r = ByteReader::new(vec![0x01, 0x02, 0x03]);
    assert_eq!(decode_frame(&mut r, 1), Err(LinkError::Timeout));
}

#[test]
fn checksum_wraps_modulo_256() {
    assert_eq!(checksum_of(&[0xFF, 0x02]), 0x01);
    assert_eq!(checksum_of(&[]), 0x00);
    assert_eq!(checksum_of(&[0x80, 0x80]), 0x00);
}

#[test]
fn bit_read_positions() {
    assert!(bit_read(&0x40, 6));
    assert!(!bit_read(&0x40, 5));
    assert!(bit_read(&0x80, 7));
    assert!(bit_read(&0x01, 0));
}

#[test]
fn decoded_body_rebuilds_the_packet() {
    let mut packet = RequestPacket::new(0x00, 0x42, &[0x05]);
    let mut w = ByteWriter::new();
    packet.write(&mut w);
    let wire = w.into_vec();
    let mut r = ByteReader::new(wire.clone());
    let body = decode_frame(&mut r, 0).unwrap();
    assert_eq!(r.position(), wire.len());
    let rebuilt = RequestPacket::from_decoded(&body);
    assert_eq!(rebuilt.get_slice(), packet.get_slice());
}

#[test]
fn decode_validates_jvs_frames() {
    // JVS layout: destination before the size byte, one header byte to
    // unescape before the count
    let wire = vec![0xE0, 0x00, 0x03, 0x01, 0x02, 0x06];
    let mut r = ByteReader::new(wire);
    let body = decode_frame(&mut r, 1).unwrap();
    assert_eq!(body, vec![0x00, 0x03, 0x01, 0x02]);

    // the same frame with one payload byte flipped
    let wire = vec![0xE0, 0x00, 0x03, 0x01, 0x03, 0x06];
    let mut r = ByteReader::new(wire);
    assert_eq!(decode_frame(&mut r, 1), Err(LinkError::Checksum));
}

#[test]
fn escaped_checksum_round_trips() {
    // payload chosen so the checksum collides with the sync marker and
    // must itself be escaped on the wire
    let mut packet = RequestPacket::new(0x00, 0x42, &[0x99]);
    let mut w = ByteWriter::new();
    packet.write(&mut w);
    let wire = w.into_vec();
    assert_eq!(wire, vec![0xE0, 0x05, 0x00, 0x00, 0x42, 0x99, 0xD0, 0xDF]);
    let mut r = ByteReader::new(wire);
    assert_eq!(decode_frame(&mut r, 0).unwrap(), vec![0x05, 0x00, 0x00, 0x42, 0x99]);
}
