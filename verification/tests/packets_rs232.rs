use finale_bridge::codec::decode_frame;
use finale_bridge::codec::ByteReader;
use finale_bridge::codec::ByteWriter;
use finale_bridge::packets::rs232::RequestPacket;
use finale_bridge::packets::rs232::ResponsePacket;

#[test]
fn rs232_req_packet_new() {
    let data: &[u8] = &[0x01, 0x02];
    let dest = 0xFF;
    let packet = RequestPacket::new(dest, data);
    assert_eq!(packet.dest(), dest);
    assert_eq!(packet.data().as_slice(), data);
    assert_eq!(
        &packet.get_buf()[..packet.len() - 1],
        &[0xE0, 0xFF, 0x03, 0x01, 0x02]
    );
}

#[test]
fn rs232_req_packet_new_from_read() {
    let d: &[u8] = &[0xE0, 0x00, 3, 0x01, 0x02, 0x06];

    let mut reader = ByteReader::new(d.to_vec());

    let packet = RequestPacket::new_from_read(&mut reader).unwrap();
    assert_eq!(packet.dest(), 0x00);
    assert_eq!(packet.data().as_slice(), &[0x01, 0x02]);
    assert_eq!(&packet.get_buf()[..packet.len()], &d[..d.len()]);
}

#[test]
fn rs232_req_packet_write() {
    let mut d = ByteWriter::new();

    let mut packet = RequestPacket::new(0xFF, &[0x01, 0x02]);
    packet.write(&mut d);

    assert_eq!(&packet.get_buf()[..packet.len()], d.as_vec().as_slice());
}

#[test]
fn rs232_res_packet_new() {
    let packet = ResponsePacket::new(0xFF, &[0x01, 0x02, 0x03]);

    assert_eq!(packet.dest(), 0xFF);
    assert_eq!(packet.data().as_slice(), &[0x01, 0x02, 0x03]);
    assert_eq!(
        packet.get_slice().as_slice(),
        &[0xE0, 0xFF, 0x05, 0x01, 0x01, 0x02, 0x03, 0x00]
    );
}

#[test]
fn rs232_res_packet_new_from_read() {
    let d: &[u8] = &[0xE0, 0xFF, 4, 0x01, 0x01, 0x02, 0x07];

    let mut reader = ByteReader::new(d.to_vec());

    let packet = ResponsePacket::new_from_read(&mut reader).unwrap();

    assert_eq!(packet.dest(), 0xFF);
    assert_eq!(packet.data().as_slice(), &[0x01, 0x02]);
    assert_eq!(packet.status(), 0x01);
    assert_eq!(packet.get_slice().as_slice(), &[0xE0, 0xFF, 4, 0x01, 0x01, 0x02, 0x07]);
}

#[test]
fn rs232_res_packet_write() {
    let mut d = ByteWriter::new();

    let mut packet = ResponsePacket::new(0xFF, &[0x01, 0x02]);
    packet.write(&mut d);

    assert_eq!(&packet.get_buf()[..packet.len()], d.as_vec().as_slice());
}

#[test]
fn rs232_from_decoded_restores_frame() {
    let wire = vec![0xE0, 0x00, 0x03, 0x01, 0x02, 0x06];
    let mut reader = ByteReader::new(wire.clone());
    let body = decode_frame(&mut reader, 1).unwrap();
    let packet = ResponsePacket::from_decoded(&body);
    assert_eq!(packet.get_slice(), wire);
}

#[test]
fn rs232_write_then_read_round_trips() {
    // payload carries both reserved markers, exercising the escaping
    let data: &[u8] = &[0xE0, 0xD0, 0x55];
    let mut packet = RequestPacket::new(0x03, data);
    let mut writer = ByteWriter::new();
    packet.write(&mut writer);
    let mut reader = ByteReader::new(writer.into_vec());
    let back = RequestPacket::new_from_read(&mut reader).unwrap();
    assert_eq!(back.dest(), 0x03);
    assert_eq!(back.data().as_slice(), data);
    assert_eq!(back.len(), data.len() + 4);
}
