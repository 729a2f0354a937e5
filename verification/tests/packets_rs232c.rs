use finale_bridge::codec::ByteReader;
use finale_bridge::codec::ByteWriter;
use finale_bridge::packets::rs232c::RequestPacket;
use finale_bridge::packets::rs232c::ResponsePacket;

#[test]
fn rs232c_req_packet_new() {
    let d: &[u8] = &[0xE0, 0x06, 0xFF, 0x00, 0x02, 0x01, 0x02];
    let data: &[u8] = &[0x01, 0x02];
    let dest = 0xFF;
    let cmd = 0x02;
    let packet = RequestPacket::new(dest, cmd, data);
    assert_eq!(packet.dest(), dest);
    assert_eq!(packet.data().as_slice(), data);
    assert_eq!(packet.cmd(), cmd);
    assert_eq!(&packet.get_buf()[..packet.len() - 1], d);
}

#[test]
fn rs232c_req_packet_new_from_read() {
    let d: &[u8] = &[0xE0, 0x05, 0x00, 0x00, 0x02, 0x00, 0x07];

    let mut reader = ByteReader::new(d.to_vec());

    let packet = RequestPacket::new_from_read(&mut reader).unwrap();
    assert_eq!(packet.dest(), 0x00);
    assert_eq!(packet.cmd(), 0x02);
    assert_eq!(packet.data().as_slice(), &[0x00]);
    assert_eq!(&packet.get_buf()[..packet.len()], &d[..d.len()]);
}

#[test]
fn rs232c_req_packet_write() {
    let mut d = ByteWriter::new();

    let mut packet = RequestPacket::new(0xFF, 0x02, &[0x01, 0x02]);
    packet.write(&mut d);
    assert_eq!(packet.get_slice().as_slice(), d.as_vec().as_slice());
}

#[test]
fn rs232c_res_packet_new() {
    let dest = 0xFF;
    let cmd = 0x02;
    let d: &[u8] = &[0xE0, 0x08, dest, 0x00, cmd, 0x00, 0x01, 0x02, 0x03, 0x16];
    let packet = ResponsePacket::new(0xFF, cmd, &[0x01, 0x02, 0x03]);

    assert_eq!(packet.dest(), 0xFF);
    assert_eq!(packet.data().as_slice(), &[0x01, 0x02, 0x03]);
    assert_eq!(&packet.get_buf()[..packet.len() - 1], &d[..d.len() - 1]);
}

#[test]
fn rs232c_res_packet_new_from_read() {
    let dest = 0xFF;
    let cmd = 0x02;
    let d: &[u8] = &[0xE0, 0x08, dest, 0x00, cmd, 0x01, 0x01, 0x02, 0x03, 0x16];

    let mut reader = ByteReader::new(d.to_vec());

    let packet = ResponsePacket::new_from_read(&mut reader).unwrap();

    assert_eq!(packet.dest(), 0xFF);
    assert_eq!(packet.data().as_slice(), &[0x01, 0x02, 0x03]);
    assert_eq!(packet.report(), 0x01);
    assert_eq!(packet.get_slice().as_slice(), d);
}

#[test]
fn rs232c_res_packet_write() {
    let mut d = ByteWriter::new();

    let mut packet = ResponsePacket::new(0xFF, 0x02, &[0x01, 0x02]);
    packet.write(&mut d);

    assert_eq!(packet.get_slice().as_slice(), d.as_vec().as_slice());
}
