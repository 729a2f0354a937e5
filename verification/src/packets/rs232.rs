//! Packet buffers for the JVS link.
//!
//! Frame layout (unescaped): sync slot, destination, size byte, then the
//! size-counted bytes — payload (with a leading status byte on responses)
//! followed by the checksum slot. The size byte counts everything after
//! itself, checksum included, so a whole frame is `size + 3` bytes long.

use vstd::prelude::*;
use vstd::assert_seqs_equal;

use crate::codec::ByteReader;
use crate::codec::ByteWriter;
use crate::codec::DecodeStep;
use crate::codec::LinkError;
use crate::codec::SYNC;
use crate::codec::checksum_spec;
use crate::codec::decode_spec;
use crate::codec::frame_bytes;
use crate::codec::lemma_raw_read_of_encoding;
use crate::codec::lemma_round_trip;
use crate::codec::overwrite;
use crate::codec::raw_frame_spec;
use crate::codec::read_raw_packet;
use crate::codec::write_packet_bytes;
use crate::packets::BUF_CAP;
use crate::packets::copy_range;
use crate::packets::fresh_buffer;

verus! {

/// Number of escaped header bytes before the size byte (the destination).
pub const HEADER_PREFIX: usize = 1;

/// A request frame on the JVS link: payload starts right after the size
/// byte.
#[derive(Debug)]
pub struct RequestPacket {
    buffer: Vec<u8>,
}

impl View for RequestPacket {
    type V = Seq<u8>;

    closed spec fn view(&self) -> Seq<u8> {
        self.buffer@
    }
}

impl Default for RequestPacket {
    /// An empty request: sync marker set, size byte counting only the
    /// checksum slot.
    fn default() -> (r: Self)
        ensures
            r.wf(),
            r@[0] == SYNC,
            r@[2] == 1u8,
            forall|i: int| 0 <= i < BUF_CAP && i != 0 && i != 2 ==> r@[i] == 0u8,
    {
        let mut buffer = fresh_buffer();
        buffer.set(0, SYNC);
        buffer.set(2, 1u8);
        RequestPacket { buffer }
    }
}

impl RequestPacket {
    /// The buffer always keeps its full fixed capacity.
    pub open spec fn wf(&self) -> bool {
        self@.len() == BUF_CAP as int
    }

    /// Whole frame length, checksum slot included.
    pub open spec fn spec_len(&self) -> int {
        self@[2] + 3
    }

    pub fn new(dest: u8, data: &[u8]) -> (r: Self)
        requires
            data@.len() <= 250,
        ensures
            r.wf(),
            r@[0] == SYNC,
            r@[1] == dest,
            r@[2] == data@.len() + 1,
            r@.subrange(3, 3 + data@.len() as int) == data@,
            forall|i: int| 3 + data@.len() <= i < BUF_CAP ==> r@[i] == 0u8,
    {
        let mut packet = RequestPacket::default();
        packet.set_dest(dest);
        packet.set_data(data);
        packet
    }

    /// Reads one raw frame into a fresh packet.
    pub fn new_from_read(reader: &mut ByteReader) -> (r: Result<Self, LinkError>)
        requires
            old(reader).wf(),
        ensures
            final(reader).wf(),
            final(reader)@ == old(reader)@,
            match raw_frame_spec(old(reader)@, old(reader).cursor(), HEADER_PREFIX as nat + 1) {
                Some(p) => {
                    &&& r matches Ok(pk) && pk.wf() && pk@.take(p.0.len() as int) == p.0
                    &&& final(reader).cursor() == p.1
                },
                None => {
                    &&& r matches Err(e) && e == LinkError::Timeout
                    &&& final(reader).cursor() == old(reader)@.len()
                },
            },
    {
        let mut packet = RequestPacket::default();
        match packet.read(reader) {
            Ok(_) => {
                proof {
                    if raw_frame_spec(old(reader)@, old(reader).cursor(), 2nat) is Some {
                        let p = raw_frame_spec(
                            old(reader)@,
                            old(reader).cursor(),
                            2nat,
                        )->Some_0;
                        assert_seqs_equal!(packet@.take(p.0.len() as int) == p.0);
                    }
                }
                Ok(packet)
            },
            Err(e) => Err(e),
        }
    }

    /// A packet whose buffer starts with the given raw (already unescaped)
    /// frame bytes.
    pub fn from_raw_packet(raw_packet: &[u8]) -> (r: Self)
        requires
            raw_packet@.len() <= BUF_CAP,
        ensures
            r.wf(),
            r@.take(raw_packet@.len() as int) == raw_packet@,
            forall|i: int| raw_packet@.len() <= i < BUF_CAP ==> r@[i] == 0u8,
    {
        let mut buffer = fresh_buffer();
        crate::codec::copy_into(&mut buffer, 0, raw_packet);
        proof {
            assert_seqs_equal!(buffer@.take(raw_packet@.len() as int) == raw_packet@);
        }
        RequestPacket { buffer }
    }

    /// A packet rebuilt from a validated decode: the frame body as
    /// [`crate::codec::decode_frame`] returns it, with the sync slot and
    /// the recomputed checksum restored around it.
    pub fn from_decoded(body: &[u8]) -> (r: Self)
        requires
            body@.len() <= 258,
        ensures
            r.wf(),
            r@[0] == SYNC,
            r@.subrange(1, 1 + body@.len() as int) == body@,
            r@[1 + body@.len() as int] == checksum_spec(body@),
            forall|i: int| 2 + body@.len() <= i < BUF_CAP ==> r@[i] == 0u8,
    {
        let mut buffer = fresh_buffer();
        buffer.set(0, SYNC);
        crate::codec::copy_into(&mut buffer, 1, body);
        let sum = crate::codec::checksum_of(body);
        buffer.set(1 + body.len(), sum);
        proof {
            assert_seqs_equal!(buffer@.subrange(1, 1 + body@.len() as int) == body@);
        }
        RequestPacket { buffer }
    }

    /// Whole frame length, checksum slot included.
    pub fn len(&self) -> (r: usize)
        requires
            self.wf(),
        ensures
            r as int == self.spec_len(),
    {
        self.buffer[2] as usize + 3
    }

    pub fn dest(&self) -> (r: u8)
        requires
            self.wf(),
        ensures
            r == self@[1],
    {
        self.buffer[1]
    }

    pub fn set_dest(&mut self, dest: u8)
        requires
            old(self).wf(),
        ensures
            final(self).wf(),
            final(self)@ == old(self)@.update(1, dest),
    {
        self.buffer.set(1, dest);
    }

    /// The payload: everything between the size byte and the checksum slot.
    pub fn data(&self) -> (r: Vec<u8>)
        requires
            self.wf(),
            self@[2] >= 1,
        ensures
            r@ == self@.subrange(3, self.spec_len() - 1),
    {
        copy_range(&self.buffer, 3, self.buffer[2] as usize + 2)
    }

    /// Stores a payload and makes the size byte count it plus the checksum.
    pub fn set_data(&mut self, data: &[u8])
        requires
            old(self).wf(),
            data@.len() <= 250,
        ensures
            final(self).wf(),
            final(self)@ == overwrite(old(self)@, 3, data@).update(
                2,
                (data@.len() + 1) as u8,
            ),
    {
        crate::codec::copy_into(&mut self.buffer, 3, data);
        let size = data.len() + 1;
        self.buffer.set(2, size as u8);
    }

    /// The checksum slot (the last byte of the frame).
    pub fn checksum(&self) -> (r: u8)
        requires
            self.wf(),
        ensures
            r == self@[self.spec_len() - 1],
    {
        self.buffer[self.buffer[2] as usize + 2]
    }

    /// A copy of the whole frame, checksum slot included.
    pub fn get_slice(&self) -> (r: Vec<u8>)
        requires
            self.wf(),
        ensures
            r@ == self@.take(self.spec_len()),
    {
        copy_range(&self.buffer, 0, self.buffer[2] as usize + 3)
    }

    pub fn get_buf(&self) -> (r: &Vec<u8>)
        ensures
            r@ == self@,
    {
        &self.buffer
    }

    /// Reads one raw frame from the stream into this buffer (no checksum
    /// validation; see [`crate::codec::decode_frame`] for the validating
    /// path). Returns how many bytes of the buffer were filled.
    pub fn read(&mut self, reader: &mut ByteReader) -> (r: Result<usize, LinkError>)
        requires
            old(self).wf(),
            old(reader).wf(),
        ensures
            final(self).wf(),
            final(reader).wf(),
            final(reader)@ == old(reader)@,
            match raw_frame_spec(old(reader)@, old(reader).cursor(), HEADER_PREFIX as nat + 1) {
                Some(p) => {
                    &&& r == Ok::<usize, LinkError>(p.0.len() as usize)
                    &&& p.0.len() <= 258
                    &&& final(self)@ == overwrite(old(self)@, 0, p.0)
                    &&& final(reader).cursor() == p.1
                },
                None => {
                    &&& r == Err::<usize, LinkError>(LinkError::Timeout)
                    &&& final(reader).cursor() == old(reader)@.len()
                },
            },
    {
        read_raw_packet(reader, &mut self.buffer, 2)
    }

    /// Writes the frame to the wire (sync, escaped bytes, escaped checksum)
    /// and records the computed checksum in the checksum slot.
    pub fn write(&mut self, writer: &mut ByteWriter) -> (r: u8)
        requires
            old(self).wf(),
        ensures
            final(self).wf(),
            ({
                let body = old(self)@.subrange(1, old(self).spec_len() - 1);
                &&& final(writer)@ == old(writer)@ + frame_bytes(body)
                &&& r == checksum_spec(body)
                &&& final(self)@ == old(self)@.update(old(self).spec_len() - 1, r)
            }),
    {
        let len = self.len();
        let sum = write_packet_bytes(writer, self.buffer.as_slice(), len);
        self.buffer.set(len - 1, sum);
        sum
    }
}

} // verus!

verus! {

/// A response frame on the JVS link: a status byte sits between the size
/// byte and the payload.
#[derive(Debug)]
pub struct ResponsePacket {
    buffer: Vec<u8>,
}

impl View for ResponsePacket {
    type V = Seq<u8>;

    closed spec fn view(&self) -> Seq<u8> {
        self.buffer@
    }
}

impl Default for ResponsePacket {
    /// An empty response: sync marker set, status byte 1 (normal), size
    /// counting status plus checksum.
    fn default() -> (r: Self)
        ensures
            r.wf(),
            r@[0] == SYNC,
            r@[2] == 2u8,
            r@[3] == 1u8,
            forall|i: int| 0 <= i < BUF_CAP && i != 0 && i != 2 && i != 3 ==> r@[i] == 0u8,
    {
        let mut buffer = fresh_buffer();
        buffer.set(0, SYNC);
        buffer.set(2, 2u8);
        buffer.set(3, 1u8);
        ResponsePacket { buffer }
    }
}

impl ResponsePacket {
    /// The buffer always keeps its full fixed capacity.
    pub open spec fn wf(&self) -> bool {
        self@.len() == BUF_CAP as int
    }

    /// Whole frame length, checksum slot included.
    pub open spec fn spec_len(&self) -> int {
        self@[2] + 3
    }

    pub fn new(dest: u8, data: &[u8]) -> (r: Self)
        requires
            data@.len() <= 250,
        ensures
            r.wf(),
            r@[0] == SYNC,
            r@[1] == dest,
            r@[2] == data@.len() + 2,
            r@[3] == 1u8,
            r@.subrange(4, 4 + data@.len() as int) == data@,
            forall|i: int| 4 + data@.len() <= i < BUF_CAP ==> r@[i] == 0u8,
    {
        let mut packet = ResponsePacket::default();
        packet.set_dest(dest);
        packet.set_data(data);
        packet
    }

    /// Reads one raw frame into a fresh packet.
    pub fn new_from_read(reader: &mut ByteReader) -> (r: Result<Self, LinkError>)
        requires
            old(reader).wf(),
        ensures
            final(reader).wf(),
            final(reader)@ == old(reader)@,
            match raw_frame_spec(old(reader)@, old(reader).cursor(), HEADER_PREFIX as nat + 1) {
                Some(p) => {
                    &&& r matches Ok(pk) && pk.wf() && pk@.take(p.0.len() as int) == p.0
                    &&& final(reader).cursor() == p.1
                },
                None => {
                    &&& r matches Err(e) && e == LinkError::Timeout
                    &&& final(reader).cursor() == old(reader)@.len()
                },
            },
    {
        let mut packet = ResponsePacket::default();
        match packet.read(reader) {
            Ok(_) => {
                proof {
                    if raw_frame_spec(old(reader)@, old(reader).cursor(), 2nat) is Some {
                        let p = raw_frame_spec(
                            old(reader)@,
                            old(reader).cursor(),
                            2nat,
                        )->Some_0;
                        assert_seqs_equal!(packet@.take(p.0.len() as int) == p.0);
                    }
                }
                Ok(packet)
            },
            Err(e) => Err(e),
        }
    }

    /// A packet whose buffer starts with the given raw (already unescaped)
    /// frame bytes.
    pub fn from_raw_packet(raw_packet: &[u8]) -> (r: Self)
        requires
            raw_packet@.len() <= BUF_CAP,
        ensures
            r.wf(),
            r@.take(raw_packet@.len() as int) == raw_packet@,
            forall|i: int| raw_packet@.len() <= i < BUF_CAP ==> r@[i] == 0u8,
    {
        let mut buffer = fresh_buffer();
        crate::codec::copy_into(&mut buffer, 0, raw_packet);
        proof {
            assert_seqs_equal!(buffer@.take(raw_packet@.len() as int) == raw_packet@);
        }
        ResponsePacket { buffer }
    }

    /// A packet rebuilt from a validated decode: the frame body as
    /// [`crate::codec::decode_frame`] returns it, with the sync slot and
    /// the recomputed checksum restored around it.
    pub fn from_decoded(body: &[u8]) -> (r: Self)
        requires
            body@.len() <= 258,
        ensures
            r.wf(),
            r@[0] == SYNC,
            r@.subrange(1, 1 + body@.len() as int) == body@,
            r@[1 + body@.len() as int] == checksum_spec(body@),
            forall|i: int| 2 + body@.len() <= i < BUF_CAP ==> r@[i] == 0u8,
    {
        let mut buffer = fresh_buffer();
        buffer.set(0, SYNC);
        crate::codec::copy_into(&mut buffer, 1, body);
        let sum = crate::codec::checksum_of(body);
        buffer.set(1 + body.len(), sum);
        proof {
            assert_seqs_equal!(buffer@.subrange(1, 1 + body@.len() as int) == body@);
        }
        ResponsePacket { buffer }
    }

    pub fn status(&self) -> (r: u8)
        requires
            self.wf(),
        ensures
            r == self@[3],
    {
        self.buffer[3]
    }

    pub fn set_status(&mut self, status: u8)
        requires
            old(self).wf(),
        ensures
            final(self).wf(),
            final(self)@ == old(self)@.update(3, status),
    {
        self.buffer.set(3, status);
    }

    /// Whole frame length, checksum slot included.
    pub fn len(&self) -> (r: usize)
        requires
            self.wf(),
        ensures
            r as int == self.spec_len(),
    {
        self.buffer[2] as usize + 3
    }

    pub fn dest(&self) -> (r: u8)
        requires
            self.wf(),
        ensures
            r == self@[1],
    {
        self.buffer[1]
    }

    pub fn set_dest(&mut self, dest: u8)
        requires
            old(self).wf(),
        ensures
            final(self).wf(),
            final(self)@ == old(self)@.update(1, dest),
    {
        self.buffer.set(1, dest);
    }

    /// The payload: everything between the status byte and the checksum
    /// slot.
    pub fn data(&self) -> (r: Vec<u8>)
        requires
            self.wf(),
            self@[2] >= 2,
        ensures
            r@ == self@.subrange(4, self.spec_len() - 1),
    {
        copy_range(&self.buffer, 4, self.buffer[2] as usize + 2)
    }

    /// Stores a payload and makes the size byte count it plus the status
    /// byte and the checksum.
    pub fn set_data(&mut self, data: &[u8])
        requires
            old(self).wf(),
            data@.len() <= 250,
        ensures
            final(self).wf(),
            final(self)@ == overwrite(old(self)@, 4, data@).update(
                2,
                (data@.len() + 2) as u8,
            ),
    {
        crate::codec::copy_into(&mut self.buffer, 4, data);
        let size = data.len() + 2;
        self.buffer.set(2, size as u8);
    }

    /// The checksum slot (the last byte of the frame).
    pub fn checksum(&self) -> (r: u8)
        requires
            self.wf(),
        ensures
            r == self@[self.spec_len() - 1],
    {
        self.buffer[self.buffer[2] as usize + 2]
    }

    /// A copy of the whole frame, checksum slot included.
    pub fn get_slice(&self) -> (r: Vec<u8>)
        requires
            self.wf(),
        ensures
            r@ == self@.take(self.spec_len()),
    {
        copy_range(&self.buffer, 0, self.buffer[2] as usize + 3)
    }

    pub fn get_buf(&self) -> (r: &Vec<u8>)
        ensures
            r@ == self@,
    {
        &self.buffer
    }

    /// Reads one raw frame from the stream into this buffer (no checksum
    /// validation). Returns how many bytes of the buffer were filled.
    pub fn read(&mut self, reader: &mut ByteReader) -> (r: Result<usize, LinkError>)
        requires
            old(self).wf(),
            old(reader).wf(),
        ensures
            final(self).wf(),
            final(reader).wf(),
            final(reader)@ == old(reader)@,
            match raw_frame_spec(old(reader)@, old(reader).cursor(), HEADER_PREFIX as nat + 1) {
                Some(p) => {
                    &&& r == Ok::<usize, LinkError>(p.0.len() as usize)
                    &&& p.0.len() <= 258
                    &&& final(self)@ == overwrite(old(self)@, 0, p.0)
                    &&& final(reader).cursor() == p.1
                },
                None => {
                    &&& r == Err::<usize, LinkError>(LinkError::Timeout)
                    &&& final(reader).cursor() == old(reader)@.len()
                },
            },
    {
        read_raw_packet(reader, &mut self.buffer, 2)
    }

    /// Writes the frame to the wire and records the computed checksum in
    /// the checksum slot.
    pub fn write(&mut self, writer: &mut ByteWriter) -> (r: u8)
        requires
            old(self).wf(),
        ensures
            final(self).wf(),
            ({
                let body = old(self)@.subrange(1, old(self).spec_len() - 1);
                &&& final(writer)@ == old(writer)@ + frame_bytes(body)
                &&& r == checksum_spec(body)
                &&& final(self)@ == old(self)@.update(old(self).spec_len() - 1, r)
            }),
    {
        let len = self.len();
        let sum = write_packet_bytes(writer, self.buffer.as_slice(), len);
        self.buffer.set(len - 1, sum);
        sum
    }
}

} // verus!

verus! {

/// Reads one raw frame (sync slot, destination, size byte, then the counted
/// bytes) into the front of `buf`, unescaping but not validating.
pub fn read_packet(reader: &mut ByteReader, buf: &mut Vec<u8>) -> (r: Result<usize, LinkError>)
    requires
        old(reader).wf(),
        old(buf)@.len() >= 258,
    ensures
        final(reader).wf(),
        final(reader)@ == old(reader)@,
        final(buf)@.len() == old(buf)@.len(),
        match raw_frame_spec(old(reader)@, old(reader).cursor(), HEADER_PREFIX as nat + 1) {
            Some(p) => {
                &&& r == Ok::<usize, LinkError>(p.0.len() as usize)
                &&& final(buf)@ == overwrite(old(buf)@, 0, p.0)
                &&& final(reader).cursor() == p.1
            },
            None => {
                &&& r == Err::<usize, LinkError>(LinkError::Timeout)
                &&& final(reader).cursor() == old(reader)@.len()
            },
        },
{
    read_raw_packet(reader, buf, 2)
}

/// Writes the frame held in `buf` to the wire: sync marker, every byte of
/// `buf[1..len-1]` escaped, then the escaped checksum. Returns the checksum.
pub fn write_packet(writer: &mut ByteWriter, buf: &[u8]) -> (r: u8)
    requires
        buf@.len() >= 2,
    ensures
        final(writer)@ == old(writer)@ + frame_bytes(buf@.subrange(1, buf@.len() - 1)),
        r == checksum_spec(buf@.subrange(1, buf@.len() - 1)),
{
    write_packet_bytes(writer, buf, buf.len())
}

/// Round trip on the JVS link: a frame body built from a destination and a
/// payload decodes back to exactly that destination and payload once
/// encoded, whatever they are.
pub proof fn lemma_jvs_round_trip(dest: u8, payload: Seq<u8>)
    requires
        payload.len() <= 250,
    ensures
        ({
            let body = seq![dest, (payload.len() + 1) as u8] + payload;
            &&& decode_spec(frame_bytes(body), HEADER_PREFIX as nat) == (DecodeStep::Frame {
                body,
                used: frame_bytes(body).len() as int,
            })
            &&& body[0] == dest
            &&& body.skip(2) == payload
        }),
{
    let body = seq![dest, (payload.len() + 1) as u8] + payload;
    assert(body[1] == (payload.len() + 1) as u8);
    assert(body.len() == 2 + payload.len());
    lemma_round_trip(body, 1);
    assert_seqs_equal!(body.skip(2) == payload);
}

} // verus!

verus! {

/// Full packet-level round trip on the JVS link: fed exactly the bytes
/// that `write` emits for a request with this destination and payload
/// (trailing stream bytes allowed), the raw packet reader recovers a frame
/// with the same destination, size byte and payload, and the transmitted
/// checksum behind it — `decode(encode(x)) == x` on the packet buffers
/// themselves, escaped bytes included.
pub proof fn lemma_packet_round_trip(dest: u8, payload: Seq<u8>, rest: Seq<u8>)
    requires
        payload.len() <= 250,
    ensures
        ({
            let body = seq![dest, (payload.len() + 1) as u8] + payload;
            let frame = seq![SYNC] + body + seq![checksum_spec(body)];
            &&& raw_frame_spec(frame_bytes(body) + rest, 0, HEADER_PREFIX as nat + 1)
                == Some::<(Seq<u8>, int)>((frame, frame_bytes(body).len() as int))
            &&& frame[1] == dest
            &&& frame[2] == payload.len() + 1
            &&& frame.subrange(3, 3 + payload.len() as int) == payload
        }),
{
    let body = seq![dest, (payload.len() + 1) as u8] + payload;
    let frame = seq![SYNC] + body + seq![checksum_spec(body)];
    assert(body[1] == (payload.len() + 1) as u8);
    assert(body.len() == 2 + payload.len());
    lemma_raw_read_of_encoding(body, rest, 1);
    assert_seqs_equal!(frame.subrange(3, 3 + payload.len() as int) == payload);
}

} // verus!
