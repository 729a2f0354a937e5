//! Packet buffers for the card-reader link.
//!
//! Frame layout (unescaped): sync slot, size byte, destination, sequence
//! number, command, then — on responses — a report byte, then the payload
//! and the checksum slot. The size byte counts everything after itself,
//! checksum included, so a whole frame is `size + 2` bytes long. Requests
//! carry a sequence number that wraps modulo 32.

use vstd::prelude::*;
use vstd::assert_seqs_equal;

use crate::codec::ByteReader;
use crate::codec::ByteWriter;
use crate::codec::DecodeStep;
use crate::codec::LinkError;
use crate::codec::SYNC;
use crate::codec::checksum_spec;
use crate::codec::decode_spec;
use crate::codec::frame_bytes;
use crate::codec::lemma_raw_read_of_encoding;
use crate::codec::lemma_round_trip;
use crate::codec::overwrite;
use crate::codec::raw_frame_spec;
use crate::codec::read_raw_packet;
use crate::codec::write_packet_bytes;
use crate::packets::BUF_CAP;
use crate::packets::copy_range;
use crate::packets::fresh_buffer;

verus! {

/// Number of escaped header bytes before the size byte (none: the size
/// byte comes right after the sync marker).
pub const HEADER_PREFIX: usize = 0;

/// How many sequence numbers exist before the counter wraps.
pub const SEQ_MODULUS: u8 = 32;

/// Outgoing sequence counter: each request is stamped with the current
/// value, which then advances modulo 32 — 31 wraps to 0, and the counter
/// never reaches 32.
pub struct SequenceCounter {
    value: u8,
}

impl SequenceCounter {
    pub closed spec fn spec_value(&self) -> u8 {
        self.value
    }

    pub open spec fn wf(&self) -> bool {
        self.spec_value() < SEQ_MODULUS
    }

    pub fn new() -> (r: Self)
        ensures
            r.spec_value() == 0u8,
            r.wf(),
    {
        SequenceCounter { value: 0 }
    }

    pub fn current(&self) -> (r: u8)
        ensures
            r == self.spec_value(),
    {
        self.value
    }

    /// Returns the value to stamp on the next request and advances the
    /// counter modulo 32.
    pub fn next(&mut self) -> (r: u8)
        requires
            old(self).wf(),
        ensures
            r == old(self).spec_value(),
            final(self).spec_value() == (old(self).spec_value() + 1) % (SEQ_MODULUS as int),
            final(self).wf(),
    {
        let v = self.value;
        self.value = if v >= 31 { 0 } else { v + 1 };
        v
    }
}

/// A request frame on the card-reader link.
#[derive(Debug)]
pub struct RequestPacket {
    buffer: Vec<u8>,
}

impl View for RequestPacket {
    type V = Seq<u8>;

    closed spec fn view(&self) -> Seq<u8> {
        self.buffer@
    }
}

impl Default for RequestPacket {
    /// An empty request: sync marker set, size byte spanning the header
    /// fields up to an empty payload.
    fn default() -> (r: Self)
        ensures
            r.wf(),
            r@[0] == SYNC,
            r@[1] == 6u8,
            forall|i: int| 0 <= i < BUF_CAP && i != 0 && i != 1 ==> r@[i] == 0u8,
    {
        let mut buffer = fresh_buffer();
        buffer.set(0, SYNC);
        buffer.set(1, 6u8);
        RequestPacket { buffer }
    }
}

impl RequestPacket {
    /// The buffer always keeps its full fixed capacity.
    pub open spec fn wf(&self) -> bool {
        self@.len() == BUF_CAP as int
    }

    /// Whole frame length, checksum slot included.
    pub open spec fn spec_len(&self) -> int {
        self@[1] + 2
    }

    pub fn new(dest: u8, cmd: u8, data: &[u8]) -> (r: Self)
        requires
            data@.len() <= 250,
        ensures
            r.wf(),
            r@[0] == SYNC,
            r@[1] == data@.len() + 4,
            r@[2] == dest,
            r@[3] == 0u8,
            r@[4] == cmd,
            r@.subrange(5, 5 + data@.len() as int) == data@,
            forall|i: int| 5 + data@.len() <= i < BUF_CAP ==> r@[i] == 0u8,
    {
        let mut packet = RequestPacket::default();
        packet.set_dest(dest);
        packet.set_cmd(cmd);
        packet.set_data(data);
        packet
    }

    /// Reads one raw frame into a fresh packet.
    pub fn new_from_read(reader: &mut ByteReader) -> (r: Result<Self, LinkError>)
        requires
            old(reader).wf(),
        ensures
            final(reader).wf(),
            final(reader)@ == old(reader)@,
            match raw_frame_spec(old(reader)@, old(reader).cursor(), HEADER_PREFIX as nat + 1) {
                Some(p) => {
                    &&& r matches Ok(pk) && pk.wf() && pk@.take(p.0.len() as int) == p.0
                    &&& final(reader).cursor() == p.1
                },
                None => {
                    &&& r matches Err(e) && e == LinkError::Timeout
                    &&& final(reader).cursor() == old(reader)@.len()
                },
            },
    {
        let mut packet = RequestPacket::default();
        match packet.read(reader) {
            Ok(_) => {
                proof {
                    if raw_frame_spec(old(reader)@, old(reader).cursor(), 1nat) is Some {
                        let p = raw_frame_spec(
                            old(reader)@,
                            old(reader).cursor(),
                            1nat,
                        )->Some_0;
                        assert_seqs_equal!(packet@.take(p.0.len() as int) == p.0);
                    }
                }
                Ok(packet)
            },
            Err(e) => Err(e),
        }
    }

    /// A packet whose buffer starts with the given raw (already unescaped)
    /// frame bytes.
    pub fn from_raw_packet(raw_packet: &[u8]) -> (r: Self)
        requires
            raw_packet@.len() <= BUF_CAP,
        ensures
            r.wf(),
            r@.take(raw_packet@.len() as int) == raw_packet@,
            forall|i: int| raw_packet@.len() <= i < BUF_CAP ==> r@[i] == 0u8,
    {
        let mut buffer = fresh_buffer();
        crate::codec::copy_into(&mut buffer, 0, raw_packet);
        proof {
            assert_seqs_equal!(buffer@.take(raw_packet@.len() as int) == raw_packet@);
        }
        RequestPacket { buffer }
    }

    /// A packet rebuilt from a validated decode: the frame body as
    /// [`crate::codec::decode_frame`] returns it, with the sync slot and
    /// the recomputed checksum restored around it.
    pub fn from_decoded(body: &[u8]) -> (r: Self)
        requires
            body@.len() <= 258,
        ensures
            r.wf(),
            r@[0] == SYNC,
            r@.subrange(1, 1 + body@.len() as int) == body@,
            r@[1 + body@.len() as int] == checksum_spec(body@),
            forall|i: int| 2 + body@.len() <= i < BUF_CAP ==> r@[i] == 0u8,
    {
        let mut buffer = fresh_buffer();
        buffer.set(0, SYNC);
        crate::codec::copy_into(&mut buffer, 1, body);
        let sum = crate::codec::checksum_of(body);
        buffer.set(1 + body.len(), sum);
        proof {
            assert_seqs_equal!(buffer@.subrange(1, 1 + body@.len() as int) == body@);
        }
        RequestPacket { buffer }
    }

    /// Whole frame length, checksum slot included.
    pub fn len(&self) -> (r: usize)
        requires
            self.wf(),
        ensures
            r as int == self.spec_len(),
    {
        self.buffer[1] as usize + 2
    }

    pub fn dest(&self) -> (r: u8)
        requires
            self.wf(),
        ensures
            r == self@[2],
    {
        self.buffer[2]
    }

    pub fn set_dest(&mut self, dest: u8)
        requires
            old(self).wf(),
        ensures
            final(self).wf(),
            final(self)@ == old(self)@.update(2, dest),
    {
        self.buffer.set(2, dest);
    }

    pub fn get_seq_num(&self) -> (r: u8)
        requires
            self.wf(),
        ensures
            r == self@[3],
    {
        self.buffer[3]
    }

    pub fn seq_num(&mut self, seq_num: u8)
        requires
            old(self).wf(),
        ensures
            final(self).wf(),
            final(self)@ == old(self)@.update(3, seq_num),
    {
        self.buffer.set(3, seq_num);
    }

    pub fn cmd(&self) -> (r: u8)
        requires
            self.wf(),
        ensures
            r == self@[4],
    {
        self.buffer[4]
    }

    pub fn set_cmd(&mut self, cmd: u8)
        requires
            old(self).wf(),
        ensures
            final(self).wf(),
            final(self)@ == old(self)@.update(4, cmd),
    {
        self.buffer.set(4, cmd);
    }

    /// The payload: everything between the command byte and the checksum
    /// slot.
    pub fn data(&self) -> (r: Vec<u8>)
        requires
            self.wf(),
            self@[1] >= 4,
        ensures
            r@ == self@.subrange(5, self.spec_len() - 1),
    {
        copy_range(&self.buffer, 5, self.buffer[1] as usize + 1)
    }

    /// Stores a payload and makes the size byte count the header fields,
    /// the payload and the checksum.
    pub fn set_data(&mut self, data: &[u8])
        requires
            old(self).wf(),
            data@.len() <= 250,
        ensures
            final(self).wf(),
            final(self)@ == overwrite(old(self)@, 5, data@).update(
                1,
                (data@.len() + 4) as u8,
            ),
    {
        crate::codec::copy_into(&mut self.buffer, 5, data);
        let size = data.len() + 4;
        self.buffer.set(1, size as u8);
    }

    /// The checksum slot (the last byte of the frame).
    pub fn checksum(&self) -> (r: u8)
        requires
            self.wf(),
        ensures
            r == self@[self.spec_len() - 1],
    {
        self.buffer[self.buffer[1] as usize + 1]
    }

    /// A copy of the whole frame, checksum slot included.
    pub fn get_slice(&self) -> (r: Vec<u8>)
        requires
            self.wf(),
        ensures
            r@ == self@.take(self.spec_len()),
    {
        copy_range(&self.buffer, 0, self.buffer[1] as usize + 2)
    }

    pub fn get_buf(&self) -> (r: &Vec<u8>)
        ensures
            r@ == self@,
    {
        &self.buffer
    }

    /// Reads one raw frame from the stream into this buffer (no checksum
    /// validation). Returns how many bytes of the buffer were filled.
    pub fn read(&mut self, reader: &mut ByteReader) -> (r: Result<usize, LinkError>)
        requires
            old(self).wf(),
            old(reader).wf(),
        ensures
            final(self).wf(),
            final(reader).wf(),
            final(reader)@ == old(reader)@,
            match raw_frame_spec(old(reader)@, old(reader).cursor(), HEADER_PREFIX as nat + 1) {
                Some(p) => {
                    &&& r == Ok::<usize, LinkError>(p.0.len() as usize)
                    &&& p.0.len() <= 257
                    &&& final(self)@ == overwrite(old(self)@, 0, p.0)
                    &&& final(reader).cursor() == p.1
                },
                None => {
                    &&& r == Err::<usize, LinkError>(LinkError::Timeout)
                    &&& final(reader).cursor() == old(reader)@.len()
                },
            },
    {
        read_raw_packet(reader, &mut self.buffer, 1)
    }

    /// Writes the frame to the wire and records the computed checksum in
    /// the checksum slot.
    pub fn write(&mut self, writer: &mut ByteWriter) -> (r: u8)
        requires
            old(self).wf(),
        ensures
            final(self).wf(),
            ({
                let body = old(self)@.subrange(1, old(self).spec_len() - 1);
                &&& final(writer)@ == old(writer)@ + frame_bytes(body)
                &&& r == checksum_spec(body)
                &&& final(self)@ == old(self)@.update(old(self).spec_len() - 1, r)
            }),
    {
        let len = self.len();
        let sum = write_packet_bytes(writer, self.buffer.as_slice(), len);
        self.buffer.set(len - 1, sum);
        sum
    }
}

} // verus!

verus! {

/// A response frame on the card-reader link: a report byte sits between
/// the command byte and the payload.
#[derive(Debug)]
pub struct ResponsePacket {
    buffer: Vec<u8>,
}

impl View for ResponsePacket {
    type V = Seq<u8>;

    closed spec fn view(&self) -> Seq<u8> {
        self.buffer@
    }
}

impl Default for ResponsePacket {
    /// An empty response: sync marker set, size byte spanning the header
    /// fields up to an empty payload.
    fn default() -> (r: Self)
        ensures
            r.wf(),
            r@[0] == SYNC,
            r@[1] == 6u8,
            forall|i: int| 0 <= i < BUF_CAP && i != 0 && i != 1 ==> r@[i] == 0u8,
    {
        let mut buffer = fresh_buffer();
        buffer.set(0, SYNC);
        buffer.set(1, 6u8);
        ResponsePacket { buffer }
    }
}

impl ResponsePacket {
    /// The buffer always keeps its full fixed capacity.
    pub open spec fn wf(&self) -> bool {
        self@.len() == BUF_CAP as int
    }

    /// Whole frame length, checksum slot included.
    pub open spec fn spec_len(&self) -> int {
        self@[1] + 2
    }

    pub fn new(dest: u8, cmd: u8, data: &[u8]) -> (r: Self)
        requires
            data@.len() <= 250,
        ensures
            r.wf(),
            r@[0] == SYNC,
            r@[1] == data@.len() + 5,
            r@[2] == dest,
            r@[3] == 0u8,
            r@[4] == cmd,
            r@[5] == 0u8,
            r@.subrange(6, 6 + data@.len() as int) == data@,
            forall|i: int| 6 + data@.len() <= i < BUF_CAP ==> r@[i] == 0u8,
    {
        let mut packet = ResponsePacket::default();
        packet.set_dest(dest);
        packet.set_cmd(cmd);
        packet.set_data(data);
        packet
    }

    /// Reads one raw frame into a fresh packet.
    pub fn new_from_read(reader: &mut ByteReader) -> (r: Result<Self, LinkError>)
        requires
            old(reader).wf(),
        ensures
            final(reader).wf(),
            final(reader)@ == old(reader)@,
            match raw_frame_spec(old(reader)@, old(reader).cursor(), HEADER_PREFIX as nat + 1) {
                Some(p) => {
                    &&& r matches Ok(pk) && pk.wf() && pk@.take(p.0.len() as int) == p.0
                    &&& final(reader).cursor() == p.1
                },
                None => {
                    &&& r matches Err(e) && e == LinkError::Timeout
                    &&& final(reader).cursor() == old(reader)@.len()
                },
            },
    {
        let mut packet = ResponsePacket::default();
        match packet.read(reader) {
            Ok(_) => {
                proof {
                    if raw_frame_spec(old(reader)@, old(reader).cursor(), 1nat) is Some {
                        let p = raw_frame_spec(
                            old(reader)@,
                            old(reader).cursor(),
                            1nat,
                        )->Some_0;
                        assert_seqs_equal!(packet@.take(p.0.len() as int) == p.0);
                    }
                }
                Ok(packet)
            },
            Err(e) => Err(e),
        }
    }

    /// A packet whose buffer starts with the given raw (already unescaped)
    /// frame bytes.
    pub fn from_raw_packet(raw_packet: &[u8]) -> (r: Self)
        requires
            raw_packet@.len() <= BUF_CAP,
        ensures
            r.wf(),
            r@.take(raw_packet@.len() as int) == raw_packet@,
            forall|i: int| raw_packet@.len() <= i < BUF_CAP ==> r@[i] == 0u8,
    {
        let mut buffer = fresh_buffer();
        crate::codec::copy_into(&mut buffer, 0, raw_packet);
        proof {
            assert_seqs_equal!(buffer@.take(raw_packet@.len() as int) == raw_packet@);
        }
        ResponsePacket { buffer }
    }

    /// A packet rebuilt from a validated decode: the frame body as
    /// [`crate::codec::decode_frame`] returns it, with the sync slot and
    /// the recomputed checksum restored around it.
    pub fn from_decoded(body: &[u8]) -> (r: Self)
        requires
            body@.len() <= 258,
        ensures
            r.wf(),
            r@[0] == SYNC,
            r@.subrange(1, 1 + body@.len() as int) == body@,
            r@[1 + body@.len() as int] == checksum_spec(body@),
            forall|i: int| 2 + body@.len() <= i < BUF_CAP ==> r@[i] == 0u8,
    {
        let mut buffer = fresh_buffer();
        buffer.set(0, SYNC);
        crate::codec::copy_into(&mut buffer, 1, body);
        let sum = crate::codec::checksum_of(body);
        buffer.set(1 + body.len(), sum);
        proof {
            assert_seqs_equal!(buffer@.subrange(1, 1 + body@.len() as int) == body@);
        }
        ResponsePacket { buffer }
    }

    pub fn report(&self) -> (r: u8)
        requires
            self.wf(),
        ensures
            r == self@[5],
    {
        self.buffer[5]
    }

    pub fn set_report(&mut self, report: u8)
        requires
            old(self).wf(),
        ensures
            final(self).wf(),
            final(self)@ == old(self)@.update(5, report),
    {
        self.buffer.set(5, report);
    }

    /// Whole frame length, checksum slot included.
    pub fn len(&self) -> (r: usize)
        requires
            self.wf(),
        ensures
            r as int == self.spec_len(),
    {
        self.buffer[1] as usize + 2
    }

    pub fn dest(&self) -> (r: u8)
        requires
            self.wf(),
        ensures
            r == self@[2],
    {
        self.buffer[2]
    }

    pub fn set_dest(&mut self, dest: u8)
        requires
            old(self).wf(),
        ensures
            final(self).wf(),
            final(self)@ == old(self)@.update(2, dest),
    {
        self.buffer.set(2, dest);
    }

    pub fn get_seq_num(&self) -> (r: u8)
        requires
            self.wf(),
        ensures
            r == self@[3],
    {
        self.buffer[3]
    }

    pub fn seq_num(&mut self, seq_num: u8)
        requires
            old(self).wf(),
        ensures
            final(self).wf(),
            final(self)@ == old(self)@.update(3, seq_num),
    {
        self.buffer.set(3, seq_num);
    }

    pub fn cmd(&self) -> (r: u8)
        requires
            self.wf(),
        ensures
            r == self@[4],
    {
        self.buffer[4]
    }

    pub fn set_cmd(&mut self, cmd: u8)
        requires
            old(self).wf(),
        ensures
            final(self).wf(),
            final(self)@ == old(self)@.update(4, cmd),
    {
        self.buffer.set(4, cmd);
    }

    /// The payload: everything between the report byte and the checksum
    /// slot.
    pub fn data(&self) -> (r: Vec<u8>)
        requires
            self.wf(),
            self@[1] >= 5,
        ensures
            r@ == self@.subrange(6, self.spec_len() - 1),
    {
        copy_range(&self.buffer, 6, self.buffer[1] as usize + 1)
    }

    /// Stores a payload and makes the size byte count the header fields,
    /// the report byte, the payload and the checksum.
    pub fn set_data(&mut self, data: &[u8])
        requires
            old(self).wf(),
            data@.len() <= 250,
        ensures
            final(self).wf(),
            final(self)@ == overwrite(old(self)@, 6, data@).update(
                1,
                (data@.len() + 5) as u8,
            ),
    {
        crate::codec::copy_into(&mut self.buffer, 6, data);
        let size = data.len() + 5;
        self.buffer.set(1, size as u8);
    }

    /// The checksum slot (the last byte of the frame).
    pub fn checksum(&self) -> (r: u8)
        requires
            self.wf(),
        ensures
            r == self@[self.spec_len() - 1],
    {
        self.buffer[self.buffer[1] as usize + 1]
    }

    /// A copy of the whole frame, checksum slot included.
    pub fn get_slice(&self) -> (r: Vec<u8>)
        requires
            self.wf(),
        ensures
            r@ == self@.take(self.spec_len()),
    {
        copy_range(&self.buffer, 0, self.buffer[1] as usize + 2)
    }

    pub fn get_buf(&self) -> (r: &Vec<u8>)
        ensures
            r@ == self@,
    {
        &self.buffer
    }

    /// Reads one raw frame from the stream into this buffer (no checksum
    /// validation). Returns how many bytes of the buffer were filled.
    pub fn read(&mut self, reader: &mut ByteReader) -> (r: Result<usize, LinkError>)
        requires
            old(self).wf(),
            old(reader).wf(),
        ensures
            final(self).wf(),
            final(reader).wf(),
            final(reader)@ == old(reader)@,
            match raw_frame_spec(old(reader)@, old(reader).cursor(), HEADER_PREFIX as nat + 1) {
                Some(p) => {
                    &&& r == Ok::<usize, LinkError>(p.0.len() as usize)
                    &&& p.0.len() <= 257
                    &&& final(self)@ == overwrite(old(self)@, 0, p.0)
                    &&& final(reader).cursor() == p.1
                },
                None => {
                    &&& r == Err::<usize, LinkError>(LinkError::Timeout)
                    &&& final(reader).cursor() == old(reader)@.len()
                },
            },
    {
        read_raw_packet(reader, &mut self.buffer, 1)
    }

    /// Writes the frame to the wire and records the computed checksum in
    /// the checksum slot.
    pub fn write(&mut self, writer: &mut ByteWriter) -> (r: u8)
        requires
            old(self).wf(),
        ensures
            final(self).wf(),
            ({
                let body = old(self)@.subrange(1, old(self).spec_len() - 1);
                &&& final(writer)@ == old(writer)@ + frame_bytes(body)
                &&& r == checksum_spec(body)
                &&& final(self)@ == old(self)@.update(old(self).spec_len() - 1, r)
            }),
    {
        let len = self.len();
        let sum = write_packet_bytes(writer, self.buffer.as_slice(), len);
        self.buffer.set(len - 1, sum);
        sum
    }
}

} // verus!

verus! {

/// Reads one raw frame (sync slot, size byte, then the counted bytes) into
/// the front of `buf`, unescaping but not validating.
pub fn read_packet(reader: &mut ByteReader, buf: &mut Vec<u8>) -> (r: Result<usize, LinkError>)
    requires
        old(reader).wf(),
        old(buf)@.len() >= 257,
    ensures
        final(reader).wf(),
        final(reader)@ == old(reader)@,
        final(buf)@.len() == old(buf)@.len(),
        match raw_frame_spec(old(reader)@, old(reader).cursor(), HEADER_PREFIX as nat + 1) {
            Some(p) => {
                &&& r == Ok::<usize, LinkError>(p.0.len() as usize)
                &&& p.0.len() <= 257
                &&& final(buf)@ == overwrite(old(buf)@, 0, p.0)
                &&& final(reader).cursor() == p.1
            },
            None => {
                &&& r == Err::<usize, LinkError>(LinkError::Timeout)
                &&& final(reader).cursor() == old(reader)@.len()
            },
        },
{
    read_raw_packet(reader, buf, 1)
}

/// Writes the frame held in `buf` to the wire: sync marker, every byte of
/// `buf[1..len-1]` escaped, then the escaped checksum. Returns the checksum.
pub fn write_packet(writer: &mut ByteWriter, data: &[u8]) -> (r: u8)
    requires
        data@.len() >= 2,
    ensures
        final(writer)@ == old(writer)@ + frame_bytes(data@.subrange(1, data@.len() - 1)),
        r == checksum_spec(data@.subrange(1, data@.len() - 1)),
{
    write_packet_bytes(writer, data, data.len())
}

/// Round trip on the card-reader link: a request body built from a
/// destination, sequence number, command and payload decodes back to
/// exactly those fields once encoded, whatever they are.
pub proof fn lemma_reader_round_trip(dest: u8, seq: u8, cmd: u8, payload: Seq<u8>)
    requires
        payload.len() <= 250,
    ensures
        ({
            let body = seq![(payload.len() + 4) as u8, dest, seq, cmd] + payload;
            &&& decode_spec(frame_bytes(body), HEADER_PREFIX as nat) == (DecodeStep::Frame {
                body,
                used: frame_bytes(body).len() as int,
            })
            &&& body[1] == dest
            &&& body[2] == seq
            &&& body[3] == cmd
            &&& body.skip(4) == payload
        }),
{
    let body = seq![(payload.len() + 4) as u8, dest, seq, cmd] + payload;
    assert(body[0] == (payload.len() + 4) as u8);
    assert(body.len() == 4 + payload.len());
    lemma_round_trip(body, 0);
    assert_seqs_equal!(body.skip(4) == payload);
}

} // verus!

verus! {

/// Full packet-level round trip on the card-reader link: fed exactly the
/// bytes that `write` emits for a request with this destination, sequence
/// number, command and payload (trailing stream bytes allowed), the raw
/// packet reader recovers a frame with the same fields and the transmitted
/// checksum behind it — `decode(encode(x)) == x` on the packet buffers
/// themselves, escaped bytes included.
pub proof fn lemma_reader_packet_round_trip(
    dest: u8,
    seq_num: u8,
    cmd: u8,
    payload: Seq<u8>,
    rest: Seq<u8>,
)
    requires
        payload.len() <= 250,
    ensures
        ({
            let body = seq![(payload.len() + 4) as u8, dest, seq_num, cmd] + payload;
            let frame = seq![SYNC] + body + seq![checksum_spec(body)];
            &&& raw_frame_spec(frame_bytes(body) + rest, 0, HEADER_PREFIX as nat + 1)
                == Some::<(Seq<u8>, int)>((frame, frame_bytes(body).len() as int))
            &&& frame[1] == payload.len() + 4
            &&& frame[2] == dest
            &&& frame[3] == seq_num
            &&& frame[4] == cmd
            &&& frame.subrange(5, 5 + payload.len() as int) == payload
        }),
{
    let body = seq![(payload.len() + 4) as u8, dest, seq_num, cmd] + payload;
    let frame = seq![SYNC] + body + seq![checksum_spec(body)];
    assert(body[0] == (payload.len() + 4) as u8);
    assert(body.len() == 4 + payload.len());
    lemma_raw_read_of_encoding(body, rest, 0);
    assert_seqs_equal!(frame.subrange(5, 5 + payload.len() as int) == payload);
}

} // verus!
