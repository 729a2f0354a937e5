//! Card-reader link helpers: building sequence-stamped requests and
//! extracting the card identifier from a poll response.
//!
//! The pipeline around these is a plain loop: send a poll request, read the
//! response, and when a card is present (a poll payload of exactly 20
//! bytes) render its 8-byte identifier as 16 uppercase hexadecimal
//! characters for the card-ID sink and signal the insertion with a held
//! key press. Port I/O, pacing and the key press itself live in the
//! unverified shell.

use vstd::prelude::*;
use vstd::assert_seqs_equal;

use crate::codec::ByteWriter;
use crate::codec::frame_bytes;
use crate::codec::overwrite;
use crate::packets::rs232c::RequestPacket;
use crate::packets::rs232c::SEQ_MODULUS;
use crate::packets::rs232c::SequenceCounter;

verus! {

pub const RESET: u8 = 0x62;
pub const CMD_GETFIRMWARE: u8 = 0x30;
pub const CMD_GETHARDWARE: u8 = 0x32;
pub const CMD_RADIO_ON: u8 = 0x40;
pub const CMD_POLL: u8 = 0x42;

/// Length of the poll-response payload that announces a present card.
pub const CARD_PRESENT_PAYLOAD_LEN: usize = 20;

/// The codec state of one card-reader link: the outgoing sequence counter
/// that every request is stamped with.
pub struct CardReader {
    seq: SequenceCounter,
}

impl CardReader {
    pub closed spec fn wf(&self) -> bool {
        self.seq.wf()
    }

    /// The sequence number the next request will carry.
    pub closed spec fn seq_value(&self) -> u8 {
        self.seq.spec_value()
    }

    pub fn new() -> (r: Self)
        ensures
            r.wf(),
            r.seq_value() == 0u8,
    {
        CardReader { seq: SequenceCounter::new() }
    }

    /// Encodes one request frame: stamps the current sequence number,
    /// advances it modulo 32, and returns the escaped wire bytes.
    pub fn cmd_frame(&mut self, dest: u8, cmd: u8, data: &[u8]) -> (r: Vec<u8>)
        requires
            old(self).wf(),
            data@.len() <= 250,
        ensures
            final(self).wf(),
            final(self).seq_value() == (old(self).seq_value() + 1) % (SEQ_MODULUS as int),
            r@ == frame_bytes(
                seq![(data@.len() + 4) as u8, dest, old(self).seq_value(), cmd] + data@,
            ),
    {
        let stamp = self.seq.next();
        let mut packet = RequestPacket::new(dest, cmd, data);
        packet.seq_num(stamp);
        let ghost body = packet@.subrange(1, packet.spec_len() - 1);
        proof {
            assert_seqs_equal!(
                body == seq![(data@.len() + 4) as u8, dest, stamp, cmd] + data@
            );
        }
        let mut writer = ByteWriter::new();
        packet.write(&mut writer);
        proof {
            assert_seqs_equal!(writer@ == frame_bytes(body));
        }
        writer.into_vec()
    }
}

} // verus!

verus! {

/// The ASCII code of one uppercase hexadecimal digit.
pub open spec fn hex_digit(n: u8) -> u8 {
    if n < 10 {
        (48 + n) as u8
    } else {
        (55 + n) as u8
    }
}

/// The uppercase hexadecimal rendering of a byte sequence, two characters
/// per byte, most significant digit first.
pub open spec fn hex_bytes(s: Seq<u8>) -> Seq<u8>
    decreases s.len(),
{
    if s.len() == 0 {
        Seq::empty()
    } else {
        hex_bytes(s.drop_last()) + seq![
            hex_digit(s.last() / 16),
            hex_digit(s.last() % 16),
        ]
    }
}

/// Extracts the card identifier from a poll-response payload: a payload of
/// exactly 20 bytes carries a card, whose identifier is bytes 4 through 11
/// rendered as 16 uppercase hexadecimal characters. Any other length means
/// no card is present.
pub fn card_id_hex(data: &[u8]) -> (r: Option<Vec<u8>>)
    ensures
        data@.len() == CARD_PRESENT_PAYLOAD_LEN ==> (r matches Some(v) && v@ == hex_bytes(
            data@.subrange(4, 12),
        ) && v@.len() == 16),
        data@.len() != CARD_PRESENT_PAYLOAD_LEN ==> r is None,
{
    if data.len() != CARD_PRESENT_PAYLOAD_LEN {
        return None;
    }
    let mut out: Vec<u8> = Vec::new();
    proof {
        assert_seqs_equal!(data@.subrange(4, 4) == Seq::<u8>::empty());
    }
    let mut i: usize = 4;
    while i < 12
        invariant
            4 <= i <= 12,
            data@.len() == 20,
            out@ == hex_bytes(data@.subrange(4, i as int)),
            out@.len() == 2 * (i - 4),
        decreases 12 - i,
    {
        let b = data[i];
        let hi = b / 16;
        let lo = b % 16;
        out.push(if hi < 10 { 48 + hi } else { 55 + hi });
        out.push(if lo < 10 { 48 + lo } else { 55 + lo });
        proof {
            let cur = data@.subrange(4, i + 1);
            assert_seqs_equal!(cur.drop_last() == data@.subrange(4, i as int));
            assert(cur.last() == b);
            assert_seqs_equal!(out@ == hex_bytes(cur));
        }
        i = i + 1;
    }
    proof {
        assert_seqs_equal!(data@.subrange(4, 12) == data@.subrange(4, 12));
    }
    Some(out)
}

/// The device-specific rewrite applied when forwarding a card-presence
/// poll response: a fixed 8-byte suffix overwrites payload bytes 12
/// through 19, kept as its own step so it can be toggled and tested alone.
pub fn augment_presence_payload(payload: &mut Vec<u8>, suffix: &[u8])
    requires
        suffix@.len() == 8,
        old(payload)@.len() >= 20,
    ensures
        final(payload)@ == overwrite(old(payload)@, 12, suffix@),
        final(payload)@.len() == old(payload)@.len(),
{
    crate::codec::copy_into(payload, 12, suffix);
}

} // verus!

verus! {

/// One stage of the card-reader link's life, in the order the device
/// expects it: two resets, the two identification queries, the one-time
/// radio enable on entry to the ready state, then the steady poll cycle.
#[derive(Clone, Copy, Debug, PartialEq, Eq, Structural)]
pub enum ReaderPhase {
    FirstReset,
    SecondReset,
    FirmwareQuery,
    HardwareQuery,
    RadioOn,
    Polling,
}

/// The stage that follows once a stage's exchange has succeeded; the poll
/// cycle repeats forever.
pub open spec fn next_reader_phase(phase: ReaderPhase) -> ReaderPhase {
    match phase {
        ReaderPhase::FirstReset => ReaderPhase::SecondReset,
        ReaderPhase::SecondReset => ReaderPhase::FirmwareQuery,
        ReaderPhase::FirmwareQuery => ReaderPhase::HardwareQuery,
        ReaderPhase::HardwareQuery => ReaderPhase::RadioOn,
        ReaderPhase::RadioOn => ReaderPhase::Polling,
        ReaderPhase::Polling => ReaderPhase::Polling,
    }
}

/// The command byte a stage sends.
pub open spec fn phase_command(phase: ReaderPhase) -> u8 {
    match phase {
        ReaderPhase::FirstReset => RESET,
        ReaderPhase::SecondReset => RESET,
        ReaderPhase::FirmwareQuery => CMD_GETFIRMWARE,
        ReaderPhase::HardwareQuery => CMD_GETHARDWARE,
        ReaderPhase::RadioOn => CMD_RADIO_ON,
        ReaderPhase::Polling => CMD_POLL,
    }
}

/// The request payload a stage sends.
pub open spec fn phase_payload(phase: ReaderPhase) -> Seq<u8> {
    match phase {
        ReaderPhase::RadioOn => seq![0x01u8, 0x03u8],
        _ => seq![0x00u8],
    }
}

/// Decides one step of the card-reader pipeline: the command and payload
/// of the request this stage sends, and the stage that follows once the
/// exchange succeeds. The unverified shell performs the exchange, logs the
/// response, and feeds the returned stage back in; a startup failure is
/// fatal to this pipeline alone, while a poll timeout only skips a cycle.
pub fn init_step(phase: ReaderPhase) -> (r: (u8, Vec<u8>, ReaderPhase))
    ensures
        r.0 == phase_command(phase),
        r.1@ == phase_payload(phase),
        r.2 == next_reader_phase(phase),
{
    match phase {
        ReaderPhase::FirstReset => {
            let mut payload: Vec<u8> = Vec::new();
            payload.push(0x00);
            proof {
                assert_seqs_equal!(payload@ == phase_payload(phase));
            }
            (RESET, payload, ReaderPhase::SecondReset)
        },
        ReaderPhase::SecondReset => {
            let mut payload: Vec<u8> = Vec::new();
            payload.push(0x00);
            proof {
                assert_seqs_equal!(payload@ == phase_payload(phase));
            }
            (RESET, payload, ReaderPhase::FirmwareQuery)
        },
        ReaderPhase::FirmwareQuery => {
            let mut payload: Vec<u8> = Vec::new();
            payload.push(0x00);
            proof {
                assert_seqs_equal!(payload@ == phase_payload(phase));
            }
            (CMD_GETFIRMWARE, payload, ReaderPhase::HardwareQuery)
        },
        ReaderPhase::HardwareQuery => {
            let mut payload: Vec<u8> = Vec::new();
            payload.push(0x00);
            proof {
                assert_seqs_equal!(payload@ == phase_payload(phase));
            }
            (CMD_GETHARDWARE, payload, ReaderPhase::RadioOn)
        },
        ReaderPhase::RadioOn => {
            let mut payload: Vec<u8> = Vec::new();
            payload.push(0x01);
            payload.push(0x03);
            proof {
                assert_seqs_equal!(payload@ == phase_payload(phase));
            }
            (CMD_RADIO_ON, payload, ReaderPhase::Polling)
        },
        ReaderPhase::Polling => {
            let mut payload: Vec<u8> = Vec::new();
            payload.push(0x00);
            proof {
                assert_seqs_equal!(payload@ == phase_payload(phase));
            }
            (CMD_POLL, payload, ReaderPhase::Polling)
        },
    }
}

} // verus!
