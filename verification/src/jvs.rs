//! JVS digital-input decoding.
//!
//! The JVS board answers a read-digital command with a byte array in which
//! fixed bit positions carry the cabinet's service and test switches
//! (active-high) and up to four groups of button-matrix bits (active-low).
//! Each matrix bit maps through a per-installation table to an abstract key
//! code, or to nothing. Decoding turns one report into an ordered list of
//! (key code, pressed) intents; applying the intents to the deduplicating
//! key sink yields the OS key events that must actually be sent.

use vstd::prelude::*;
use vstd::assert_seqs_equal;

use crate::codec::bit_get;
use crate::codec::bit_read;
use crate::config::Input;
use crate::keyboard::Keyboard;

verus! {

/// Broadcast address for bus reset and address assignment.
pub const BROADCAST: u8 = 0xFF;

pub const CMD_RESET: u8 = 0xF0;
pub const CMD_RESET_ARGUMENT: u8 = 0xD9;
pub const CMD_ASSIGN_ADDRESS: u8 = 0xF1;
pub const CMD_IDENTIFY: u8 = 0x10;
pub const CMD_COMMAND_REVISION: u8 = 0x11;
pub const CMD_JVS_VERSION: u8 = 0x12;
pub const CMD_COMMS_VERSION: u8 = 0x13;
pub const CMD_CAPABILITIES: u8 = 0x14;
pub const CMD_READ_DIGITAL: u8 = 0x20;

/// The button-matrix table: 4 report bytes of 8 bits each, every bit
/// optionally bound to a key code.
pub struct InputMapping {
    slots: Vec<Option<i32>>,
}

impl InputMapping {
    pub closed spec fn slots_spec(&self) -> Seq<Option<i32>> {
        self.slots@
    }

    pub open spec fn wf(&self) -> bool {
        self.slots_spec().len() == 32
    }

    /// The key bound to bit `pos` of report byte group `i`, if any.
    pub open spec fn key_at(&self, i: int, pos: int) -> Option<i32> {
        self.slots_spec()[i * 8 + pos]
    }

    pub fn get(&self, i: usize, pos: usize) -> (r: Option<i32>)
        requires
            self.wf(),
            i < 4,
            pos < 8,
        ensures
            r == self.key_at(i as int, pos as int),
    {
        self.slots[i * 8 + pos]
    }
}

/// Builds the button-matrix table from the configured key assignment. The
/// bound positions mirror the cabinet's wiring; unbound bits stay `None`.
pub fn map_input_settings(settings: &Input) -> (r: InputMapping)
    ensures
        r.wf(),
        r.key_at(0, 0) == Some(settings.p1_btn3),
        r.key_at(0, 1) == None::<i32>,
        r.key_at(0, 2) == Some(settings.p1_btn1),
        r.key_at(0, 3) == Some(settings.p1_btn2),
        r.key_at(0, 4) == None::<i32>,
        r.key_at(0, 5) == None::<i32>,
        r.key_at(0, 6) == None::<i32>,
        r.key_at(0, 7) == None::<i32>,
        r.key_at(1, 0) == None::<i32>,
        r.key_at(1, 1) == None::<i32>,
        r.key_at(1, 2) == None::<i32>,
        r.key_at(1, 3) == Some(settings.p1_btn8),
        r.key_at(1, 4) == Some(settings.p1_btn7),
        r.key_at(1, 5) == Some(settings.p1_btn6),
        r.key_at(1, 6) == Some(settings.p1_btn5),
        r.key_at(1, 7) == Some(settings.p1_btn4),
        r.key_at(2, 0) == Some(settings.p2_btn3),
        r.key_at(2, 1) == None::<i32>,
        r.key_at(2, 2) == Some(settings.p2_btn1),
        r.key_at(2, 3) == Some(settings.p2_btn2),
        r.key_at(2, 4) == None::<i32>,
        r.key_at(2, 5) == None::<i32>,
        r.key_at(2, 6) == None::<i32>,
        r.key_at(2, 7) == None::<i32>,
        r.key_at(3, 0) == None::<i32>,
        r.key_at(3, 1) == None::<i32>,
        r.key_at(3, 2) == None::<i32>,
        r.key_at(3, 3) == Some(settings.p2_btn8),
        r.key_at(3, 4) == Some(settings.p2_btn7),
        r.key_at(3, 5) == Some(settings.p2_btn6),
        r.key_at(3, 6) == Some(settings.p2_btn5),
        r.key_at(3, 7) == Some(settings.p2_btn4),
{
    let mut slots: Vec<Option<i32>> = Vec::new();
    slots.push(Some(settings.p1_btn3));
    slots.push(None);
    slots.push(Some(settings.p1_btn1));
    slots.push(Some(settings.p1_btn2));
    slots.push(None);
    slots.push(None);
    slots.push(None);
    slots.push(None);
    slots.push(None);
    slots.push(None);
    slots.push(None);
    slots.push(Some(settings.p1_btn8));
    slots.push(Some(settings.p1_btn7));
    slots.push(Some(settings.p1_btn6));
    slots.push(Some(settings.p1_btn5));
    slots.push(Some(settings.p1_btn4));
    slots.push(Some(settings.p2_btn3));
    slots.push(None);
    slots.push(Some(settings.p2_btn1));
    slots.push(Some(settings.p2_btn2));
    slots.push(None);
    slots.push(None);
    slots.push(None);
    slots.push(None);
    slots.push(None);
    slots.push(None);
    slots.push(None);
    slots.push(Some(settings.p2_btn8));
    slots.push(Some(settings.p2_btn7));
    slots.push(Some(settings.p2_btn6));
    slots.push(Some(settings.p2_btn5));
    slots.push(Some(settings.p2_btn4));
    InputMapping { slots }
}

} // verus!

verus! {

/// The button intents produced by the first `t` matrix bits of a report:
/// bit `t` reads byte `2 + t / 8`, bit position `t % 8`, and a matrix bit
/// is active-low — cleared means pressed.
pub open spec fn button_intents(map: InputMapping, d: Seq<u8>, t: int) -> Seq<(i32, bool)>
    decreases t,
{
    if t <= 0 {
        Seq::empty()
    } else {
        button_intents(map, d, t - 1) + match map.key_at((t - 1) / 8, (t - 1) % 8) {
            Some(key) => seq![(key, !bit_get(d[2 + (t - 1) / 8], ((t - 1) % 8) as u8))],
            None => Seq::empty(),
        }
    }
}

/// Every (key, pressed) intent of one digital report, in the order the
/// decoder issues them: the test switch (bit 6 of byte 2, active-high),
/// the service switch (bit 7 of byte 1, active-high), then the mapped
/// button-matrix bits.
pub open spec fn digital_intents(
    service_key: i32,
    test_key: i32,
    map: InputMapping,
    d: Seq<u8>,
) -> Seq<(i32, bool)> {
    seq![(test_key, bit_get(d[2], 6)), (service_key, bit_get(d[1], 7))] + button_intents(
        map,
        d,
        32,
    )
}

/// Decodes one digital report into its ordered key intents.
pub fn decode_digital(
    service_key: i32,
    test_key: i32,
    map: &InputMapping,
    data: &[u8],
) -> (r: Vec<(i32, bool)>)
    requires
        map.wf(),
        data@.len() >= 6,
    ensures
        r@ == digital_intents(service_key, test_key, *map, data@),
{
    let ghost prefix = seq![
        (test_key, bit_get(data@[2], 6)),
        (service_key, bit_get(data@[1], 7)),
    ];
    let mut out: Vec<(i32, bool)> = Vec::new();
    out.push((test_key, bit_read(&data[2], 6)));
    out.push((service_key, bit_read(&data[1], 7)));
    proof {
        assert_seqs_equal!(out@ == prefix + button_intents(*map, data@, 0));
    }
    let mut i: usize = 0;
    while i < 4
        invariant
            map.wf(),
            data@.len() >= 6,
            i <= 4,
            prefix == seq![
                (test_key, bit_get(data@[2], 6)),
                (service_key, bit_get(data@[1], 7)),
            ],
            out@ == prefix + button_intents(*map, data@, i as int * 8),
        decreases 4 - i,
    {
        let mut pos: usize = 0;
        while pos < 8
            invariant
                map.wf(),
                data@.len() >= 6,
                i < 4,
                pos <= 8,
                prefix == seq![
                    (test_key, bit_get(data@[2], 6)),
                    (service_key, bit_get(data@[1], 7)),
                ],
                out@ == prefix + button_intents(*map, data@, i as int * 8 + pos as int),
            decreases 8 - pos,
        {
            let ghost t = i as int * 8 + pos as int;
            proof {
                assert(t / 8 == i as int && t % 8 == pos as int);
            }
            match map.get(i, pos) {
                Some(key) => {
                    let pressed = !bit_read(&data[2 + i], pos);
                    out.push((key, pressed));
                    proof {
                        assert(button_intents(*map, data@, t + 1) == button_intents(
                            *map,
                            data@,
                            t,
                        ) + seq![(key, !bit_get(data@[2 + t / 8], (t % 8) as u8))]);
                        assert_seqs_equal!(
                            out@ == prefix + button_intents(*map, data@, t + 1)
                        );
                    }
                },
                None => {
                    proof {
                        assert(button_intents(*map, data@, t + 1) == button_intents(
                            *map,
                            data@,
                            t,
                        ) + Seq::<(i32, bool)>::empty());
                        assert_seqs_equal!(
                            out@ == prefix + button_intents(*map, data@, t + 1)
                        );
                    }
                },
            }
            pos = pos + 1;
        }
        i = i + 1;
        proof {
            assert(i as int * 8 == (i - 1) as int * 8 + 8);
        }
    }
    out
}

} // verus!

verus! {

/// The pressed state of key `k` after a list of intents is applied in
/// order on top of a starting state: the last intent for `k` wins.
pub open spec fn pressed_after(intents: Seq<(i32, bool)>, k: i32, before: bool) -> bool
    decreases intents.len(),
{
    if intents.len() == 0 {
        before
    } else if intents.last().0 == k {
        intents.last().1
    } else {
        pressed_after(intents.drop_last(), k, before)
    }
}

/// The OS key events that applying the intents to the sink `kb0` emits: an
/// intent reaches the OS exactly when it changes its key's state.
pub open spec fn emitted_events(intents: Seq<(i32, bool)>, kb0: Keyboard) -> Seq<(i32, bool)>
    decreases intents.len(),
{
    if intents.len() == 0 {
        Seq::empty()
    } else {
        let key = intents.last().0;
        let down = intents.last().1;
        let prior = pressed_after(intents.drop_last(), key, kb0.is_pressed_spec(key));
        emitted_events(intents.drop_last(), kb0) + (if down != prior {
            seq![intents.last()]
        } else {
            Seq::empty()
        })
    }
}

/// Applies a list of key intents to the sink in order and returns the OS
/// key events that must actually be sent, deduplicated against the sink's
/// state.
pub fn apply_key_states(kb: &mut Keyboard, intents: &Vec<(i32, bool)>) -> (events: Vec<
    (i32, bool),
>)
    requires
        old(kb).wf(),
    ensures
        final(kb).wf(),
        forall|k: i32|
            #[trigger] final(kb).is_pressed_spec(k) == pressed_after(
                intents@,
                k,
                old(kb).is_pressed_spec(k),
            ),
        events@ == emitted_events(intents@, *old(kb)),
{
    let mut events: Vec<(i32, bool)> = Vec::new();
    let mut t: usize = 0;
    while t < intents.len()
        invariant
            kb.wf(),
            t <= intents@.len(),
            forall|k: i32|
                #[trigger] kb.is_pressed_spec(k) == pressed_after(
                    intents@.take(t as int),
                    k,
                    old(kb).is_pressed_spec(k),
                ),
            events@ == emitted_events(intents@.take(t as int), *old(kb)),
        decreases intents@.len() - t,
    {
        let (key, down) = intents[t];
        let ghost pre = *kb;
        let emit = if down {
            kb.key_down(&key)
        } else {
            kb.key_up(&key)
        };
        if emit {
            events.push((key, down));
        }
        proof {
            let taken = intents@.take(t as int);
            let taken1 = intents@.take(t + 1);
            assert_seqs_equal!(taken1.drop_last() == taken);
            assert(taken1.last() == (key, down));
            assert forall|k: i32|
                #[trigger] kb.is_pressed_spec(k) == pressed_after(
                    taken1,
                    k,
                    old(kb).is_pressed_spec(k),
                ) by {
                if k == key {
                    assert(kb.is_pressed_spec(k) == down);
                } else {
                    assert(kb.is_pressed_spec(k) == pre.is_pressed_spec(k));
                }
            }
            let prior = pressed_after(taken, key, old(kb).is_pressed_spec(key));
            assert(prior == pre.is_pressed_spec(key));
            assert(emit == (down != prior));
            if emit {
                assert_seqs_equal!(
                    events@ == emitted_events(taken, *old(kb)) + seq![(key, down)]
                );
                assert(events@ == emitted_events(taken1, *old(kb)));
            } else {
                assert_seqs_equal!(
                    emitted_events(taken, *old(kb)) + Seq::<(i32, bool)>::empty()
                        == emitted_events(taken, *old(kb))
                );
                assert(events@ == emitted_events(taken1, *old(kb)));
            }
        }
        t = t + 1;
    }
    proof {
        assert_seqs_equal!(intents@.take(intents@.len() as int) == intents@);
    }
    events
}

/// Decodes one digital report and drives the key sink with it: the whole
/// steady-state body of the JVS poll loop, minus the port I/O.
pub fn read_digital(
    kb: &mut Keyboard,
    service_key: i32,
    test_key: i32,
    map: &InputMapping,
    data: &[u8],
) -> (events: Vec<(i32, bool)>)
    requires
        old(kb).wf(),
        map.wf(),
        data@.len() >= 6,
    ensures
        final(kb).wf(),
        forall|k: i32|
            #[trigger] final(kb).is_pressed_spec(k) == pressed_after(
                digital_intents(service_key, test_key, *map, data@),
                k,
                old(kb).is_pressed_spec(k),
            ),
        events@ == emitted_events(
            digital_intents(service_key, test_key, *map, data@),
            *old(kb),
        ),
{
    let intents = decode_digital(service_key, test_key, map, data);
    apply_key_states(kb, &intents)
}

} // verus!

verus! {

/// One stage of the JVS link's startup conversation, in the order the
/// board expects it: a broadcast reset, a broadcast address assignment,
/// the four identification queries, then the steady digital poll loop.
#[derive(Clone, Copy, Debug, PartialEq, Eq, Structural)]
pub enum JvsPhase {
    Reset,
    AddressAssignment,
    Identify,
    CommandRevision,
    JvsVersion,
    CommsVersion,
    Capabilities,
    DigitalPollLoop,
}

/// The stage that follows once a stage's exchange has succeeded; the poll
/// loop repeats forever.
pub open spec fn next_phase(phase: JvsPhase) -> JvsPhase {
    match phase {
        JvsPhase::Reset => JvsPhase::AddressAssignment,
        JvsPhase::AddressAssignment => JvsPhase::Identify,
        JvsPhase::Identify => JvsPhase::CommandRevision,
        JvsPhase::CommandRevision => JvsPhase::JvsVersion,
        JvsPhase::JvsVersion => JvsPhase::CommsVersion,
        JvsPhase::CommsVersion => JvsPhase::Capabilities,
        JvsPhase::Capabilities => JvsPhase::DigitalPollLoop,
        JvsPhase::DigitalPollLoop => JvsPhase::DigitalPollLoop,
    }
}

/// The request payload a stage sends to the board assigned address
/// `board`.
pub open spec fn phase_payload(phase: JvsPhase, board: u8) -> Seq<u8> {
    match phase {
        JvsPhase::Reset => seq![CMD_RESET, CMD_RESET_ARGUMENT],
        JvsPhase::AddressAssignment => seq![CMD_ASSIGN_ADDRESS, board],
        JvsPhase::Identify => seq![CMD_IDENTIFY],
        JvsPhase::CommandRevision => seq![CMD_COMMAND_REVISION],
        JvsPhase::JvsVersion => seq![CMD_JVS_VERSION],
        JvsPhase::CommsVersion => seq![CMD_COMMS_VERSION],
        JvsPhase::Capabilities => seq![CMD_CAPABILITIES],
        JvsPhase::DigitalPollLoop => seq![CMD_READ_DIGITAL, 0x02, 0x02],
    }
}

/// Whether a stage addresses the whole bus rather than the assigned board
/// (only the reset and the address assignment are broadcast).
pub open spec fn phase_is_broadcast(phase: JvsPhase) -> bool {
    phase is Reset || phase is AddressAssignment
}

/// Decides one step of the JVS pipeline: the destination and payload of
/// the request this stage sends, and the stage that follows once the
/// exchange succeeds. The unverified shell performs the exchange, logs
/// the response, and feeds the returned stage back in; a failure during
/// startup is fatal to this pipeline alone.
pub fn init_step(phase: JvsPhase, board: u8) -> (r: (u8, Vec<u8>, JvsPhase))
    ensures
        r.0 == (if phase_is_broadcast(phase) { BROADCAST } else { board }),
        r.1@ == phase_payload(phase, board),
        r.2 == next_phase(phase),
{
    match phase {
        JvsPhase::Reset => {
            let mut payload: Vec<u8> = Vec::new();
            payload.push(CMD_RESET);
            payload.push(CMD_RESET_ARGUMENT);
            proof {
                assert_seqs_equal!(payload@ == phase_payload(phase, board));
            }
            (BROADCAST, payload, JvsPhase::AddressAssignment)
        },
        JvsPhase::AddressAssignment => {
            let mut payload: Vec<u8> = Vec::new();
            payload.push(CMD_ASSIGN_ADDRESS);
            payload.push(board);
            proof {
                assert_seqs_equal!(payload@ == phase_payload(phase, board));
            }
            (BROADCAST, payload, JvsPhase::Identify)
        },
        JvsPhase::Identify => {
            let mut payload: Vec<u8> = Vec::new();
            payload.push(CMD_IDENTIFY);
            proof {
                assert_seqs_equal!(payload@ == phase_payload(phase, board));
            }
            (board, payload, JvsPhase::CommandRevision)
        },
        JvsPhase::CommandRevision => {
            let mut payload: Vec<u8> = Vec::new();
            payload.push(CMD_COMMAND_REVISION);
            proof {
                assert_seqs_equal!(payload@ == phase_payload(phase, board));
            }
            (board, payload, JvsPhase::JvsVersion)
        },
        JvsPhase::JvsVersion => {
            let mut payload: Vec<u8> = Vec::new();
            payload.push(CMD_JVS_VERSION);
            proof {
                assert_seqs_equal!(payload@ == phase_payload(phase, board));
            }
            (board, payload, JvsPhase::CommsVersion)
        },
        JvsPhase::CommsVersion => {
            let mut payload: Vec<u8> = Vec::new();
            payload.push(CMD_COMMS_VERSION);
            proof {
                assert_seqs_equal!(payload@ == phase_payload(phase, board));
            }
            (board, payload, JvsPhase::Capabilities)
        },
        JvsPhase::Capabilities => {
            let mut payload: Vec<u8> = Vec::new();
            payload.push(CMD_CAPABILITIES);
            proof {
                assert_seqs_equal!(payload@ == phase_payload(phase, board));
            }
            (board, payload, JvsPhase::DigitalPollLoop)
        },
        JvsPhase::DigitalPollLoop => {
            let mut payload: Vec<u8> = Vec::new();
            payload.push(CMD_READ_DIGITAL);
            payload.push(0x02);
            payload.push(0x02);
            proof {
                assert_seqs_equal!(payload@ == phase_payload(phase, board));
            }
            (board, payload, JvsPhase::DigitalPollLoop)
        },
    }
}

} // verus!
