//! Touch-area transcoding between the two touchscreen generations.
//!
//! Reader-side reports carry 4 groups of 5 sensor bits per player. Each set
//! bit maps through a fixed table to up to three destination areas, given as
//! (byte index, bit mask) pairs inside a 9-byte write buffer delimited by
//! `(` and `)`; several destination areas may light up for one source press
//! because the two sensor layouts overlap physically. Emulator-side control
//! frames (reset, halt, stat, sensitivity, ratio) are 6 bytes and are
//! recognised by their fourth byte.

use vstd::prelude::*;
use vstd::assert_seqs_equal;

use crate::codec::bit_get;
use crate::codec::bit_read;
use crate::codec::lemma_bits;

verus! {

/// A control command sent by the emulator-side host to a touchscreen.
#[derive(Clone, Copy, Debug, PartialEq, Eq, Structural)]
pub enum AllsTouchMasterCommand {
    /// `{RSET}`: reset the touchscreen.
    Reset,
    /// `{HALT}`: stop sending touch data.
    Halt,
    /// `{STAT}`: start sending touch data.
    Stat,
    /// `{<side><area>k<threshold>}`: sensitivity adjustment.
    Sens(u8, u8, u8),
    /// `{<side><area>r<value>}`: ratio adjustment.
    Ratio(u8, u8, u8),
    Unknown,
}

/// What a 6-byte control frame means, decided by its fourth byte.
pub open spec fn from_buf_spec(s: Seq<u8>) -> AllsTouchMasterCommand {
    if s[3] == 69u8 {  // 'E'
        AllsTouchMasterCommand::Reset
    } else if s[3] == 76u8 {  // 'L'
        AllsTouchMasterCommand::Halt
    } else if s[3] == 65u8 {  // 'A'
        AllsTouchMasterCommand::Stat
    } else if s[3] == 107u8 {  // 'k'
        AllsTouchMasterCommand::Sens(s[1], s[2], s[4])
    } else if s[3] == 114u8 {  // 'r'
        AllsTouchMasterCommand::Ratio(s[1], s[2], s[4])
    } else {
        AllsTouchMasterCommand::Unknown
    }
}

impl AllsTouchMasterCommand {
    /// Decodes one emulator-side control frame.
    pub fn from_buf(buf: &[u8]) -> (r: AllsTouchMasterCommand)
        requires
            buf@.len() >= 5,
        ensures
            r == from_buf_spec(buf@),
    {
        match buf[3] {
            69u8 => AllsTouchMasterCommand::Reset,
            76u8 => AllsTouchMasterCommand::Halt,
            65u8 => AllsTouchMasterCommand::Stat,
            107u8 => AllsTouchMasterCommand::Sens(buf[1], buf[2], buf[4]),
            114u8 => AllsTouchMasterCommand::Ratio(buf[1], buf[2], buf[4]),
            _ => AllsTouchMasterCommand::Unknown,
        }
    }
}

/// A control command tagged with the player whose link it arrived on.
pub struct AllsMessageCmd {
    pub player_num: usize,
    pub cmd: AllsTouchMasterCommand,
}

} // verus!

verus! {

/// The destination areas lit by source group `i`, bit `pos`: up to three
/// (byte index, bit mask) pairs into the 9-byte write buffer. The last
/// group's fifth bit maps to only two real areas; its third pair is the
/// no-op `(0, 0)`.
pub open spec fn area_entry(i: int, pos: int) -> Option<
    ((usize, u8), (usize, u8), (usize, u8)),
> {
    if i == 0 {
        if pos == 0 {
            Some(((1, 1), (4, 8), (4, 16)))  // A1, D1, D2
        } else if pos == 1 {
            Some(((2, 8), (6, 2), (6, 4)))  // B1, E1, E2
        } else if pos == 2 {
            Some(((1, 2), (4, 16), (5, 1)))  // A2, D2, D3
        } else if pos == 3 {
            Some(((2, 16), (6, 4), (6, 8)))  // B2, E2, E3
        } else {
            None
        }
    } else if i == 1 {
        if pos == 0 {
            Some(((1, 4), (5, 1), (5, 2)))  // A3, D3, D4
        } else if pos == 1 {
            Some(((3, 1), (6, 8), (6, 16)))  // B3, E3, E4
        } else if pos == 2 {
            Some(((1, 8), (5, 2), (5, 4)))  // A4, D4, D5
        } else if pos == 3 {
            Some(((3, 2), (6, 16), (7, 1)))  // B4, E4, E5
        } else {
            None
        }
    } else if i == 2 {
        if pos == 0 {
            Some(((1, 16), (5, 4), (5, 8)))  // A5, D5, D6
        } else if pos == 1 {
            Some(((3, 4), (7, 1), (7, 2)))  // B5, E5, E6
        } else if pos == 2 {
            Some(((2, 1), (5, 8), (5, 16)))  // A6, D6, D7
        } else if pos == 3 {
            Some(((3, 8), (7, 2), (7, 4)))  // B6, E6, E7
        } else {
            None
        }
    } else if i == 3 {
        if pos == 0 {
            Some(((2, 2), (5, 16), (6, 1)))  // A7, D7, D8
        } else if pos == 1 {
            Some(((3, 16), (7, 4), (7, 8)))  // B7, E7, E8
        } else if pos == 2 {
            Some(((2, 4), (6, 1), (4, 8)))  // A8, D8, D1
        } else if pos == 3 {
            Some(((4, 1), (7, 8), (6, 2)))  // B8, E8, E1
        } else {
            Some(((4, 2), (4, 4), (0, 0)))  // C1, C2
        }
    } else {
        None
    }
}

/// Executable copy of [`area_entry`].
pub fn finale_area(i: usize, pos: usize) -> (r: Option<((usize, u8), (usize, u8), (usize, u8))>)
    requires
        i < 4,
        pos < 5,
    ensures
        r == area_entry(i as int, pos as int),
{
    if i == 0 {
        if pos == 0 {
            Some(((1, 1), (4, 8), (4, 16)))
        } else if pos == 1 {
            Some(((2, 8), (6, 2), (6, 4)))
        } else if pos == 2 {
            Some(((1, 2), (4, 16), (5, 1)))
        } else if pos == 3 {
            Some(((2, 16), (6, 4), (6, 8)))
        } else {
            None
        }
    } else if i == 1 {
        if pos == 0 {
            Some(((1, 4), (5, 1), (5, 2)))
        } else if pos == 1 {
            Some(((3, 1), (6, 8), (6, 16)))
        } else if pos == 2 {
            Some(((1, 8), (5, 2), (5, 4)))
        } else if pos == 3 {
            Some(((3, 2), (6, 16), (7, 1)))
        } else {
            None
        }
    } else if i == 2 {
        if pos == 0 {
            Some(((1, 16), (5, 4), (5, 8)))
        } else if pos == 1 {
            Some(((3, 4), (7, 1), (7, 2)))
        } else if pos == 2 {
            Some(((2, 1), (5, 8), (5, 16)))
        } else if pos == 3 {
            Some(((3, 8), (7, 2), (7, 4)))
        } else {
            None
        }
    } else {
        if pos == 0 {
            Some(((2, 2), (5, 16), (6, 1)))
        } else if pos == 1 {
            Some(((3, 16), (7, 4), (7, 8)))
        } else if pos == 2 {
            Some(((2, 4), (6, 1), (4, 8)))
        } else if pos == 3 {
            Some(((4, 1), (7, 8), (6, 2)))
        } else {
            Some(((4, 2), (4, 4), (0, 0)))
        }
    }
}

/// Every table entry points inside the 9-byte write buffer.
pub proof fn lemma_area_entry_bounds(i: int, pos: int)
    requires
        0 <= i < 4,
        0 <= pos < 5,
    ensures
        area_entry(i, pos) matches Some(e) ==> e.0.0 < 9 && e.1.0 < 9 && e.2.0 < 9,
{
}

/// The unpressed destination write buffer: frame delimiters around zeroes.
pub open spec fn default_write_buffer() -> Seq<u8> {
    seq![40u8, 0u8, 0u8, 0u8, 0u8, 0u8, 0u8, 0u8, 41u8]
}

/// OR one mask into one buffer byte.
pub open spec fn or_pair(buf: Seq<u8>, p: (usize, u8)) -> Seq<u8> {
    buf.update(p.0 as int, buf[p.0 as int] | p.1)
}

/// OR all three pairs of a table entry into the buffer.
pub open spec fn apply_entry(
    buf: Seq<u8>,
    e: ((usize, u8), (usize, u8), (usize, u8)),
) -> Seq<u8> {
    or_pair(or_pair(or_pair(buf, e.0), e.1), e.2)
}

/// Whether step `t` finds its source bit set.
pub open spec fn step_active(src: Seq<u8>, t: int) -> bool {
    bit_get(src[t / 5], (t % 5) as u8)
}

/// One remap step: step `t` handles source group `t / 5`, bit `t % 5`.
pub open spec fn remap_step(buf: Seq<u8>, src: Seq<u8>, t: int) -> Seq<u8> {
    if bit_get(src[t / 5], (t % 5) as u8) {
        match area_entry(t / 5, t % 5) {
            Some(e) => apply_entry(buf, e),
            None => buf,
        }
    } else {
        buf
    }
}

/// The write buffer after the first `t` remap steps.
pub open spec fn remap_upto(src: Seq<u8>, t: int) -> Seq<u8>
    decreases t,
{
    if t <= 0 {
        default_write_buffer()
    } else {
        remap_step(remap_upto(src, t - 1), src, t - 1)
    }
}

/// The full remap of a 4-byte source group report into the 9-byte
/// destination write buffer.
pub open spec fn remap_spec(src: Seq<u8>) -> Seq<u8> {
    remap_upto(src, 20)
}

/// The remap never changes the buffer's length.
pub proof fn lemma_remap_upto_len(src: Seq<u8>, t: int)
    ensures
        remap_upto(src, t).len() == 9,
    decreases t,
{
    if t > 0 {
        lemma_remap_upto_len(src, t - 1);
    }
}

/// Remaps one player's 4 source bytes into the destination write buffer,
/// OR-combining every destination area of every set source bit.
pub fn remap_report(src: &[u8]) -> (r: Vec<u8>)
    requires
        src@.len() == 4,
    ensures
        r@ == remap_spec(src@),
{
    let mut out: Vec<u8> = vec![40u8, 0u8, 0u8, 0u8, 0u8, 0u8, 0u8, 0u8, 41u8];
    proof {
        assert_seqs_equal!(out@ == default_write_buffer());
    }
    let mut i: usize = 0;
    while i < 4
        invariant
            i <= 4,
            src@.len() == 4,
            out@ == remap_upto(src@, i as int * 5),
        decreases 4 - i,
    {
        let mut pos: usize = 0;
        while pos < 5
            invariant
                i < 4,
                pos <= 5,
                src@.len() == 4,
                out@ == remap_upto(src@, i as int * 5 + pos as int),
            decreases 5 - pos,
        {
            let ghost t = i as int * 5 + pos as int;
            proof {
                assert(t / 5 == i as int && t % 5 == pos as int);
                lemma_remap_upto_len(src@, t);
            }
            if bit_read(&src[i], pos) {
                if let Some(e) = finale_area(i, pos) {
                    proof {
                        lemma_area_entry_bounds(i as int, pos as int);
                    }
                    let b0 = out[e.0.0] | e.0.1;
                    out.set(e.0.0, b0);
                    let b1 = out[e.1.0] | e.1.1;
                    out.set(e.1.0, b1);
                    let b2 = out[e.2.0] | e.2.1;
                    out.set(e.2.0, b2);
                    proof {
                        assert(out@ == remap_step(remap_upto(src@, t), src@, t));
                    }
                }
            }
            pos = pos + 1;
        }
        i = i + 1;
        proof {
            assert(i as int * 5 == (i - 1) as int * 5 + 5);
        }
    }
    proof {
        assert(out@ == remap_spec(src@));
    }
    out
}

} // verus!

verus! {

/// A report with exactly one source bit set: bit `pos` of group `i`.
pub open spec fn single_press(i: int, pos: int) -> Seq<u8> {
    Seq::new(4, |k: int| if k == i { 1u8 << pos as u8 } else { 0u8 })
}

/// Steps whose source bit is clear leave the buffer alone.
proof fn lemma_identity_range(src: Seq<u8>, a: int, b: int)
    requires
        0 <= a <= b,
        src.len() == 4,
        forall|t: int| a <= t < b ==> !(#[trigger] step_active(src, t)),
    ensures
        remap_upto(src, b) == remap_upto(src, a),
    decreases b - a,
{
    if b > a {
        lemma_identity_range(src, a, b - 1);
        assert(!step_active(src, b - 1));
    }
}

/// OR-ing a pair into the buffer never clears bits already set elsewhere.
proof fn lemma_or_pair_preserves(buf: Seq<u8>, p: (usize, u8), j: int, m: u8)
    requires
        0 <= j < buf.len(),
        p.0 < buf.len(),
        buf[j] & m == m,
    ensures
        or_pair(buf, p)[j] & m == m,
        or_pair(buf, p).len() == buf.len(),
{
    lemma_bits();
    if p.0 as int == j {
        assert((buf[j] | p.1) & m == m);
    }
}

/// Later remap steps never clear a mask that an earlier step set.
proof fn lemma_steps_preserve(src: Seq<u8>, a: int, b: int, j: int, m: u8)
    requires
        0 <= a <= b <= 20,
        src.len() == 4,
        0 <= j < 9,
        remap_upto(src, a)[j] & m == m,
    ensures
        remap_upto(src, b)[j] & m == m,
    decreases b - a,
{
    if b > a {
        lemma_steps_preserve(src, a, b - 1, j, m);
        lemma_remap_upto_len(src, b - 1);
        let t = b - 1;
        let buf = remap_upto(src, t);
        if bit_get(src[t / 5], (t % 5) as u8) && area_entry(t / 5, t % 5) is Some {
            let e = area_entry(t / 5, t % 5)->Some_0;
            lemma_area_entry_bounds(t / 5, t % 5);
            lemma_or_pair_preserves(buf, e.0, j, m);
            lemma_or_pair_preserves(or_pair(buf, e.0), e.1, j, m);
            lemma_or_pair_preserves(or_pair(or_pair(buf, e.0), e.1), e.2, j, m);
        }
    }
}

/// Overlap: a single pressed source area lights every destination area its
/// table entry lists — each (index, mask) pair of the entry has all its
/// mask bits set in the remapped buffer.
pub proof fn lemma_remap_overlap(i: int, pos: int)
    requires
        0 <= i < 4,
        0 <= pos < 5,
        area_entry(i, pos) is Some,
    ensures
        ({
            let e = area_entry(i, pos)->Some_0;
            let out = remap_spec(single_press(i, pos));
            &&& out[e.0.0 as int] & e.0.1 == e.0.1
            &&& out[e.1.0 as int] & e.1.1 == e.1.1
            &&& out[e.2.0 as int] & e.2.1 == e.2.1
        }),
{
    lemma_bits();
    let src = single_press(i, pos);
    let t0 = i * 5 + pos;
    assert(src.len() == 4);
    assert forall|t: int| 0 <= t < t0 implies !(#[trigger] step_active(src, t)) by {
        if t / 5 == i {
            assert(t % 5 != pos);
            assert(src[t / 5] == 1u8 << pos as u8);
        } else {
            assert(src[t / 5] == 0u8);
        }
    }
    lemma_identity_range(src, 0, t0);
    let e = area_entry(i, pos)->Some_0;
    assert(t0 / 5 == i && t0 % 5 == pos);
    assert(src[i] == 1u8 << pos as u8);
    assert(bit_get(src[t0 / 5], (t0 % 5) as u8));
    let buf0 = remap_upto(src, t0);
    lemma_remap_upto_len(src, t0);
    lemma_area_entry_bounds(i, pos);
    assert(remap_upto(src, t0 + 1) == apply_entry(buf0, e));
    let b1 = or_pair(buf0, e.0);
    let b2 = or_pair(b1, e.1);
    let b3 = or_pair(b2, e.2);
    assert(b1[e.0.0 as int] & e.0.1 == e.0.1);
    lemma_or_pair_preserves(b1, e.1, e.0.0 as int, e.0.1);
    lemma_or_pair_preserves(b2, e.2, e.0.0 as int, e.0.1);
    assert(b2[e.1.0 as int] & e.1.1 == e.1.1);
    lemma_or_pair_preserves(b2, e.2, e.1.0 as int, e.1.1);
    assert(b3[e.2.0 as int] == b2[e.2.0 as int] | e.2.1);
    assert((b2[e.2.0 as int] | e.2.1) & e.2.1 == e.2.1);
    assert(b3[e.2.0 as int] & e.2.1 == e.2.1);
    lemma_steps_preserve(src, t0 + 1, 20, e.0.0 as int, e.0.1);
    lemma_steps_preserve(src, t0 + 1, 20, e.1.0 as int, e.1.1);
    lemma_steps_preserve(src, t0 + 1, 20, e.2.0 as int, e.2.1);
}

} // verus!

verus! {

/// What the emulator-side pipeline does with one 6-byte control frame.
pub enum DeluxeAction {
    /// Reset or halt: stop forwarding this player's touch reports.
    Deactivate,
    /// Stat: resume forwarding.
    Activate,
    /// Sensitivity or ratio: forward these bytes to the reader side.
    Reply(Vec<u8>),
    /// Anything else; the caller treats it as a protocol violation.
    Unknown,
}

/// Decides what a 6-byte emulator-side control frame asks for, restoring
/// the frame delimiters on a forwarded adjustment command.
pub fn process_frame(buf: &[u8]) -> (r: DeluxeAction)
    requires
        buf@.len() == 6,
    ensures
        buf@[3] == 69 || buf@[3] == 76 ==> r is Deactivate,
        buf@[3] == 65 ==> r is Activate,
        buf@[3] == 107 || buf@[3] == 114 ==> (r matches DeluxeAction::Reply(v) && v@ == buf@
            .update(0, 40u8).update(5, 41u8)),
        buf@[3] != 69 && buf@[3] != 76 && buf@[3] != 65 && buf@[3] != 107 && buf@[3] != 114
            ==> r is Unknown,
{
    match buf[3] {
        69u8 | 76u8 => DeluxeAction::Deactivate,
        65u8 => DeluxeAction::Activate,
        107u8 | 114u8 => {
            let mut reply: Vec<u8> = Vec::new();
            reply.push(40u8);
            reply.push(buf[1]);
            reply.push(buf[2]);
            reply.push(buf[3]);
            reply.push(buf[4]);
            reply.push(41u8);
            proof {
                assert_seqs_equal!(reply@ == buf@.update(0, 40u8).update(5, 41u8));
            }
            DeluxeAction::Reply(reply)
        },
        _ => DeluxeAction::Unknown,
    }
}

/// Reader-side coordinator state: whether each player's emulator link wants
/// touch reports forwarded.
pub struct RingEdge2 {
    active_p1: bool,
    active_p2: bool,
}

impl RingEdge2 {
    /// Whether reports for the given player are being forwarded.
    pub closed spec fn active_spec(&self, player: int) -> bool {
        if player == 0 {
            self.active_p1
        } else {
            self.active_p2
        }
    }

    /// Both players start active, as the original links do after startup.
    pub fn new() -> (r: Self)
        ensures
            r.active_spec(0),
            r.active_spec(1),
    {
        RingEdge2 { active_p1: true, active_p2: true }
    }

    pub fn is_active(&self, player_num: usize) -> (r: bool)
        requires
            player_num < 2,
        ensures
            r == self.active_spec(player_num as int),
    {
        if player_num == 0 {
            self.active_p1
        } else {
            self.active_p2
        }
    }

    /// Applies one emulator-side control command: reset and halt disable the
    /// player's forwarding flag, stat enables it; sensitivity and ratio
    /// adjustments leave the flags alone and yield the 6-byte frame to send
    /// to that player's reader-side port; everything else is ignored.
    pub fn parse_command_from_alls(&mut self, msg: &AllsMessageCmd) -> (r: Option<Vec<u8>>)
        requires
            msg.player_num < 2,
        ensures
            ({
                let pn = msg.player_num as int;
                match msg.cmd {
                    AllsTouchMasterCommand::Reset => {
                        &&& !final(self).active_spec(pn)
                        &&& final(self).active_spec(1 - pn) == old(self).active_spec(1 - pn)
                        &&& r is None
                    },
                    AllsTouchMasterCommand::Halt => {
                        &&& !final(self).active_spec(pn)
                        &&& final(self).active_spec(1 - pn) == old(self).active_spec(1 - pn)
                        &&& r is None
                    },
                    AllsTouchMasterCommand::Stat => {
                        &&& final(self).active_spec(pn)
                        &&& final(self).active_spec(1 - pn) == old(self).active_spec(1 - pn)
                        &&& r is None
                    },
                    AllsTouchMasterCommand::Ratio(a, b, c) => {
                        &&& *final(self) == *old(self)
                        &&& r matches Some(v) && v@ == seq![40u8, a, b, 114u8, c, 41u8]
                    },
                    AllsTouchMasterCommand::Sens(a, b, c) => {
                        &&& *final(self) == *old(self)
                        &&& r matches Some(v) && v@ == seq![40u8, a, b, 107u8, c, 41u8]
                    },
                    _ => {
                        &&& *final(self) == *old(self)
                        &&& r is None
                    },
                }
            }),
    {
        match msg.cmd {
            AllsTouchMasterCommand::Reset | AllsTouchMasterCommand::Halt => {
                if msg.player_num == 0 {
                    self.active_p1 = false;
                } else {
                    self.active_p2 = false;
                }
                None
            },
            AllsTouchMasterCommand::Stat => {
                if msg.player_num == 0 {
                    self.active_p1 = true;
                } else {
                    self.active_p2 = true;
                }
                None
            },
            AllsTouchMasterCommand::Ratio(a, b, c) => {
                let mut v: Vec<u8> = Vec::new();
                v.push(40u8);
                v.push(a);
                v.push(b);
                v.push(114u8);
                v.push(c);
                v.push(41u8);
                proof {
                    assert_seqs_equal!(v@ == seq![40u8, a, b, 114u8, c, 41u8]);
                }
                Some(v)
            },
            AllsTouchMasterCommand::Sens(a, b, c) => {
                let mut v: Vec<u8> = Vec::new();
                v.push(40u8);
                v.push(a);
                v.push(b);
                v.push(107u8);
                v.push(c);
                v.push(41u8);
                proof {
                    assert_seqs_equal!(v@ == seq![40u8, a, b, 107u8, c, 41u8]);
                }
                Some(v)
            },
            _ => None,
        }
    }

    /// Routes one 14-byte reader-side report: each active player gets their
    /// four group bytes remapped into a destination write buffer; an
    /// inactive player's bytes are read but dropped, keeping the stream in
    /// sync.
    pub fn route_frame(&self, frame: &[u8]) -> (r: (Option<Vec<u8>>, Option<Vec<u8>>))
        requires
            frame@.len() == 14,
        ensures
            self.active_spec(0) ==> (r.0 matches Some(v) && v@ == remap_spec(
                frame@.subrange(1, 5),
            )),
            !self.active_spec(0) ==> r.0 is None,
            self.active_spec(1) ==> (r.1 matches Some(v) && v@ == remap_spec(
                frame@.subrange(7, 11),
            )),
            !self.active_spec(1) ==> r.1 is None,
    {
        let p1 = if self.active_p1 {
            let mut group: Vec<u8> = Vec::new();
            group.push(frame[1]);
            group.push(frame[2]);
            group.push(frame[3]);
            group.push(frame[4]);
            proof {
                assert_seqs_equal!(group@ == frame@.subrange(1, 5));
            }
            Some(remap_report(group.as_slice()))
        } else {
            None
        };
        let p2 = if self.active_p2 {
            let mut group: Vec<u8> = Vec::new();
            group.push(frame[7]);
            group.push(frame[8]);
            group.push(frame[9]);
            group.push(frame[10]);
            proof {
                assert_seqs_equal!(group@ == frame@.subrange(7, 11));
            }
            Some(remap_report(group.as_slice()))
        } else {
            None
        };
        (p1, p2)
    }
}

/// The `{HALT}` control frame, sent to silence a reader-side touchscreen.
pub fn halt_frame() -> (r: Vec<u8>)
    ensures
        r@ == seq![123u8, 72u8, 65u8, 76u8, 84u8, 125u8],
{
    let mut v: Vec<u8> = Vec::new();
    v.push(123u8);
    v.push(72u8);
    v.push(65u8);
    v.push(76u8);
    v.push(84u8);
    v.push(125u8);
    proof {
        assert_seqs_equal!(v@ == seq![123u8, 72u8, 65u8, 76u8, 84u8, 125u8]);
    }
    v
}

/// The `{STAT}` control frame, sent to start a reader-side touchscreen.
pub fn stat_frame() -> (r: Vec<u8>)
    ensures
        r@ == seq![123u8, 83u8, 84u8, 65u8, 84u8, 125u8],
{
    let mut v: Vec<u8> = Vec::new();
    v.push(123u8);
    v.push(83u8);
    v.push(84u8);
    v.push(65u8);
    v.push(84u8);
    v.push(125u8);
    proof {
        assert_seqs_equal!(v@ == seq![123u8, 83u8, 84u8, 65u8, 84u8, 125u8]);
    }
    v
}

} // verus!
