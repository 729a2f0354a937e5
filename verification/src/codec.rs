//! Byte-stuffing codec shared by every serial link.
//!
//! Two byte values are reserved on the wire: `SYNC` announces the start of a
//! frame and `MARK` introduces an escape sequence. A reserved value inside a
//! frame is sent as `MARK` followed by the value decremented by one (wrapping);
//! the decoder reverses this by incrementing the byte that follows a `MARK`.
//! The checksum is the wrapping 8-bit sum of the unescaped frame bytes after
//! the sync marker, and is itself escaped before transmission.

use vstd::prelude::*;
use vstd::assert_seqs_equal;
use vstd::arithmetic::div_mod::lemma_add_mod_noop;
use vstd::arithmetic::div_mod::lemma_mod_add_multiples_vanish;
use vstd::arithmetic::div_mod::lemma_mod_bound;
use vstd::arithmetic::div_mod::lemma_mod_equivalence;
use vstd::arithmetic::div_mod::lemma_mod_sub_multiples_vanish;
use vstd::arithmetic::div_mod::lemma_small_mod;

verus! {

/// Non-fatal conditions a link read or decode can report.
#[derive(Clone, Copy, Debug, PartialEq, Eq, Structural)]
pub enum LinkError {
    /// No (or not enough) data arrived within the configured window.
    Timeout,
    /// A frame arrived but its checksum byte did not match its contents.
    Checksum,
    /// The port itself failed; reported by the unverified transport layer.
    Io,
}

/// Frame start marker.
pub const SYNC: u8 = 0xE0;
/// Escape introducer marker.
pub const MARK: u8 = 0xD0;

/// A byte collides with one of the two reserved wire markers.
pub open spec fn is_reserved(b: u8) -> bool {
    b == SYNC || b == MARK
}

/// Decrement with 8-bit wraparound, as the escaping rule demands even for 0.
pub open spec fn wrap_dec(b: u8) -> u8 {
    if b == 0 { 255 } else { (b - 1) as u8 }
}

/// Increment with 8-bit wraparound.
pub open spec fn wrap_inc(b: u8) -> u8 {
    if b == 255 { 0 } else { (b + 1) as u8 }
}

/// Wrapping 8-bit addition.
pub open spec fn wrap_add(a: u8, b: u8) -> u8 {
    if a + b > 255 { (a + b - 256) as u8 } else { (a + b) as u8 }
}

/// The raw bytes that one logical byte occupies on the wire.
pub open spec fn escape_spec(b: u8) -> Seq<u8> {
    if is_reserved(b) { seq![MARK, wrap_dec(b)] } else { seq![b] }
}

/// The logical byte encoded by one raw escape group.
pub open spec fn unescape_spec(s: Seq<u8>) -> u8 {
    if s[0] == MARK { wrap_inc(s[1]) } else { s[0] }
}

/// Unescaping inverts escaping, for every byte value including the two
/// reserved markers themselves.
pub proof fn lemma_unescape_escape(b: u8)
    ensures
        unescape_spec(escape_spec(b)) == b,
{
}

} // verus!

verus! {

/// Reads the bit at position `n` (counting from the least significant bit).
pub open spec fn bit_get(b: u8, n: u8) -> bool {
    b & (1u8 << n) != 0
}

/// Facts about single bits of `u8` values that the rest of the crate needs:
/// disjunction distributes over `|`, zero has no bits, a power of two has
/// exactly one, `|` can only add bits, and `| 0` changes nothing.
pub proof fn lemma_bits()
    by (bit_vector)
    ensures
        forall|a: u8, b: u8, n: u8|
            n < 8 ==> (#[trigger] bit_get(a | b, n) == (bit_get(a, n) || bit_get(b, n))),
        forall|n: u8| n < 8 ==> !(#[trigger] bit_get(0u8, n)),
        forall|m: u8, n: u8| m < 8 && n < 8 ==> (#[trigger] bit_get(1u8 << m, n) == (m == n)),
        forall|a: u8, b: u8, m: u8| a & m == m ==> #[trigger] ((a | b) & m) == m,
        forall|a: u8, m: u8| #[trigger] ((a | m) & m) == m,
        forall|a: u8| #[trigger] (a | 0u8) == a,
{
}

/// True when bit `n` of `input` is set.
pub fn bit_read(input: &u8, n: usize) -> (r: bool)
    requires
        n < 8,
    ensures
        r == bit_get(*input, n as u8),
{
    *input & (1u8 << (n as u8)) != 0
}

} // verus!

verus! {

/// The raw bytes that a sequence of logical bytes occupies on the wire.
pub open spec fn escaped_bytes(s: Seq<u8>) -> Seq<u8>
    decreases s.len(),
{
    if s.len() == 0 {
        Seq::empty()
    } else {
        escape_spec(s[0]) + escaped_bytes(s.drop_first())
    }
}

/// Wrapping 8-bit sum of a sequence of logical bytes.
pub open spec fn checksum_spec(s: Seq<u8>) -> u8
    decreases s.len(),
{
    if s.len() == 0 {
        0u8
    } else {
        wrap_add(checksum_spec(s.drop_last()), s.last())
    }
}

/// The complete wire form of a frame whose logical bytes after the sync
/// marker (checksum excluded) are `body`.
pub open spec fn frame_bytes(body: Seq<u8>) -> Seq<u8> {
    seq![SYNC] + escaped_bytes(body) + escape_spec(checksum_spec(body))
}

/// `base` with the bytes starting at `at` replaced by `with`.
pub open spec fn overwrite(base: Seq<u8>, at: int, with: Seq<u8>) -> Seq<u8> {
    base.take(at) + with + base.skip(at + with.len())
}

pub proof fn lemma_escaped_bytes_push(s: Seq<u8>, b: u8)
    ensures
        escaped_bytes(s.push(b)) == escaped_bytes(s) + escape_spec(b),
    decreases s.len(),
{
    if s.len() == 0 {
        reveal_with_fuel(escaped_bytes, 3);
        assert_seqs_equal!(s.push(b).drop_first() == Seq::<u8>::empty());
        assert(escaped_bytes(s.push(b)) == escape_spec(b) + escaped_bytes(
            s.push(b).drop_first(),
        ));
        assert_seqs_equal!(escaped_bytes(s.push(b)) == escaped_bytes(s) + escape_spec(b));
    } else {
        assert_seqs_equal!(s.push(b).drop_first() == s.drop_first().push(b));
        lemma_escaped_bytes_push(s.drop_first(), b);
        assert(s.push(b)[0] == s[0]);
        assert(escaped_bytes(s.push(b)) == escape_spec(s[0]) + (escaped_bytes(s.drop_first())
            + escape_spec(b)));
        assert_seqs_equal!(escaped_bytes(s.push(b)) == escaped_bytes(s) + escape_spec(b));
    }
}

/// Escaping distributes over concatenation.
pub proof fn lemma_escaped_bytes_concat(a: Seq<u8>, b: Seq<u8>)
    ensures
        escaped_bytes(a + b) == escaped_bytes(a) + escaped_bytes(b),
    decreases b.len(),
{
    if b.len() == 0 {
        assert_seqs_equal!(a + b == a);
        assert_seqs_equal!(escaped_bytes(a + b) == escaped_bytes(a) + escaped_bytes(b));
    } else {
        lemma_escaped_bytes_concat(a, b.drop_last());
        lemma_escaped_bytes_push(a + b.drop_last(), b.last());
        lemma_escaped_bytes_push(b.drop_last(), b.last());
        assert_seqs_equal!((a + b.drop_last()).push(b.last()) == a + b);
        assert_seqs_equal!(b.drop_last().push(b.last()) == b);
        assert_seqs_equal!(escaped_bytes(a + b) == escaped_bytes(a) + escaped_bytes(b));
    }
}

} // verus!

verus! {

/// Result of unescaping `n` logical bytes out of `s`, starting at raw index
/// `i`: the logical bytes and the raw index just past them, or `None` when
/// the input ends first.
pub open spec fn take_unescaped(s: Seq<u8>, i: int, n: nat) -> Option<(Seq<u8>, int)>
    decreases n,
{
    if n == 0 {
        Some((Seq::<u8>::empty(), i))
    } else if i < 0 || i >= s.len() {
        None
    } else if s[i] == MARK {
        if i + 1 >= s.len() {
            None
        } else {
            match take_unescaped(s, i + 2, (n - 1) as nat) {
                None => None,
                Some(p) => Some((seq![wrap_inc(s[i + 1])] + p.0, p.1)),
            }
        }
    } else {
        match take_unescaped(s, i + 1, (n - 1) as nat) {
            None => None,
            Some(p) => Some((seq![s[i]] + p.0, p.1)),
        }
    }
}

/// What one decode attempt over a byte stream yields: a checksummed frame
/// body together with the number of raw bytes consumed, a checksum failure
/// (the bad frame's raw bytes consumed, so scanning can resume after it),
/// or a stream that ended before a whole frame arrived.
pub enum DecodeStep {
    Frame { body: Seq<u8>, used: int },
    BadSum { used: int },
    Starved,
}

/// The same outcome with `k` more raw bytes counted as consumed.
pub open spec fn add_used(d: DecodeStep, k: int) -> DecodeStep {
    match d {
        DecodeStep::Frame { body, used } => DecodeStep::Frame { body, used: used + k },
        DecodeStep::BadSum { used } => DecodeStep::BadSum { used: used + k },
        DecodeStep::Starved => DecodeStep::Starved,
    }
}

/// Decoding after the sync marker has been consumed: `n_prefix` escaped
/// header bytes, then the size byte, then `size` more escaped bytes of which
/// the last is the checksum. `t` is the raw stream just past the sync byte.
/// A size byte of zero cannot carry its own checksum; such a frame is
/// rejected the same recoverable way as a checksum mismatch.
pub open spec fn parse_after_sync(t: Seq<u8>, n_prefix: nat) -> DecodeStep {
    match take_unescaped(t, 0, (n_prefix + 1) as nat) {
        None => DecodeStep::Starved,
        Some(head) => {
            let size = head.0.last();
            if size == 0 {
                DecodeStep::BadSum { used: head.1 }
            } else {
                match take_unescaped(t, head.1, size as nat) {
                    None => DecodeStep::Starved,
                    Some(tail) => {
                        let body = head.0 + tail.0.drop_last();
                        if checksum_spec(body) == tail.0.last() {
                            DecodeStep::Frame { body, used: tail.1 }
                        } else {
                            DecodeStep::BadSum { used: tail.1 }
                        }
                    },
                }
            }
        },
    }
}

/// Full decode of one frame from `s`: bytes before the first sync marker are
/// discarded (resynchronization after line noise), then the frame that
/// follows it is read and its checksum validated.
pub open spec fn decode_spec(s: Seq<u8>, n_prefix: nat) -> DecodeStep
    decreases s.len(),
{
    if s.len() == 0 {
        DecodeStep::Starved
    } else if s[0] != SYNC {
        add_used(decode_spec(s.drop_first(), n_prefix), 1)
    } else {
        add_used(parse_after_sync(s.drop_first(), n_prefix), 1)
    }
}

/// Raw (non-validating) packet read, as the reusable packet buffers do it:
/// one unchecked raw byte where the sync marker is expected, `k` escaped
/// header bytes of which the last is the size byte, then `size` more escaped
/// bytes stored verbatim, checksum included and not checked.
pub open spec fn raw_frame_spec(s: Seq<u8>, i: int, k: nat) -> Option<(Seq<u8>, int)> {
    if i < 0 || i >= s.len() {
        None
    } else {
        match take_unescaped(s, i + 1, k) {
            None => None,
            Some(head) => match take_unescaped(s, head.1, head.0.last() as nat) {
                None => None,
                Some(tail) => Some((seq![s[i]] + head.0 + tail.0, tail.1)),
            },
        }
    }
}

/// An in-memory byte source. The unverified transport layer fills one with
/// the bytes it pulled from a port; running out of bytes reports `Timeout`,
/// matching a bounded-wait read that saw no further data.
pub struct ByteReader {
    data: Vec<u8>,
    pos: usize,
}

impl View for ByteReader {
    type V = Seq<u8>;

    closed spec fn view(&self) -> Seq<u8> {
        self.data@
    }
}

impl ByteReader {
    /// Index of the next unread byte.
    pub closed spec fn cursor(&self) -> int {
        self.pos as int
    }

    /// The cursor never points past the end of the data.
    pub closed spec fn wf(&self) -> bool {
        self.pos <= self.data@.len()
    }

    pub fn new(data: Vec<u8>) -> (r: Self)
        ensures
            r@ == data@,
            r.cursor() == 0,
            r.wf(),
    {
        ByteReader { data, pos: 0 }
    }

    /// Index of the next unread byte, as a value the caller can use to
    /// drop consumed input.
    pub fn position(&self) -> (r: usize)
        ensures
            r as int == self.cursor(),
    {
        self.pos
    }

    /// Reads the next raw byte, or reports `Timeout` when none is left.
    pub fn read_u8(&mut self) -> (r: Result<u8, LinkError>)
        requires
            old(self).wf(),
        ensures
            final(self).wf(),
            final(self)@ == old(self)@,
            old(self).cursor() < old(self)@.len() ==> {
                &&& r == Ok::<u8, LinkError>(old(self)@[old(self).cursor()])
                &&& final(self).cursor() == old(self).cursor() + 1
            },
            old(self).cursor() >= old(self)@.len() ==> {
                &&& r == Err::<u8, LinkError>(LinkError::Timeout)
                &&& final(self).cursor() == old(self).cursor()
            },
    {
        if self.pos < self.data.len() {
            let b = self.data[self.pos];
            self.pos = self.pos + 1;
            Ok(b)
        } else {
            Err(LinkError::Timeout)
        }
    }

    /// Reads one logical byte, undoing the byte-stuffing: a `MARK` means the
    /// next byte plus one (wrapping) is the real value.
    pub fn read_u8_escaped(&mut self) -> (r: Result<u8, LinkError>)
        requires
            old(self).wf(),
        ensures
            final(self).wf(),
            final(self)@ == old(self)@,
            ({
                let s = old(self)@;
                let i = old(self).cursor();
                if i >= s.len() {
                    r == Err::<u8, LinkError>(LinkError::Timeout) && final(self).cursor() == i
                } else if s[i] == MARK {
                    if i + 1 >= s.len() {
                        r == Err::<u8, LinkError>(LinkError::Timeout) && final(self).cursor() == i
                            + 1
                    } else {
                        r == Ok::<u8, LinkError>(wrap_inc(s[i + 1])) && final(self).cursor() == i
                            + 2
                    }
                } else {
                    r == Ok::<u8, LinkError>(s[i]) && final(self).cursor() == i + 1
                }
            }),
    {
        let b = match self.read_u8() {
            Ok(b) => b,
            Err(e) => {
                return Err(e);
            },
        };
        if b == MARK {
            match self.read_u8() {
                Ok(c) => Ok(c.wrapping_add(1)),
                Err(e) => Err(e),
            }
        } else {
            Ok(b)
        }
    }
}

/// An in-memory byte sink; the unverified transport layer hands its contents
/// to a port in one write.
pub struct ByteWriter {
    out: Vec<u8>,
}

impl View for ByteWriter {
    type V = Seq<u8>;

    closed spec fn view(&self) -> Seq<u8> {
        self.out@
    }
}

impl ByteWriter {
    pub fn new() -> (r: Self)
        ensures
            r@ == Seq::<u8>::empty(),
    {
        ByteWriter { out: Vec::new() }
    }

    pub fn as_vec(&self) -> (r: &Vec<u8>)
        ensures
            r@ == self@,
    {
        &self.out
    }

    pub fn into_vec(self) -> (r: Vec<u8>)
        ensures
            r@ == self@,
    {
        self.out
    }

    /// Appends one raw byte unmodified.
    pub fn write_u8(&mut self, b: u8)
        ensures
            final(self)@ == old(self)@.push(b),
    {
        self.out.push(b);
    }

    /// Appends one logical byte in its wire form, stuffing it behind a `MARK`
    /// when it collides with a reserved marker.
    pub fn write_u8_escaped(&mut self, b: u8)
        ensures
            final(self)@ == old(self)@ + escape_spec(b),
    {
        if b == SYNC || b == MARK {
            self.out.push(MARK);
            self.out.push(b.wrapping_sub(1));
            proof {
                assert_seqs_equal!(self@ == old(self)@ + escape_spec(b));
            }
        } else {
            self.out.push(b);
            proof {
                assert_seqs_equal!(self@ == old(self)@ + escape_spec(b));
            }
        }
    }
}

} // verus!

verus! {

/// `s.take(j)` grows one element at a time.
pub proof fn lemma_take_push(s: Seq<u8>, j: int)
    requires
        0 <= j < s.len(),
    ensures
        s.take(j + 1) == s.take(j).push(s[j]),
{
    assert_seqs_equal!(s.take(j + 1) == s.take(j).push(s[j]));
}

/// Unescaping bounds: on success, exactly `n` logical bytes come out and the
/// raw cursor lands between its start and the end of the input.
pub proof fn lemma_take_unescaped_props(s: Seq<u8>, i: int, n: nat)
    requires
        i <= s.len(),
    ensures
        take_unescaped(s, i, n) matches Some(p) ==> p.0.len() == n && i <= p.1 <= s.len() && n
            <= p.1 - i,
    decreases n,
{
    if n == 0 {
    } else if i < 0 || i >= s.len() {
    } else if s[i] == MARK {
        if i + 1 < s.len() {
            lemma_take_unescaped_props(s, i + 2, (n - 1) as nat);
        }
    } else {
        lemma_take_unescaped_props(s, i + 1, (n - 1) as nat);
    }
}

/// Unescaping from a suffix of the stream mirrors unescaping from the whole
/// stream, with all raw indices shifted by the suffix's start.
pub proof fn lemma_take_unescaped_skip(s: Seq<u8>, d: int, i: int, n: nat)
    requires
        0 <= d <= s.len(),
        0 <= i,
    ensures
        match take_unescaped(s, d + i, n) {
            Some(p) => take_unescaped(s.skip(d), i, n) == Some((p.0, p.1 - d)),
            None => take_unescaped(s.skip(d), i, n) is None,
        },
    decreases n,
{
    let t = s.skip(d);
    if n == 0 {
    } else if d + i >= s.len() {
        assert(i >= t.len());
    } else {
        assert(t[i] == s[d + i]);
        if s[d + i] == MARK {
            if d + i + 1 < s.len() {
                assert(t[i + 1] == s[d + i + 1]);
                lemma_take_unescaped_skip(s, d, i + 2, (n - 1) as nat);
            } else {
                assert(i + 1 >= t.len());
            }
        } else {
            lemma_take_unescaped_skip(s, d, i + 1, (n - 1) as nat);
        }
    }
}

/// Wrapping sum of every byte in `v`.
pub fn checksum_of(v: &[u8]) -> (r: u8)
    ensures
        r == checksum_spec(v@),
{
    let mut sum: u8 = 0;
    let mut i: usize = 0;
    while i < v.len()
        invariant
            i <= v@.len(),
            sum == checksum_spec(v@.take(i as int)),
        decreases v@.len() - i,
    {
        sum = sum.wrapping_add(v[i]);
        proof {
            lemma_take_push(v@, i as int);
            assert_seqs_equal!(v@.take(i + 1).drop_last() == v@.take(i as int));
        }
        i = i + 1;
    }
    proof {
        assert_seqs_equal!(v@.take(v@.len() as int) == v@);
    }
    sum
}

/// Copies `src` over `buf[at..at + src.len()]`, leaving the rest untouched.
pub fn copy_into(buf: &mut Vec<u8>, at: usize, src: &[u8])
    requires
        at + src@.len() <= old(buf)@.len(),
    ensures
        final(buf)@ == overwrite(old(buf)@, at as int, src@),
        final(buf)@.len() == old(buf)@.len(),
{
    let mut k: usize = 0;
    while k < src.len()
        invariant
            at + src@.len() <= old(buf)@.len(),
            at + src@.len() <= buf.len(),
            k <= src@.len(),
            buf@.len() == old(buf)@.len(),
            buf@ == overwrite(old(buf)@, at as int, src@.take(k as int)),
        decreases src@.len() - k,
    {
        buf.set(at + k, src[k]);
        proof {
            lemma_take_push(src@, k as int);
            assert_seqs_equal!(
                overwrite(old(buf)@, at as int, src@.take(k as int)).update(
                    at + k, src@[k as int]
                ) == overwrite(old(buf)@, at as int, src@.take(k + 1))
            );
        }
        k = k + 1;
    }
    proof {
        assert_seqs_equal!(src@.take(src@.len() as int) == src@);
    }
}

/// Reads `n` logical bytes, unescaping as it goes; `Timeout` when the input
/// ends first, with the input then fully consumed.
pub fn read_escaped_vec(reader: &mut ByteReader, n: usize) -> (r: Result<Vec<u8>, LinkError>)
    requires
        old(reader).wf(),
    ensures
        final(reader).wf(),
        final(reader)@ == old(reader)@,
        ({
            let t = take_unescaped(old(reader)@, old(reader).cursor(), n as nat);
            match t {
                Some(p) => {
                    &&& r matches Ok(v) && v@ == p.0
                    &&& final(reader).cursor() == p.1
                },
                None => {
                    &&& r == Err::<Vec<u8>, LinkError>(LinkError::Timeout)
                    &&& final(reader).cursor() == old(reader)@.len()
                },
            }
        }),
{
    let ghost s = reader@;
    let ghost i0 = reader.cursor();
    let mut out: Vec<u8> = Vec::new();
    let mut c: usize = 0;
    while c < n
        invariant
            reader.wf(),
            reader@ == s,
            s == old(reader)@,
            i0 == old(reader).cursor(),
            c <= n,
            out@.len() == c as int,
            ({
                let t0 = take_unescaped(s, i0, n as nat);
                match take_unescaped(s, reader.cursor(), (n - c) as nat) {
                    Some(p) => t0 == Some::<(Seq<u8>, int)>((out@ + p.0, p.1)),
                    None => t0 is None,
                }
            }),
        decreases n - c,
    {
        let ghost cur = reader.cursor();
        let ghost old_out = out@;
        match reader.read_u8_escaped() {
            Ok(b) => {
                proof {
                    assert(take_unescaped(s, cur, (n - c) as nat) matches Some(q) ==> {
                        &&& take_unescaped(s, reader.cursor(), (n - (c + 1)) as nat)
                            matches Some(p)
                        &&& q == (seq![b] + p.0, p.1)
                    });
                    if take_unescaped(s, reader.cursor(), (n - (c + 1)) as nat) is Some {
                        let p = take_unescaped(s, reader.cursor(), (n - (c + 1)) as nat)->Some_0;
                        assert(take_unescaped(s, cur, (n - c) as nat) == Some::<(Seq<u8>, int)>(
                            (seq![b] + p.0, p.1),
                        ));
                        assert_seqs_equal!(old_out + (seq![b] + p.0) == old_out.push(b) + p.0);
                    }
                }
                out.push(b);
                c = c + 1;
            },
            Err(_) => {
                proof {
                    assert(take_unescaped(s, cur, (n - c) as nat) is None);
                }
                return Err(LinkError::Timeout);
            },
        }
    }
    proof {
        assert_seqs_equal!(out@ + Seq::<u8>::empty() == out@);
    }
    Ok(out)
}

/// Raw packet read shared by both packet families: an unchecked byte in the
/// sync slot, `k` escaped header bytes ending with the size byte, then that
/// many escaped bytes stored verbatim (checksum included, not validated).
/// Returns the number of bytes stored at the front of `buf`.
pub fn read_raw_packet(reader: &mut ByteReader, buf: &mut Vec<u8>, k: usize) -> (r: Result<
    usize,
    LinkError,
>)
    requires
        old(reader).wf(),
        1 <= k,
        old(buf)@.len() >= 1 + k + 255,
    ensures
        final(reader).wf(),
        final(reader)@ == old(reader)@,
        final(buf)@.len() == old(buf)@.len(),
        ({
            let t = raw_frame_spec(old(reader)@, old(reader).cursor(), k as nat);
            match t {
                Some(p) => {
                    &&& r == Ok::<usize, LinkError>(p.0.len() as usize)
                    &&& p.0.len() <= 1 + k + 255
                    &&& final(buf)@ == overwrite(old(buf)@, 0, p.0)
                    &&& final(reader).cursor() == p.1
                },
                None => {
                    &&& r == Err::<usize, LinkError>(LinkError::Timeout)
                    &&& final(reader).cursor() == old(reader)@.len()
                },
            }
        }),
{
    let ghost s = reader@;
    let ghost i0 = reader.cursor();
    let b0 = match reader.read_u8() {
        Ok(b) => b,
        Err(_) => {
            return Err(LinkError::Timeout);
        },
    };
    let head = match read_escaped_vec(reader, k) {
        Ok(h) => h,
        Err(_) => {
            return Err(LinkError::Timeout);
        },
    };
    proof {
        lemma_take_unescaped_props(s, i0 + 1, k as nat);
    }
    let size = head[k - 1];
    let tail = match read_escaped_vec(reader, size as usize) {
        Ok(t) => t,
        Err(_) => {
            return Err(LinkError::Timeout);
        },
    };
    proof {
        lemma_take_unescaped_props(
            s,
            take_unescaped(s, i0 + 1, k as nat)->Some_0.1,
            size as nat,
        );
    }
    buf.set(0, b0);
    copy_into(buf, 1, head.as_slice());
    copy_into(buf, 1 + k, tail.as_slice());
    proof {
        let p = raw_frame_spec(s, i0, k as nat)->Some_0;
        assert(p.0 == seq![b0] + head@ + tail@);
        assert_seqs_equal!(
            overwrite(
                overwrite(
                    overwrite(old(buf)@, 0, seq![b0]),
                    1, head@
                ),
                1 + k, tail@
            ) == overwrite(old(buf)@, 0, seq![b0] + head@ + tail@)
        );
        assert_seqs_equal!(old(buf)@.update(0, b0) == overwrite(old(buf)@, 0, seq![b0]));
    }
    Ok(1 + k + size as usize)
}

/// Decodes one frame: discards bytes until a sync marker (resynchronizing
/// after noise), unescapes `n_prefix` header bytes plus the size byte, then
/// the counted bytes, and validates the checksum. Returns the logical frame
/// body (header bytes, size byte, payload; no sync, no checksum). A checksum
/// mismatch consumes the bad frame and reports `Checksum`, so the caller can
/// scan on; an exhausted input reports `Timeout`.
pub fn decode_frame(reader: &mut ByteReader, n_prefix: usize) -> (r: Result<Vec<u8>, LinkError>)
    requires
        old(reader).wf(),
        n_prefix <= 8,
    ensures
        final(reader).wf(),
        final(reader)@ == old(reader)@,
        ({
            let d = decode_spec(old(reader)@.skip(old(reader).cursor()), n_prefix as nat);
            match d {
                DecodeStep::Frame { body, used } => {
                    &&& r matches Ok(v) && v@ == body
                    &&& final(reader).cursor() == old(reader).cursor() + used
                },
                DecodeStep::BadSum { used } => {
                    &&& r == Err::<Vec<u8>, LinkError>(LinkError::Checksum)
                    &&& final(reader).cursor() == old(reader).cursor() + used
                },
                DecodeStep::Starved => {
                    &&& r == Err::<Vec<u8>, LinkError>(LinkError::Timeout)
                    &&& final(reader).cursor() == old(reader)@.len()
                },
            }
        }),
{
    let ghost s = reader@;
    let ghost c0 = reader.cursor();
    let ghost p = n_prefix as nat;
    proof {
        assert(decode_spec(s.skip(c0), p) == add_used(decode_spec(s.skip(c0), p), c0 - c0));
    }
    loop
        invariant_except_break
            decode_spec(s.skip(c0), p) == add_used(
                decode_spec(s.skip(reader.cursor()), p),
                reader.cursor() - c0,
            ),
        invariant
            reader.wf(),
            reader@ == s,
            s == old(reader)@,
            c0 == old(reader).cursor(),
            p == n_prefix as nat,
            n_prefix <= 8,
            0 <= c0 <= reader.cursor() <= s.len(),
        ensures
            reader.wf(),
            reader@ == s,
            c0 <= reader.cursor() <= s.len(),
            decode_spec(s.skip(c0), p) == add_used(
                parse_after_sync(s.skip(reader.cursor()), p),
                reader.cursor() - c0,
            ),
        decreases s.len() - reader.cursor(),
    {
        let ghost c = reader.cursor();
        match reader.read_u8() {
            Ok(b) => {
                proof {
                    assert(s.skip(c)[0] == s[c]);
                    assert_seqs_equal!(s.skip(c).drop_first() == s.skip(c + 1));
                }
                if b == SYNC {
                    proof {
                        assert(decode_spec(s.skip(c), p) == add_used(
                            parse_after_sync(s.skip(c + 1), p),
                            1,
                        ));
                    }
                    break ;
                }
                proof {
                    let d1 = decode_spec(s.skip(c + 1), p);
                    assert(decode_spec(s.skip(c), p) == add_used(d1, 1));
                    assert(add_used(add_used(d1, 1), c - c0) == add_used(d1, c + 1 - c0));
                }
            },
            Err(_) => {
                proof {
                    assert(s.skip(reader.cursor()).len() == 0);
                    assert(decode_spec(s.skip(c0), p) is Starved);
                }
                return Err(LinkError::Timeout);
            },
        }
    }
    let ghost c1 = reader.cursor();
    let ghost t = s.skip(c1);
    proof {
        lemma_take_unescaped_skip(s, c1, 0, (p + 1) as nat);
    }
    let head = match read_escaped_vec(reader, n_prefix + 1) {
        Ok(h) => h,
        Err(_) => {
            proof {
                assert(parse_after_sync(t, p) is Starved);
            }
            return Err(LinkError::Timeout);
        },
    };
    let ghost j1 = reader.cursor();
    proof {
        lemma_take_unescaped_props(s, c1, (p + 1) as nat);
        assert(take_unescaped(t, 0, (p + 1) as nat) == Some::<(Seq<u8>, int)>((head@, j1 - c1)));
    }
    let size = head[n_prefix];
    if size == 0 {
        proof {
            assert(parse_after_sync(t, p) == (DecodeStep::BadSum { used: j1 - c1 }));
        }
        return Err(LinkError::Checksum);
    }
    proof {
        lemma_take_unescaped_skip(s, c1, j1 - c1, size as nat);
    }
    let tail = match read_escaped_vec(reader, size as usize) {
        Ok(tl) => tl,
        Err(_) => {
            proof {
                assert(parse_after_sync(t, p) is Starved);
            }
            return Err(LinkError::Timeout);
        },
    };
    let ghost j2 = reader.cursor();
    proof {
        assert(take_unescaped(t, j1 - c1, size as nat) == Some::<(Seq<u8>, int)>((
            tail@,
            j2 - c1,
        )));
    }
    let mut body = head;
    let tail_len = tail.len();
    let mut q: usize = 0;
    while q + 1 < tail_len
        invariant
            q + 1 <= tail_len,
            tail_len == tail@.len(),
            body@ == take_unescaped(t, 0, (p + 1) as nat)->Some_0.0 + tail@.take(q as int),
            t == s.skip(c1),
            p == n_prefix as nat,
        decreases tail_len - q,
    {
        proof {
            lemma_take_push(tail@, q as int);
        }
        body.push(tail[q]);
        q = q + 1;
    }
    proof {
        assert_seqs_equal!(tail@.take(tail_len - 1) == tail@.drop_last());
        assert(body@ == head@ + tail@.drop_last());
    }
    let sum = checksum_of(body.as_slice());
    let last = tail[tail_len - 1];
    proof {
        assert(tail@.last() == last);
        if checksum_spec(body@) == last {
            assert(parse_after_sync(t, p) == (DecodeStep::Frame { body: body@, used: j2 - c1 }));
        } else {
            assert(parse_after_sync(t, p) == (DecodeStep::BadSum { used: j2 - c1 }));
        }
    }
    if sum == last {
        Ok(body)
    } else {
        Err(LinkError::Checksum)
    }
}

/// Writes the wire form of the frame held in `buf[..len]`: the sync marker,
/// then every byte of `buf[1..len-1]` escaped, then the escaped checksum.
/// The first byte of `buf` and its last (the checksum slot) are not sent as
/// stored; the checksum is recomputed and returned.
pub fn write_packet_bytes(writer: &mut ByteWriter, buf: &[u8], len: usize) -> (r: u8)
    requires
        2 <= len <= buf@.len(),
    ensures
        final(writer)@ == old(writer)@ + frame_bytes(buf@.subrange(1, len - 1)),
        r == checksum_spec(buf@.subrange(1, len - 1)),
{
    let ghost body = buf@.subrange(1, len as int - 1);
    let mut sum: u8 = 0;
    writer.write_u8(SYNC);
    proof {
        assert_seqs_equal!(body.take(0) == Seq::<u8>::empty());
        assert_seqs_equal!(writer@ == old(writer)@ + seq![SYNC] + escaped_bytes(body.take(0)));
    }
    let mut i: usize = 1;
    while i < len - 1
        invariant
            2 <= len <= buf@.len(),
            1 <= i <= len - 1,
            body == buf@.subrange(1, len - 1),
            writer@ == old(writer)@ + seq![SYNC] + escaped_bytes(body.take(i - 1)),
            sum == checksum_spec(body.take(i - 1)),
        decreases len - i,
    {
        let b = buf[i];
        writer.write_u8_escaped(b);
        sum = sum.wrapping_add(b);
        proof {
            assert(body[i - 1] == b);
            assert_seqs_equal!(body.take(i - 1 + 1) == body.take(i - 1).push(b));
            lemma_escaped_bytes_push(body.take(i as int - 1), b);
            assert(body.take(i - 1 + 1).drop_last() == body.take(i as int - 1));
            assert(checksum_spec(body.take(i - 1 + 1)) == wrap_add(
                checksum_spec(body.take(i as int - 1)),
                b,
            ));
        }
        i = i + 1;
    }
    proof {
        assert_seqs_equal!(body.take(len - 2) == body);
    }
    writer.write_u8_escaped(sum);
    proof {
        assert_seqs_equal!(writer@ == old(writer)@ + frame_bytes(body));
    }
    sum
}

} // verus!

verus! {

/// Integer (non-wrapping) sum of a byte sequence.
pub open spec fn sum_int(s: Seq<u8>) -> int
    decreases s.len(),
{
    if s.len() == 0 {
        0
    } else {
        sum_int(s.drop_last()) + s.last()
    }
}

/// The wrapping checksum is the integer sum modulo 256.
pub proof fn lemma_checksum_is_sum_mod(s: Seq<u8>)
    ensures
        checksum_spec(s) == sum_int(s) % 256,
        sum_int(s) >= 0,
    decreases s.len(),
{
    if s.len() == 0 {
    } else {
        lemma_checksum_is_sum_mod(s.drop_last());
        let a = checksum_spec(s.drop_last());
        let b = s.last();
        lemma_add_mod_noop(sum_int(s.drop_last()), b as int, 256);
        lemma_small_mod(b as nat, 256);
        lemma_mod_bound(sum_int(s.drop_last()), 256);
        if a + b > 255 {
            lemma_mod_sub_multiples_vanish(a + b, 256);
            lemma_small_mod((a + b - 256) as nat, 256);
        } else {
            lemma_small_mod((a + b) as nat, 256);
        }
    }
}

/// Replacing one byte shifts the integer sum by exactly the difference.
pub proof fn lemma_sum_update(s: Seq<u8>, j: int, v: u8)
    requires
        0 <= j < s.len(),
    ensures
        sum_int(s.update(j, v)) == sum_int(s) - s[j] + v,
    decreases s.len(),
{
    let t = s.update(j, v);
    if j == s.len() - 1 {
        assert_seqs_equal!(t.drop_last() == s.drop_last());
        assert(t.last() == v);
    } else {
        assert_seqs_equal!(t.drop_last() == s.drop_last().update(j, v));
        lemma_sum_update(s.drop_last(), j, v);
        assert(t.last() == s.last());
    }
}

/// Changing a single byte of a sequence always changes its checksum: the
/// difference is below the modulus, so it cannot vanish.
pub proof fn lemma_checksum_update_differs(s: Seq<u8>, j: int, v: u8)
    requires
        0 <= j < s.len(),
        v != s[j],
    ensures
        checksum_spec(s.update(j, v)) != checksum_spec(s),
{
    lemma_checksum_is_sum_mod(s);
    lemma_checksum_is_sum_mod(s.update(j, v));
    lemma_sum_update(s, j, v);
    let d = v - s[j];
    lemma_mod_equivalence(sum_int(s) + d, sum_int(s), 256);
    if d > 0 {
        lemma_small_mod(d as nat, 256);
    } else {
        lemma_mod_add_multiples_vanish(d, 256);
        lemma_small_mod((d + 256) as nat, 256);
    }
}

/// Unescaping a stream that starts with the wire form of `a` recovers `a`
/// exactly and stops right after it.
pub proof fn lemma_take_unescaped_of_escaped(t: Seq<u8>, i: int, a: Seq<u8>)
    requires
        0 <= i,
        i + escaped_bytes(a).len() <= t.len(),
        t.subrange(i, i + escaped_bytes(a).len()) == escaped_bytes(a),
    ensures
        take_unescaped(t, i, a.len()) == Some::<(Seq<u8>, int)>((
            a,
            i + escaped_bytes(a).len(),
        )),
    decreases a.len(),
{
    if a.len() == 0 {
        assert_seqs_equal!(a == Seq::<u8>::empty());
    } else {
        let e = escape_spec(a[0]);
        let rest = escaped_bytes(a.drop_first());
        assert(escaped_bytes(a) == e + rest);
        assert(t.subrange(i, i + escaped_bytes(a).len())[0] == t[i]);
        assert(t[i] == e[0]);
        if is_reserved(a[0]) {
            assert(t[i] == MARK);
            assert(t.subrange(i, i + escaped_bytes(a).len())[1] == t[i + 1]);
            assert(t[i + 1] == wrap_dec(a[0]));
            assert(wrap_inc(wrap_dec(a[0])) == a[0]);
            assert_seqs_equal!(
                t.subrange(i + 2, i + 2 + rest.len()) == rest,
                k => {
                    assert(t.subrange(i, i + escaped_bytes(a).len())[2 + k] == t[i + 2 + k]);
                    assert((e + rest)[2 + k] == rest[k]);
                }
            );
            lemma_take_unescaped_of_escaped(t, i + 2, a.drop_first());
            assert_seqs_equal!(seq![a[0]] + a.drop_first() == a);
        } else {
            assert(t[i] == a[0]);
            assert(a[0] != MARK);
            assert_seqs_equal!(
                t.subrange(i + 1, i + 1 + rest.len()) == rest,
                k => {
                    assert(t.subrange(i, i + escaped_bytes(a).len())[1 + k] == t[i + 1 + k]);
                    assert((e + rest)[1 + k] == rest[k]);
                }
            );
            lemma_take_unescaped_of_escaped(t, i + 1, a.drop_first());
            assert_seqs_equal!(seq![a[0]] + a.drop_first() == a);
        }
    }
}

/// The wire form of a single logical byte.
pub proof fn lemma_escaped_singleton(b: u8)
    ensures
        escaped_bytes(seq![b]) == escape_spec(b),
{
    reveal_with_fuel(escaped_bytes, 2);
    assert_seqs_equal!(seq![b].drop_first() == Seq::<u8>::empty());
    assert_seqs_equal!(escaped_bytes(seq![b]) == escape_spec(b));
}

/// Parsing just past a sync marker: a well-formed escaped body followed by an
/// escaped checksum byte parses back to that body, and is accepted exactly
/// when the checksum byte matches the body's checksum.
pub proof fn lemma_parse_frame(body: Seq<u8>, ck: u8, rest: Seq<u8>, n_prefix: nat)
    requires
        body.len() == n_prefix + body[n_prefix as int],
        body[n_prefix as int] >= 1,
    ensures
        ({
            let t = escaped_bytes(body) + escape_spec(ck) + rest;
            let used = escaped_bytes(body).len() + escape_spec(ck).len();
            parse_after_sync(t, n_prefix) == (if checksum_spec(body) == ck {
                DecodeStep::Frame { body, used: used as int }
            } else {
                DecodeStep::BadSum { used: used as int }
            })
        }),
{
    let t = escaped_bytes(body) + escape_spec(ck) + rest;
    let p = n_prefix as int;
    let head = body.take(p + 1);
    let data = body.skip(p + 1);
    let size = body[p];
    assert_seqs_equal!(head + data == body);
    lemma_escaped_bytes_concat(head, data);
    assert(head.last() == size);
    let eh = escaped_bytes(head);
    let ed = escaped_bytes(data);
    assert_seqs_equal!(
        t.subrange(0, eh.len() as int) == eh,
        k => {
            assert(t[k] == (eh + ed)[k]);
        }
    );
    lemma_take_unescaped_of_escaped(t, 0, head);
    let i1 = eh.len() as int;
    let tl = data + seq![ck];
    lemma_escaped_bytes_concat(data, seq![ck]);
    lemma_escaped_singleton(ck);
    let etl = escaped_bytes(tl);
    assert(etl == ed + escape_spec(ck));
    assert(tl.len() == size as int);
    assert_seqs_equal!(
        t.subrange(i1, i1 + etl.len()) == etl,
        k => {
            assert(t[i1 + k] == (eh + (ed + escape_spec(ck)))[i1 + k]);
        }
    );
    lemma_take_unescaped_of_escaped(t, i1, tl);
    assert(take_unescaped(t, i1, size as nat) == Some::<(Seq<u8>, int)>((
        tl,
        i1 + etl.len(),
    )));
    assert_seqs_equal!(tl.drop_last() == data);
    assert(tl.last() == ck);
    assert_seqs_equal!(head + tl.drop_last() == body);
    assert(i1 + etl.len() == escaped_bytes(body).len() + escape_spec(ck).len());
}

/// Decoding a stream that carries leading non-sync noise, then a framed and
/// escaped body with some checksum byte, then anything else: the noise is
/// skipped, the body comes back exactly, and the frame is accepted exactly
/// when its checksum byte is correct.
pub proof fn lemma_decode_frame_bytes(
    garbage: Seq<u8>,
    body: Seq<u8>,
    ck: u8,
    rest: Seq<u8>,
    n_prefix: nat,
)
    requires
        forall|i: int| 0 <= i < garbage.len() ==> garbage[i] != SYNC,
        body.len() == n_prefix + body[n_prefix as int],
        body[n_prefix as int] >= 1,
    ensures
        ({
            let s = garbage + (seq![SYNC] + escaped_bytes(body) + escape_spec(ck)) + rest;
            let used = garbage.len() + 1 + escaped_bytes(body).len() + escape_spec(ck).len();
            decode_spec(s, n_prefix) == (if checksum_spec(body) == ck {
                DecodeStep::Frame { body, used: used as int }
            } else {
                DecodeStep::BadSum { used: used as int }
            })
        }),
    decreases garbage.len(),
{
    let s = garbage + (seq![SYNC] + escaped_bytes(body) + escape_spec(ck)) + rest;
    if garbage.len() == 0 {
        assert(s[0] == SYNC);
        lemma_parse_frame(body, ck, rest, n_prefix);
        assert_seqs_equal!(
            s.drop_first() == escaped_bytes(body) + escape_spec(ck) + rest
        );
    } else {
        assert(s[0] == garbage[0]);
        assert(s[0] != SYNC);
        lemma_decode_frame_bytes(garbage.drop_first(), body, ck, rest, n_prefix);
        assert_seqs_equal!(
            s.drop_first() == garbage.drop_first()
                + (seq![SYNC] + escaped_bytes(body) + escape_spec(ck)) + rest
        );
    }
}

/// Round trip: decoding the encoded form of any well-formed frame body gives
/// back exactly that body, consuming the whole encoding. Well-formed means
/// the size byte (at index `n_prefix` of the body) counts every logical byte
/// that follows the size byte plus the checksum.
pub proof fn lemma_round_trip(body: Seq<u8>, n_prefix: nat)
    requires
        body.len() == n_prefix + body[n_prefix as int],
        body[n_prefix as int] >= 1,
    ensures
        decode_spec(frame_bytes(body), n_prefix) == (DecodeStep::Frame {
            body,
            used: frame_bytes(body).len() as int,
        }),
{
    lemma_decode_frame_bytes(
        Seq::<u8>::empty(),
        body,
        checksum_spec(body),
        Seq::<u8>::empty(),
        n_prefix,
    );
    assert_seqs_equal!(
        Seq::<u8>::empty() + (seq![SYNC] + escaped_bytes(body)
            + escape_spec(checksum_spec(body))) + Seq::<u8>::empty() == frame_bytes(body)
    );
}

/// Resynchronization: any leading noise that contains no sync byte is
/// discarded, and the valid frame that follows it decodes as if the noise
/// were absent; trailing bytes are left for the next decode.
pub proof fn lemma_resync(garbage: Seq<u8>, body: Seq<u8>, rest: Seq<u8>, n_prefix: nat)
    requires
        forall|i: int| 0 <= i < garbage.len() ==> garbage[i] != SYNC,
        body.len() == n_prefix + body[n_prefix as int],
        body[n_prefix as int] >= 1,
    ensures
        decode_spec(garbage + frame_bytes(body) + rest, n_prefix) == (DecodeStep::Frame {
            body,
            used: garbage.len() + frame_bytes(body).len() as int,
        }),
{
    lemma_decode_frame_bytes(garbage, body, checksum_spec(body), rest, n_prefix);
    assert_seqs_equal!(
        garbage + (seq![SYNC] + escaped_bytes(body) + escape_spec(checksum_spec(body)))
            + rest == garbage + frame_bytes(body) + rest
    );
}

/// Corrupting one raw byte of a valid encoded frame is caught by the
/// checksum. Covered corruptions: the raw byte sits in the escaped image of
/// any logical body byte other than the size byte, and neither the original
/// nor the corrupted value is a reserved marker (so the framing structure
/// itself is untouched; a corrupted size byte, or one that creates a marker,
/// can instead starve the decoder, which reports a timeout). The first
/// conclusion identifies the corrupted stream as the encoded frame with
/// exactly one raw byte replaced.
pub proof fn lemma_corrupt_byte_detected(body: Seq<u8>, j: int, v: u8, n_prefix: nat)
    requires
        body.len() == n_prefix + body[n_prefix as int],
        body[n_prefix as int] >= 1,
        0 <= j < body.len(),
        j != n_prefix,
        v != body[j],
        !is_reserved(v),
        !is_reserved(body[j]),
    ensures
        ({
            let corrupted = frame_bytes(body).update(
                1 + escaped_bytes(body.take(j)).len() as int,
                v,
            );
            &&& corrupted == seq![SYNC] + escaped_bytes(body.update(j, v)) + escape_spec(
                checksum_spec(body),
            )
            &&& decode_spec(corrupted, n_prefix) matches DecodeStep::BadSum { .. }
        }),
{
    let ck = checksum_spec(body);
    let body2 = body.update(j, v);
    let pre = body.take(j);
    let post = body.skip(j + 1);
    assert_seqs_equal!(body == pre + seq![body[j]] + post);
    assert_seqs_equal!(body2 == pre + seq![v] + post);
    lemma_escaped_bytes_concat(pre + seq![body[j]], post);
    lemma_escaped_bytes_concat(pre, seq![body[j]]);
    lemma_escaped_bytes_concat(pre + seq![v], post);
    lemma_escaped_bytes_concat(pre, seq![v]);
    lemma_escaped_singleton(body[j]);
    lemma_escaped_singleton(v);
    assert(escape_spec(body[j]) == seq![body[j]]);
    assert(escape_spec(v) == seq![v]);
    assert(escaped_bytes(body) == escaped_bytes(pre) + seq![body[j]] + escaped_bytes(post))
        by {
        assert_seqs_equal!(
            escaped_bytes(pre) + seq![body[j]] + escaped_bytes(post)
                == (escaped_bytes(pre) + seq![body[j]]) + escaped_bytes(post)
        );
        assert_seqs_equal!(pre + seq![body[j]] + post == (pre + seq![body[j]]) + post);
    }
    assert(escaped_bytes(body2) == escaped_bytes(pre) + seq![v] + escaped_bytes(post)) by {
        assert_seqs_equal!(
            escaped_bytes(pre) + seq![v] + escaped_bytes(post)
                == (escaped_bytes(pre) + seq![v]) + escaped_bytes(post)
        );
        assert_seqs_equal!(pre + seq![v] + post == (pre + seq![v]) + post);
    }
    let rpos = 1 + escaped_bytes(pre).len() as int;
    let corrupted = frame_bytes(body).update(rpos, v);
    assert_seqs_equal!(
        corrupted == seq![SYNC] + escaped_bytes(body2) + escape_spec(ck)
    );
    assert(body2[n_prefix as int] == body[n_prefix as int]);
    lemma_decode_frame_bytes(Seq::<u8>::empty(), body2, ck, Seq::<u8>::empty(), n_prefix);
    lemma_checksum_update_differs(body, j, v);
    assert_seqs_equal!(
        Seq::<u8>::empty() + (seq![SYNC] + escaped_bytes(body2) + escape_spec(ck))
            + Seq::<u8>::empty() == corrupted
    );
}

} // verus!

verus! {

/// Reading back an encoded frame with the raw (non-validating) packet
/// reader recovers the logical frame exactly: the sync marker, the body,
/// and the transmitted checksum, consuming the whole encoding and leaving
/// any trailing bytes unread.
pub proof fn lemma_raw_read_of_encoding(body: Seq<u8>, rest: Seq<u8>, n_prefix: nat)
    requires
        body.len() == n_prefix + body[n_prefix as int],
        body[n_prefix as int] >= 1,
    ensures
        raw_frame_spec(frame_bytes(body) + rest, 0, (n_prefix + 1) as nat)
            == Some::<(Seq<u8>, int)>((
            seq![SYNC] + body + seq![checksum_spec(body)],
            frame_bytes(body).len() as int,
        )),
{
    let ck = checksum_spec(body);
    let s = frame_bytes(body) + rest;
    let k = n_prefix as int + 1;
    let head = body.take(k);
    let data = body.skip(k);
    let size = body[n_prefix as int];
    assert(s[0] == SYNC);
    assert_seqs_equal!(head + data == body);
    lemma_escaped_bytes_concat(head, data);
    let eh = escaped_bytes(head);
    let ed = escaped_bytes(data);
    assert_seqs_equal!(
        s.subrange(1, 1 + eh.len() as int) == eh,
        q => {
            assert(s[1 + q] == escaped_bytes(body)[q]);
            assert((eh + ed)[q] == eh[q]);
        }
    );
    lemma_take_unescaped_of_escaped(s, 1, head);
    assert(head.last() == size);
    let tl = data + seq![ck];
    lemma_escaped_bytes_concat(data, seq![ck]);
    lemma_escaped_singleton(ck);
    let etl = escaped_bytes(tl);
    assert(etl == ed + escape_spec(ck));
    assert(tl.len() == size as int);
    let i1 = 1 + eh.len() as int;
    assert_seqs_equal!(
        s.subrange(i1, i1 + etl.len() as int) == etl,
        q => {
            if q < ed.len() {
                assert(s[i1 + q] == escaped_bytes(body)[eh.len() + q]);
                assert((eh + ed)[eh.len() + q] == ed[q]);
                assert((ed + escape_spec(ck))[q] == ed[q]);
            } else {
                assert(s[i1 + q] == escape_spec(ck)[q - ed.len()]);
                assert((ed + escape_spec(ck))[q] == escape_spec(ck)[q - ed.len()]);
            }
        }
    );
    lemma_take_unescaped_of_escaped(s, i1, tl);
    assert(take_unescaped(s, i1, size as nat) == Some::<(Seq<u8>, int)>((
        tl,
        i1 + etl.len(),
    )));
    assert_seqs_equal!(seq![s[0]] + head + tl == seq![SYNC] + body + seq![ck]);
    assert(i1 + etl.len() == frame_bytes(body).len());
}

} // verus!
