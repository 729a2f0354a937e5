//! Packet buffers for the two framed serial protocols.
//!
//! A packet is a reusable fixed-capacity buffer holding one logical frame:
//! the sync slot, the header fields, the payload and the checksum slot, all
//! unescaped. Escaping and checksumming happen only on the way to and from
//! the wire (see [`crate::codec`]). The two families differ in their header
//! layout: the JVS link ([`rs232`]) has no sequence or command field, while
//! the card-reader link ([`rs232c`]) carries both.

use vstd::prelude::*;
use vstd::assert_seqs_equal;

pub mod rs232;
pub mod rs232c;

verus! {

/// Capacity of every packet buffer: enough for the largest frame a size
/// byte can announce, so a read can never run past the end.
pub const BUF_CAP: usize = 260;

/// A zeroed packet buffer.
pub fn fresh_buffer() -> (r: Vec<u8>)
    ensures
        r@.len() == BUF_CAP as int,
        forall|i: int| 0 <= i < r@.len() ==> r@[i] == 0u8,
{
    let mut v: Vec<u8> = Vec::new();
    let mut i: usize = 0;
    while i < BUF_CAP
        invariant
            i <= BUF_CAP,
            v@.len() == i as int,
            forall|k: int| 0 <= k < i ==> v@[k] == 0u8,
        decreases BUF_CAP - i,
    {
        v.push(0u8);
        i = i + 1;
    }
    v
}

/// The bytes `src[a..b]`, as a fresh vector.
pub fn copy_range(src: &Vec<u8>, a: usize, b: usize) -> (r: Vec<u8>)
    requires
        a <= b <= src@.len(),
    ensures
        r@ == src@.subrange(a as int, b as int),
{
    let mut v: Vec<u8> = Vec::new();
    let mut i: usize = a;
    while i < b
        invariant
            a <= i <= b <= src@.len(),
            v@ == src@.subrange(a as int, i as int),
        decreases b - i,
    {
        v.push(src[i]);
        proof {
            assert_seqs_equal!(
                src@.subrange(a as int, i + 1) == src@.subrange(a as int, i as int).push(
                    src@[i as int]
                )
            );
        }
        i = i + 1;
    }
    v
}

} // verus!
