//! Room in rings.

use crate::ring::{RingBuffer, Slot};
use vstd::prelude::*;

verus! {

/// What is written to a ring takes the place of as many bytes, and leaves the others.
pub proof fn writing_replaces_bytes(data: Seq<u8>, offset: int, bytes: Seq<u8>, i: int)
    requires
        0 <= offset,
        offset + bytes.len() <= data.len(),
        0 <= i < data.len(),
    ensures
        ({
            let after = crate::ring::overwritten(data, offset, bytes);
            &&& after.len() == data.len()
            &&& offset <= i < offset + bytes.len() ==> after[i] == bytes[i - offset]
            &&& !(offset <= i < offset + bytes.len()) ==> after[i] == data[i]
        }),
{
}

/// A record has a slot of its length, at the head where it fits in front of the physical
/// end of the ring and at its start otherwise. The head moves on behind it, by whole slots
/// of 64 bytes and over what is left at the end.
pub proof fn slots_are_in_line(ring: &RingBuffer, len: nat, slot: Slot)
    requires
        ring.wf(),
    ensures
        ({
            let cap = ring.data@.len() as int;
            let offset = ring.head as int % cap;
            let slots = (len + 63) / 64 * 64;
            &&& offset + slots <= cap ==> (ring.slot_for(len, slot) <==> slot.len == len
                && slot.offset == offset && slot.next == ring.head + slots)
            &&& offset + slots > cap ==> (ring.slot_for(len, slot) <==> slot.len == len
                && slot.offset == 0 && slot.next == ring.head + (cap - offset) + slots)
        }),
{
    vstd::arithmetic::div_mod::lemma_mod_bound(ring.head as int, ring.data@.len() as int);
}

/// Making room changes nothing where a record fits in front of the physical end of the
/// ring. Otherwise the rest becomes a filler: its version, its type and its size stand
/// at the head, and nothing else changes.
pub proof fn fillers_take_the_rest(ring: &RingBuffer, len: nat, i: int)
    requires
        ring.wf(),
        0 <= i < ring.data@.len(),
        len <= 65_535,
    ensures
        ({
            let cap = ring.data@.len() as int;
            let offset = ring.head as int % cap;
            let slots = (len + 63) / 64 * 64;
            let after = ring.reserved(len);
            let rest = cap - offset;
            &&& after.len() == cap
            &&& offset + slots <= cap || i < offset || i >= offset + 4 ==> after[i] == ring.data@[i]
            &&& offset + slots > cap ==> {
                &&& after[offset] == 1
                &&& after[offset + 1] == 2
                &&& after[offset + 2] + 256 * after[offset + 3] == rest
            }
        }),
{
    let cap = ring.data@.len() as int;
    let offset = ring.head as int % cap;
    let slots = (len + 63) / 64 * 64;
    let rest = (cap - offset) as nat;
    vstd::arithmetic::div_mod::lemma_mod_bound(ring.head as int, cap);
    if offset + slots > cap {
        crate::ring::head_aligned(ring.head as int, cap);
        let prefix = crate::ring::filler_prefix(rest);
        crate::le::le_len(rest, 2);
        reveal_with_fuel(crate::le::le, 3);
        let size = crate::le::le(rest, 2);
        assert(prefix[2] == size[0] && prefix[3] == size[1]);
        assert(rest < 65_536);
        assert(size[0] == rest % 256);
        assert(size[1] == rest / 256);
    }
}

} // verus!
