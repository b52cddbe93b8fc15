//! A bounded byte parser over one record.
//!
//! Every read is clamped to the bytes that remain, so a corrupt in-record
//! length can never read past the record: a fixed-width read that would overrun
//! yields `0` and consumes nothing, and a read of bytes comes back short.

use crate::le::get_le;
use vstd::prelude::*;
use vstd::slice::slice_subrange;

verus! {

/// The number in the first `n` bytes of `s`, or `0` where there are fewer.
pub open spec fn fixed_value(s: Seq<u8>, n: nat) -> nat {
    if s.len() < n {
        0
    } else {
        crate::le::le_value(s.take(n as int))
    }
}

/// What remains of `s` after a fixed-width read of `n` bytes.
pub open spec fn fixed_rest(s: Seq<u8>, n: nat) -> Seq<u8> {
    if s.len() < n {
        s
    } else {
        s.skip(n as int)
    }
}

/// The first `n` bytes of `s`, or all where there are fewer.
pub open spec fn front(s: Seq<u8>, n: nat) -> Seq<u8> {
    if s.len() < n {
        s
    } else {
        s.take(n as int)
    }
}

/// What remains of `s` after its first `n` bytes.
pub open spec fn behind(s: Seq<u8>, n: nat) -> Seq<u8> {
    if s.len() < n {
        Seq::empty()
    } else {
        s.skip(n as int)
    }
}

/// A position in a record: the bytes that are still to be read.
pub struct Cursor<'a> {
    rest: &'a [u8],
}

impl<'a> View for Cursor<'a> {
    type V = Seq<u8>;

    closed spec fn view(&self) -> Seq<u8> {
        self.rest@
    }
}

impl<'a> Cursor<'a> {
    /// Creates a cursor at the start of `record`.
    pub fn new(record: &'a [u8]) -> (c: Cursor<'a>)
        ensures
            c@ == record@,
    {
        Cursor { rest: record }
    }

    /// Bytes remaining before the end of the record.
    pub fn remaining(&self) -> (n: usize)
        ensures
            n == self@.len(),
    {
        self.rest.len()
    }

    /// Reads the next `n` bytes as a number, advancing past them; yields `0`
    /// and stays where it is if fewer remain.
    fn read_fixed(&mut self, n: usize) -> (v: u64)
        requires
            n <= 8,
        ensures
            v == fixed_value(old(self)@, n as nat),
            final(self)@ == fixed_rest(old(self)@, n as nat),
    {
        let len: usize = self.rest.len();
        if len < n {
            return 0;
        }
        let v: u64 = get_le(slice_subrange(self.rest, 0, n));
        proof {
            assert(self@.subrange(0, n as int) =~= self@.take(n as int));
            assert(self@.subrange(n as int, len as int) =~= self@.skip(n as int));
        }
        self.rest = slice_subrange(self.rest, n, len);
        v
    }

    /// Reads the next byte.
    pub fn read_u8(&mut self) -> (v: u8)
        ensures
            v == fixed_value(old(self)@, 1),
            final(self)@ == fixed_rest(old(self)@, 1),
    {
        proof {
            value_bound(self@, 1);
        }
        self.read_fixed(1) as u8
    }

    /// Reads the next two bytes as a number.
    pub fn read_u16(&mut self) -> (v: u16)
        ensures
            v == fixed_value(old(self)@, 2),
            final(self)@ == fixed_rest(old(self)@, 2),
    {
        proof {
            value_bound(self@, 2);
        }
        self.read_fixed(2) as u16
    }

    /// Reads the next four bytes as a number.
    pub fn read_u32(&mut self) -> (v: u32)
        ensures
            v == fixed_value(old(self)@, 4),
            final(self)@ == fixed_rest(old(self)@, 4),
    {
        proof {
            value_bound(self@, 4);
        }
        self.read_fixed(4) as u32
    }

    /// Reads the next eight bytes as a number.
    pub fn read_u64(&mut self) -> (v: u64)
        ensures
            v == fixed_value(old(self)@, 8),
            final(self)@ == fixed_rest(old(self)@, 8),
    {
        self.read_fixed(8)
    }

    /// Skips the next `n` bytes, or all that remain.
    pub fn skip(&mut self, n: usize)
        ensures
            final(self)@ == behind(old(self)@, n as nat),
    {
        let _ = self.read_bytes(n);
    }

    /// Returns the next `n` bytes and advances past them. A short return means
    /// the record ended early.
    pub fn read_bytes(&mut self, n: usize) -> (data: &'a [u8])
        ensures
            data@ == front(old(self)@, n as nat),
            final(self)@ == behind(old(self)@, n as nat),
    {
        let len: usize = self.rest.len();
        let stop: usize = if len < n {
            len
        } else {
            n
        };
        let data: &'a [u8] = slice_subrange(self.rest, 0, stop);
        self.rest = slice_subrange(self.rest, stop, len);
        proof {
            assert(data@ =~= front(old(self)@, n as nat));
            assert(self@ =~= behind(old(self)@, n as nat));
        }
        data
    }

    /// Reads a `u16` length prefix, then returns the following bytes (clamped,
    /// like [`Cursor::read_bytes`]) and the prefix.
    pub fn read_len_prefixed(&mut self) -> (r: (&'a [u8], u16))
        ensures
            r.1 == fixed_value(old(self)@, 2),
            r.0@ == front(fixed_rest(old(self)@, 2), r.1 as nat),
            final(self)@ == behind(fixed_rest(old(self)@, 2), r.1 as nat),
    {
        let len: u16 = self.read_u16();
        let data: &'a [u8] = self.read_bytes(len as usize);
        (data, len)
    }
}

/// A number read from `n` bytes is below `256` to the power of `n`.
proof fn value_bound(s: Seq<u8>, n: nat)
    requires
        n == 1 || n == 2 || n == 4,
    ensures
        fixed_value(s, n) < crate::le::pow256(n),
        crate::le::pow256(1) == 0x100,
        crate::le::pow256(2) == 0x1_0000,
        crate::le::pow256(4) == 0x1_0000_0000,
{
    crate::le::pow256_values();
    if s.len() >= n {
        crate::le::le_of_le_value(s.take(n as int));
    }
}

} // verus!
