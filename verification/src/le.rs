//! Little-endian integers in byte sequences.

use vstd::prelude::*;

verus! {

/// `256` to the power of `n`.
pub open spec fn pow256(n: nat) -> nat
    decreases n,
{
    if n == 0 {
        1
    } else {
        256 * pow256((n - 1) as nat)
    }
}

/// The lowest `n` bytes of `v`, least significant first.
pub open spec fn le(v: nat, n: nat) -> Seq<u8>
    decreases n,
{
    if n == 0 {
        Seq::empty()
    } else {
        seq![(v % 256) as u8] + le(v / 256, (n - 1) as nat)
    }
}

/// The number whose bytes are `s`, least significant first.
pub open spec fn le_value(s: Seq<u8>) -> nat
    decreases s.len(),
{
    if s.len() == 0 {
        0
    } else {
        s[0] as nat + 256 * le_value(s.skip(1))
    }
}

/// The unsigned number with the same `n` bytes as the signed number `v`.
pub open spec fn twos(v: int, n: nat) -> nat {
    if v < 0 {
        (v + pow256(n)) as nat
    } else {
        v as nat
    }
}

/// The signed number with the same `n` bytes as the unsigned number `u`.
pub open spec fn signed(u: nat, n: nat) -> int {
    if 2 * u >= pow256(n) {
        u - pow256(n)
    } else {
        u as int
    }
}

pub proof fn le_len(v: nat, n: nat)
    ensures
        le(v, n).len() == n,
    decreases n,
{
    if n > 0 {
        le_len(v / 256, (n - 1) as nat);
    }
}

/// Reading back the bytes of a number gives the number, as far as they hold it.
pub proof fn le_value_of_le(v: nat, n: nat)
    requires
        v < pow256(n),
    ensures
        le_value(le(v, n)) == v,
    decreases n,
{
    if n > 0 {
        let rest = le(v / 256, (n - 1) as nat);
        assert(v / 256 < pow256((n - 1) as nat));
        le_value_of_le(v / 256, (n - 1) as nat);
        le_len(v / 256, (n - 1) as nat);
        assert(le(v, n).skip(1) =~= rest);
    }
}

/// Distinct byte sequences of one length hold distinct numbers.
pub proof fn le_of_le_value(s: Seq<u8>)
    ensures
        le(le_value(s), s.len()) == s,
        le_value(s) < pow256(s.len()),
    decreases s.len(),
{
    if s.len() > 0 {
        le_of_le_value(s.skip(1));
        assert(le_value(s) / 256 == le_value(s.skip(1)));
        assert(le_value(s) % 256 == s[0]);
        assert(le(le_value(s), s.len()) =~= s);
    } else {
        assert(le(le_value(s), s.len()) =~= s);
    }
}

/// The widths that records use.
pub proof fn pow256_values()
    ensures
        pow256(0) == 1,
        pow256(1) == 0x100,
        pow256(2) == 0x1_0000,
        pow256(4) == 0x1_0000_0000,
        pow256(8) == 0x1_0000_0000_0000_0000,
{
    reveal_with_fuel(pow256, 9);
}

/// Overwrites the first `n` bytes of `buf` with the lowest `n` bytes of `v`.
pub fn put_le(buf: &mut [u8], v: u64, n: usize)
    requires
        n <= old(buf)@.len(),
    ensures
        final(buf)@ == le(v as nat, n as nat) + old(buf)@.skip(n as int),
{
    let mut rest: u64 = v;
    let mut i: usize = 0;
    let ghost written: Seq<u8> = Seq::empty();
    proof {
        assert(buf@ =~= Seq::<u8>::empty() + old(buf)@.skip(0));
        assert(Seq::<u8>::empty() + le(v as nat, n as nat) =~= le(v as nat, n as nat));
    }
    while i < n
        invariant
            i <= n <= old(buf)@.len(),
            written.len() == i,
            buf@ == written + old(buf)@.skip(i as int),
            written + le(rest as nat, (n - i) as nat) == le(v as nat, n as nat),
        decreases n - i,
    {
        let b: u8 = (rest % 256) as u8;
        buf[i] = b;
        rest = rest / 256;
        i = i + 1;
        proof {
            assert(written + (seq![b] + le(rest as nat, (n - i) as nat)) =~= written.push(b) + le(
                rest as nat,
                (n - i) as nat,
            ));
            written = written.push(b);
            assert(buf@ =~= written + old(buf)@.skip(i as int));
        }
    }
    proof {
        assert(written + le(rest as nat, 0) =~= written);
    }
}

/// The number whose bytes are `s`.
pub fn get_le(s: &[u8]) -> (v: u64)
    requires
        s@.len() <= 8,
    ensures
        v == le_value(s@),
{
    let mut v: u64 = 0;
    let mut i: usize = s.len();
    proof {
        assert(s@.skip(s@.len() as int) =~= Seq::empty());
    }
    while i > 0
        invariant
            i <= s@.len() <= 8,
            v == le_value(s@.skip(i as int)),
        decreases i,
    {
        proof {
            let tail = s@.skip(i as int);
            let next = s@.skip(i - 1);
            assert(next.skip(1) =~= tail);
            le_of_le_value(next);
            reveal_with_fuel(pow256, 9);
            assert(le_value(next) < 0x1_0000_0000_0000_0000) by {
                pow256_monotonic(next.len(), 8);
            }
        }
        i = i - 1;
        v = s[i] as u64 + 256 * v;
    }
    proof {
        assert(s@.skip(0) =~= s@);
    }
    v
}

proof fn pow256_monotonic(m: nat, n: nat)
    requires
        m <= n,
    ensures
        1 <= pow256(m) <= pow256(n),
    decreases n,
{
    if m < n {
        pow256_monotonic(m, (n - 1) as nat);
    } else if n > 0 {
        pow256_monotonic((m - 1) as nat, (n - 1) as nat);
    }
}

/// A byte in one byte.
pub proof fn byte_le(b: u8)
    ensures
        le(b as nat, 1) == seq![b],
{
    reveal_with_fuel(le, 2);
    assert(le(b as nat, 1) =~= seq![b]);
}

} // verus!
