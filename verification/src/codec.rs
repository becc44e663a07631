//! Fixed-width integers as bytes, byte-string order, and fixed-width ids.

use vstd::prelude::*;

verus! {

/// The `n` low bytes of `x`, least significant first.
pub open spec fn le_bytes(x: nat, n: nat) -> Seq<u8>
    decreases n,
{
    if n == 0 {
        Seq::empty()
    } else {
        seq![(x % 256) as u8] + le_bytes(x / 256, (n - 1) as nat)
    }
}

/// The number whose bytes, least significant first, are `s`.
pub open spec fn le_value(s: Seq<u8>) -> nat
    decreases s.len(),
{
    if s.len() == 0 {
        0
    } else {
        s[0] as nat + 256 * le_value(s.drop_first())
    }
}

/// The `n` low bytes of `x`, most significant first.
pub open spec fn be_bytes(x: nat, n: nat) -> Seq<u8>
    decreases n,
{
    if n == 0 {
        Seq::empty()
    } else {
        be_bytes(x / 256, (n - 1) as nat).push((x % 256) as u8)
    }
}

/// The number whose bytes, most significant first, are `s`.
pub open spec fn be_value(s: Seq<u8>) -> nat
    decreases s.len(),
{
    if s.len() == 0 {
        0
    } else {
        256 * be_value(s.drop_last()) + s.last() as nat
    }
}

/// How many values `n` bytes can hold.
pub open spec fn byte_range(n: nat) -> nat
    decreases n,
{
    if n == 0 {
        1
    } else {
        256 * byte_range((n - 1) as nat)
    }
}

pub proof fn lemma_byte_range_8()
    ensures
        byte_range(8) == 0x1_0000_0000_0000_0000,
        byte_range(6) == 0x1_0000_0000_0000,
        byte_range(4) == 0x1_0000_0000,
        byte_range(2) == 0x1_0000,
{
    reveal_with_fuel(byte_range, 9);
}

pub proof fn lemma_le_bytes_len(x: nat, n: nat)
    ensures
        le_bytes(x, n).len() == n,
    decreases n,
{
    if n > 0 {
        lemma_le_bytes_len(x / 256, (n - 1) as nat);
    }
}

pub proof fn lemma_be_bytes_len(x: nat, n: nat)
    ensures
        be_bytes(x, n).len() == n,
    decreases n,
{
    if n > 0 {
        lemma_be_bytes_len(x / 256, (n - 1) as nat);
    }
}

/// A number survives being written little-endian and read back.
pub proof fn lemma_le_round_trip(x: nat, n: nat)
    requires
        x < byte_range(n),
    ensures
        le_value(le_bytes(x, n)) == x,
    decreases n,
{
    if n > 0 {
        let rest = le_bytes(x / 256, (n - 1) as nat);
        let all = le_bytes(x, n);
        lemma_le_round_trip(x / 256, (n - 1) as nat);
        assert(all.drop_first() =~= rest);
    }
}

/// Bytes survive being read as a number and written again.
pub proof fn lemma_le_bytes_of_value(s: Seq<u8>)
    ensures
        le_bytes(le_value(s), s.len()) == s,
        le_value(s) < byte_range(s.len()),
    decreases s.len(),
{
    if s.len() > 0 {
        let rest = s.drop_first();
        lemma_le_bytes_of_value(rest);
        let v = le_value(s);
        assert(v % 256 == s[0] as nat);
        assert(v / 256 == le_value(rest));
        assert(seq![s[0]] + rest =~= s);
    } else {
        assert(le_bytes(le_value(s), s.len()) =~= s);
    }
}

/// A number survives being written big-endian and read back.
pub proof fn lemma_be_round_trip(x: nat, n: nat)
    requires
        x < byte_range(n),
    ensures
        be_value(be_bytes(x, n)) == x,
    decreases n,
{
    if n > 0 {
        let rest = be_bytes(x / 256, (n - 1) as nat);
        lemma_be_round_trip(x / 256, (n - 1) as nat);
        assert(be_bytes(x, n).drop_last() =~= rest);
    }
}

/// Bytes survive being read big-endian and written again.
pub proof fn lemma_be_bytes_of_value(s: Seq<u8>)
    ensures
        be_bytes(be_value(s), s.len()) == s,
        be_value(s) < byte_range(s.len()),
    decreases s.len(),
{
    if s.len() > 0 {
        let rest = s.drop_last();
        lemma_be_bytes_of_value(rest);
        let v = be_value(s);
        assert(v % 256 == s.last() as nat);
        assert(v / 256 == be_value(rest));
        assert(rest.push(s.last()) =~= s);
    } else {
        assert(be_bytes(be_value(s), s.len()) =~= s);
    }
}

/// Two different numbers have different little-endian bytes.
pub proof fn lemma_le_injective(x: nat, y: nat, n: nat)
    requires
        x < byte_range(n),
        y < byte_range(n),
        le_bytes(x, n) == le_bytes(y, n),
    ensures
        x == y,
{
    lemma_le_round_trip(x, n);
    lemma_le_round_trip(y, n);
}

/// Writes `x` little-endian.
pub fn u64_to_le(x: u64) -> (out: [u8; 8])
    ensures
        out@ == le_bytes(x as nat, 8),
{
    let x1: u64 = x / 256;
    let x2: u64 = x1 / 256;
    let x3: u64 = x2 / 256;
    let x4: u64 = x3 / 256;
    let x5: u64 = x4 / 256;
    let x6: u64 = x5 / 256;
    let x7: u64 = x6 / 256;
    let out: [u8; 8] = [
        (x % 256) as u8,
        (x1 % 256) as u8,
        (x2 % 256) as u8,
        (x3 % 256) as u8,
        (x4 % 256) as u8,
        (x5 % 256) as u8,
        (x6 % 256) as u8,
        (x7 % 256) as u8,
    ];
    proof {
        reveal_with_fuel(le_bytes, 9);
        assert(out@ =~= le_bytes(x as nat, 8));
    }
    out
}

/// Writes `x` big-endian.
pub fn u64_to_be(x: u64) -> (out: [u8; 8])
    ensures
        out@ == be_bytes(x as nat, 8),
{
    let x1: u64 = x / 256;
    let x2: u64 = x1 / 256;
    let x3: u64 = x2 / 256;
    let x4: u64 = x3 / 256;
    let x5: u64 = x4 / 256;
    let x6: u64 = x5 / 256;
    let x7: u64 = x6 / 256;
    let out: [u8; 8] = [
        (x7 % 256) as u8,
        (x6 % 256) as u8,
        (x5 % 256) as u8,
        (x4 % 256) as u8,
        (x3 % 256) as u8,
        (x2 % 256) as u8,
        (x1 % 256) as u8,
        (x % 256) as u8,
    ];
    proof {
        reveal_with_fuel(be_bytes, 9);
        assert(out@ =~= be_bytes(x as nat, 8));
    }
    out
}

/// Writes `x` big-endian.
pub fn u32_to_be(x: u32) -> (out: [u8; 4])
    ensures
        out@ == be_bytes(x as nat, 4),
{
    let x1: u32 = x / 256;
    let x2: u32 = x1 / 256;
    let x3: u32 = x2 / 256;
    let out: [u8; 4] = [
        (x3 % 256) as u8,
        (x2 % 256) as u8,
        (x1 % 256) as u8,
        (x % 256) as u8,
    ];
    proof {
        reveal_with_fuel(be_bytes, 5);
        assert(out@ =~= be_bytes(x as nat, 4));
    }
    out
}

/// Reads the eight bytes at `off` little-endian.
pub fn u64_from_le(bytes: &[u8], off: usize) -> (x: u64)
    requires
        off + 8 <= bytes@.len(),
    ensures
        x == le_value(bytes@.subrange(off as int, off + 8)),
{
    let mut acc: u64 = 0;
    let mut i: usize = 8;
    proof {
        assert(bytes@.subrange(off + 8, off + 8) =~= Seq::<u8>::empty());
    }
    while i > 0
        invariant
            off + 8 <= bytes.len(),
            i <= 8,
            acc == le_value(bytes@.subrange(off + i, off + 8)),
        decreases i,
    {
        i = i - 1;
        let ghost tail = bytes@.subrange(off + i + 1, off + 8);
        let ghost s = bytes@.subrange(off + i, off + 8);
        proof {
            assert(s.drop_first() =~= tail);
            lemma_le_bytes_of_value(s);
            lemma_byte_range_mono(s.len(), 8);
            lemma_byte_range_8();
        }
        acc = bytes[off + i] as u64 + 256 * acc;
    }
    acc
}

proof fn lemma_byte_range_mono(m: nat, n: nat)
    requires
        m <= n,
    ensures
        byte_range(m) <= byte_range(n),
        byte_range(m) >= 1,
    decreases n,
{
    if m < n {
        lemma_byte_range_mono(m, (n - 1) as nat);
    } else if n > 0 {
        lemma_byte_range_mono((m - 1) as nat, (n - 1) as nat);
    }
}

/// Reads the eight bytes at `off` big-endian.
pub fn u64_from_be(bytes: &[u8], off: usize) -> (x: u64)
    requires
        off + 8 <= bytes@.len(),
    ensures
        x == be_value(bytes@.subrange(off as int, off + 8)),
{
    let mut acc: u64 = 0;
    let mut i: usize = 0;
    proof {
        assert(bytes@.subrange(off as int, off as int) =~= Seq::<u8>::empty());
    }
    while i < 8
        invariant
            off + 8 <= bytes.len(),
            i <= 8,
            acc == be_value(bytes@.subrange(off as int, off + i)),
        decreases 8 - i,
    {
        let ghost s = bytes@.subrange(off as int, off + i + 1);
        proof {
            assert(s.drop_last() =~= bytes@.subrange(off as int, off + i));
            lemma_be_bytes_of_value(s);
            lemma_byte_range_mono(s.len(), 8);
            lemma_byte_range_8();
        }
        acc = 256 * acc + bytes[off + i] as u64;
        i = i + 1;
    }
    acc
}

/// Reads four big-endian bytes at `off`.
pub fn u32_from_be(bytes: &[u8], off: usize) -> (x: u32)
    requires
        off + 4 <= bytes@.len(),
    ensures
        x == be_value(bytes@.subrange(off as int, off + 4)),
{
    let mut acc: u32 = 0;
    let mut i: usize = 0;
    proof {
        assert(bytes@.subrange(off as int, off as int) =~= Seq::<u8>::empty());
    }
    while i < 4
        invariant
            off + 4 <= bytes.len(),
            i <= 4,
            acc == be_value(bytes@.subrange(off as int, off + i)),
        decreases 4 - i,
    {
        let ghost s = bytes@.subrange(off as int, off + i + 1);
        proof {
            assert(s.drop_last() =~= bytes@.subrange(off as int, off + i));
            lemma_be_bytes_of_value(s);
            lemma_byte_range_mono(s.len(), 4);
            lemma_byte_range_8();
        }
        acc = 256 * acc + bytes[off + i] as u32;
        i = i + 1;
    }
    acc
}

/// Appends `tail` to `out`.
pub fn extend(out: &mut Vec<u8>, tail: &[u8])
    ensures
        final(out)@ == old(out)@ + tail@,
{
    let mut i: usize = 0;
    proof {
        assert(out@ =~= old(out)@ + tail@.subrange(0, 0));
    }
    while i < tail.len()
        invariant
            i <= tail@.len(),
            out@ == old(out)@ + tail@.subrange(0, i as int),
        decreases tail@.len() - i,
    {
        out.push(tail[i]);
        proof {
            assert(out@ =~= old(out)@ + tail@.subrange(0, i + 1));
        }
        i = i + 1;
    }
    proof {
        assert(tail@.subrange(0, i as int) =~= tail@);
    }
}

/// An owned copy of `bytes`.
pub fn copy_bytes(bytes: &[u8]) -> (out: Vec<u8>)
    ensures
        out@ == bytes@,
{
    let mut out: Vec<u8> = Vec::new();
    extend(&mut out, bytes);
    proof {
        assert(out@ =~= bytes@);
    }
    out
}

/// The sixteen bytes at `off`.
pub fn take_16(bytes: &[u8], off: usize) -> (out: [u8; 16])
    requires
        off + 16 <= bytes@.len(),
    ensures
        out@ == bytes@.subrange(off as int, off + 16),
{
    let mut out: [u8; 16] = [0u8; 16];
    let mut i: usize = 0;
    while i < 16
        invariant
            off + 16 <= bytes.len(),
            i <= 16,
            out@.len() == 16,
            forall|j: int| 0 <= j < i ==> out@[j] == bytes@[off + j],
        decreases 16 - i,
    {
        out[i] = bytes[off + i];
        i = i + 1;
    }
    proof {
        assert(out@ =~= bytes@.subrange(off as int, off + 16));
    }
    out
}

/// Whether two ids are the same.
pub fn same_id(a: &[u8; 16], b: &[u8; 16]) -> (same: bool)
    ensures
        same == (*a == *b),
{
    let mut i: usize = 0;
    while i < 16
        invariant
            i <= 16,
            forall|j: int| 0 <= j < i ==> a@[j] == b@[j],
        decreases 16 - i,
    {
        if a[i] != b[i] {
            return false;
        }
        i = i + 1;
    }
    proof {
        assert(a@ =~= b@);
        assert(*a =~= *b);
    }
    true
}

/// Whether two byte strings are the same.
pub fn same_bytes(a: &[u8], b: &[u8]) -> (same: bool)
    ensures
        same == (a@ == b@),
{
    if a.len() != b.len() {
        return false;
    }
    let mut i: usize = 0;
    while i < a.len()
        invariant
            a@.len() == b@.len(),
            i <= a@.len(),
            forall|j: int| 0 <= j < i ==> a@[j] == b@[j],
        decreases a@.len() - i,
    {
        if a[i] != b[i] {
            return false;
        }
        i = i + 1;
    }
    proof {
        assert(a@ =~= b@);
    }
    true
}

} // verus!
