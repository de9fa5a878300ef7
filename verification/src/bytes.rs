//! Little-endian integers and byte ranges inside a memory region.
//!
//! A region is a plain sequence of bytes. Integers are stored in it low byte first.
use vstd::prelude::*;

verus! {

/// The `n` low bytes of `v`, low byte first.
pub open spec fn le_bytes(v: nat, n: nat) -> Seq<u8>
    decreases n,
{
    if n == 0 {
        Seq::empty()
    } else {
        seq![(v % 256) as u8] + le_bytes(v / 256, (n - 1) as nat)
    }
}

/// The number that `s` spells, low byte first.
pub open spec fn le_value(s: Seq<u8>) -> nat
    decreases s.len(),
{
    if s.len() == 0 {
        0
    } else {
        s[0] as nat + 256 * le_value(s.drop_first())
    }
}

/// `mem` with `data` written over it from position `at` on.
pub open spec fn splice(mem: Seq<u8>, at: int, data: Seq<u8>) -> Seq<u8> {
    Seq::new(
        mem.len(),
        |i: int|
            if at <= i < at + data.len() {
                data[i - at]
            } else {
                mem[i]
            },
    )
}

/// The 32-bit number at `at`.
pub open spec fn u32_at(mem: Seq<u8>, at: int) -> u32 {
    le_value(mem.subrange(at, at + 4)) as u32
}

/// The 64-bit number at `at`.
pub open spec fn u64_at(mem: Seq<u8>, at: int) -> u64 {
    le_value(mem.subrange(at, at + 8)) as u64
}

/// `mem` with the 32-bit number `v` at `at`.
pub open spec fn with_u32(mem: Seq<u8>, at: int, v: u32) -> Seq<u8> {
    splice(mem, at, le_bytes(v as nat, 4))
}

/// `mem` with the 64-bit number `v` at `at`.
pub open spec fn with_u64(mem: Seq<u8>, at: int, v: u64) -> Seq<u8> {
    splice(mem, at, le_bytes(v as nat, 8))
}

/// The first exclusive bound of an `n`-byte number.
pub open spec fn pow256(n: nat) -> nat
    decreases n,
{
    if n == 0 {
        1
    } else {
        256 * pow256((n - 1) as nat)
    }
}

pub proof fn lemma_pow256_values()
    ensures
        pow256(4) == 0x1_0000_0000,
        pow256(8) == 0x1_0000_0000_0000_0000,
{
    reveal_with_fuel(pow256, 9);
}

pub proof fn lemma_pow256_monotone(a: nat, b: nat)
    requires
        a <= b,
    ensures
        pow256(a) <= pow256(b),
    decreases b,
{
    if a < b {
        lemma_pow256_monotone(a, (b - 1) as nat);
    }
}

pub proof fn lemma_le_bytes_len(v: nat, n: nat)
    ensures
        le_bytes(v, n).len() == n,
    decreases n,
{
    if n > 0 {
        lemma_le_bytes_len(v / 256, (n - 1) as nat);
    }
}

pub proof fn lemma_le_value_bound(s: Seq<u8>)
    ensures
        le_value(s) < pow256(s.len()),
    decreases s.len(),
{
    if s.len() > 0 {
        lemma_le_value_bound(s.drop_first());
    }
}

/// Reading back a number that was written in `n` bytes gives the number.
pub proof fn lemma_le_roundtrip(v: nat, n: nat)
    requires
        v < pow256(n),
    ensures
        le_bytes(v, n).len() == n,
        le_value(le_bytes(v, n)) == v,
    decreases n,
{
    lemma_le_bytes_len(v, n);
    if n > 0 {
        lemma_le_roundtrip(v / 256, (n - 1) as nat);
        assert(le_bytes(v, n).drop_first() =~= le_bytes(v / 256, (n - 1) as nat));
    }
}

/// A 32-bit number reads back as it was written.
pub proof fn lemma_u32_same(mem: Seq<u8>, at: int, v: u32)
    requires
        0 <= at,
        at + 4 <= mem.len(),
    ensures
        with_u32(mem, at, v).len() == mem.len(),
        u32_at(with_u32(mem, at, v), at) == v,
{
    lemma_pow256_values();
    lemma_le_roundtrip(v as nat, 4);
    assert(with_u32(mem, at, v).subrange(at, at + 4) =~= le_bytes(v as nat, 4));
}

/// A 64-bit number reads back as it was written.
pub proof fn lemma_u64_same(mem: Seq<u8>, at: int, v: u64)
    requires
        0 <= at,
        at + 8 <= mem.len(),
    ensures
        with_u64(mem, at, v).len() == mem.len(),
        u64_at(with_u64(mem, at, v), at) == v,
{
    lemma_pow256_values();
    lemma_le_roundtrip(v as nat, 8);
    assert(with_u64(mem, at, v).subrange(at, at + 8) =~= le_bytes(v as nat, 8));
}

/// Whether two regions hold the same bytes from `from` up to `to`.
pub open spec fn same_range(a: Seq<u8>, b: Seq<u8>, from: int, to: int) -> bool {
    &&& 0 <= from
    &&& to <= a.len()
    &&& to <= b.len()
    &&& forall|i: int| from <= i < to ==> a[i] == b[i]
}

/// Two regions that agree on a range hold the same numbers there.
pub proof fn lemma_same_u32(a: Seq<u8>, b: Seq<u8>, from: int, to: int, at: int)
    requires
        same_range(a, b, from, to),
        from <= at,
        at + 4 <= to,
    ensures
        u32_at(a, at) == u32_at(b, at),
{
    assert(a.subrange(at, at + 4) =~= b.subrange(at, at + 4));
}

/// Two regions that agree on a range hold the same numbers there.
pub proof fn lemma_same_u64(a: Seq<u8>, b: Seq<u8>, from: int, to: int, at: int)
    requires
        same_range(a, b, from, to),
        from <= at,
        at + 8 <= to,
    ensures
        u64_at(a, at) == u64_at(b, at),
{
    assert(a.subrange(at, at + 8) =~= b.subrange(at, at + 8));
}

fn get_le(mem: &[u8], at: usize, n: usize) -> (v: u64)
    requires
        n <= 8,
        at + n <= mem@.len(),
    ensures
        v == le_value(mem@.subrange(at as int, at + n)),
        v < pow256(n as nat),
{
    let mut i: usize = n;
    let mut v: u64 = 0;
    proof {
        lemma_pow256_values();
        lemma_pow256_monotone(0, n as nat);
    }
    while i > 0
        invariant
            i <= n <= 8,
            at + n <= mem@.len(),
            v == le_value(mem@.subrange(at + i, at + n)),
        decreases i,
    {
        let ghost rest = mem@.subrange(at + i, at + n);
        i = i - 1;
        proof {
            let whole = mem@.subrange(at + i, at + n);
            assert(whole.drop_first() =~= rest);
            lemma_le_value_bound(whole);
            lemma_pow256_monotone(whole.len(), 8);
            lemma_pow256_values();
        }
        assert(at + n <= mem.len());
        v = v * 256 + mem[at + i] as u64;
    }
    proof {
        lemma_le_value_bound(mem@.subrange(at as int, at + n));
    }
    v
}

fn put_le(mem: &mut [u8], at: usize, v: u64, n: usize)
    requires
        n <= 8,
        at + n <= old(mem)@.len(),
    ensures
        final(mem)@ == splice(old(mem)@, at as int, le_bytes(v as nat, n as nat)),
{
    let ghost before = mem@;
    let ghost all = le_bytes(v as nat, n as nat);
    let mut i: usize = 0;
    let mut rest: u64 = v;
    proof {
        lemma_le_bytes_len(v as nat, n as nat);
        assert(all.skip(0) =~= all);
    }
    assert(mem@ =~= splice(before, at as int, all.take(0)));
    while i < n
        invariant
            i <= n <= 8,
            at + n <= before.len(),
            all == le_bytes(v as nat, n as nat),
            all.len() == n,
            all.skip(i as int) == le_bytes(rest as nat, (n - i) as nat),
            mem@ == splice(before, at as int, all.take(i as int)),
        decreases n - i,
    {
        proof {
            lemma_le_bytes_len((rest / 256) as nat, (n - i - 1) as nat);
            assert(all.skip(i as int)[0] == all[i as int]);
            assert(all.skip(i as int).drop_first() =~= all.skip(i + 1));
            assert(le_bytes(rest as nat, (n - i) as nat).drop_first() =~= le_bytes(
                (rest / 256) as nat,
                (n - i - 1) as nat,
            ));
        }
        assert(at + n <= mem.len());
        mem[at + i] = (rest % 256) as u8;
        assert(mem@ =~= splice(before, at as int, all.take(i + 1)));
        rest = rest / 256;
        i = i + 1;
    }
    assert(all.take(n as int) =~= all);
}

/// Reads the 32-bit number at `at`.
pub fn get_u32(mem: &[u8], at: usize) -> (v: u32)
    requires
        at + 4 <= mem@.len(),
    ensures
        v == u32_at(mem@, at as int),
{
    proof {
        lemma_pow256_values();
    }
    get_le(mem, at, 4) as u32
}

/// Reads the 64-bit number at `at`.
pub fn get_u64(mem: &[u8], at: usize) -> (v: u64)
    requires
        at + 8 <= mem@.len(),
    ensures
        v == u64_at(mem@, at as int),
{
    get_le(mem, at, 8)
}

/// Writes the 32-bit number `v` at `at`.
pub fn put_u32(mem: &mut [u8], at: usize, v: u32)
    requires
        at + 4 <= old(mem)@.len(),
    ensures
        final(mem)@ == with_u32(old(mem)@, at as int, v),
{
    put_le(mem, at, v as u64, 4)
}

/// Writes the 64-bit number `v` at `at`.
pub fn put_u64(mem: &mut [u8], at: usize, v: u64)
    requires
        at + 8 <= old(mem)@.len(),
    ensures
        final(mem)@ == with_u64(old(mem)@, at as int, v),
{
    put_le(mem, at, v, 8)
}

/// Copies `data` into `mem` from position `at` on.
pub fn copy_in(mem: &mut [u8], at: usize, data: &[u8])
    requires
        at + data@.len() <= old(mem)@.len(),
    ensures
        final(mem)@ == splice(old(mem)@, at as int, data@),
{
    let ghost before = mem@;
    let n: usize = data.len();
    let mut i: usize = 0;
    assert(mem@ =~= splice(before, at as int, data@.take(0)));
    while i < n
        invariant
            i <= n,
            n == data@.len(),
            at + n <= before.len(),
            mem@ == splice(before, at as int, data@.take(i as int)),
        decreases n - i,
    {
        assert(at + n <= mem.len());
        mem[at + i] = data[i];
        assert(mem@ =~= splice(before, at as int, data@.take(i + 1)));
        i = i + 1;
    }
    assert(data@.take(n as int) =~= data@);
}

/// Copies the `n` bytes of `mem` from position `at` on to the start of `buf`.
pub fn copy_out(mem: &[u8], at: usize, buf: &mut [u8], n: usize)
    requires
        at + n <= mem@.len(),
        n <= old(buf)@.len(),
    ensures
        final(buf)@ == splice(old(buf)@, 0, mem@.subrange(at as int, at + n)),
{
    let ghost before = buf@;
    let mut i: usize = 0;
    assert(buf@ =~= splice(before, 0, mem@.subrange(at as int, at as int)));
    while i < n
        invariant
            i <= n,
            at + n <= mem@.len(),
            n <= before.len(),
            buf@ == splice(before, 0, mem@.subrange(at as int, at + i)),
        decreases n - i,
    {
        assert(at + n <= mem.len());
        buf[i] = mem[at + i];
        assert(buf@ =~= splice(before, 0, mem@.subrange(at as int, at + i + 1)));
        i = i + 1;
    }
}

/// The `n` bytes of `mem` from position `at` on, as a vector of their own.
pub fn copy_range(mem: &[u8], at: usize, n: usize) -> (out: Vec<u8>)
    requires
        at + n <= mem@.len(),
    ensures
        out@ == mem@.subrange(at as int, at + n),
{
    let mut out: Vec<u8> = Vec::new();
    let mut i: usize = 0;
    while i < n
        invariant
            i <= n,
            at + n <= mem@.len(),
            out@ == mem@.subrange(at as int, at + i),
        decreases n - i,
    {
        assert(at + n <= mem.len());
        out.push(mem[at + i]);
        assert(out@ =~= mem@.subrange(at as int, at + i + 1));
        i = i + 1;
    }
    out
}

/// A number in four bytes, the lowest first.
proof fn lemma_four_bytes(s: Seq<u8>)
    requires
        s.len() == 4,
    ensures
        le_value(s) == s[0] + 0x100 * s[1] + 0x1_0000 * s[2] + 0x100_0000 * s[3],
{
    let s1 = s.drop_first();
    let s2 = s1.drop_first();
    let s3 = s2.drop_first();
    assert(s3.drop_first() =~= Seq::<u8>::empty());
    assert(le_value(s3.drop_first()) == 0);
    assert(le_value(s3) == s[3]);
    assert(le_value(s2) == s[2] + 0x100 * s[3]);
    assert(le_value(s1) == s[1] + 0x100 * s[2] + 0x1_0000 * s[3]);
}

/// A 32-bit number lies in four bytes, the lowest first. To write one makes it what is read there,
/// and changes no other byte.
pub proof fn law_u32_in_bytes(mem: Seq<u8>, at: int, v: u32)
    requires
        0 <= at,
        at + 4 <= mem.len(),
    ensures
        u32_at(mem, at) == mem[at] + 0x100 * mem[at + 1] + 0x1_0000 * mem[at + 2] + 0x100_0000
            * mem[at + 3],
        u32_at(with_u32(mem, at, v), at) == v,
        with_u32(mem, at, v).len() == mem.len(),
        forall|i: int|
            0 <= i < mem.len() && !(at <= i < at + 4) ==> #[trigger] with_u32(mem, at, v)[i]
                == mem[i],
{
    lemma_four_bytes(mem.subrange(at, at + 4));
    lemma_u32_same(mem, at, v);
    lemma_le_bytes_len(v as nat, 4);
}

/// A 64-bit number lies in eight bytes, the lowest first. To write one makes it what is read
/// there, and changes no other byte.
pub proof fn law_u64_in_bytes(mem: Seq<u8>, at: int, v: u64)
    requires
        0 <= at,
        at + 8 <= mem.len(),
    ensures
        u64_at(mem, at) == mem[at] + 0x100 * mem[at + 1] + 0x1_0000 * mem[at + 2] + 0x100_0000
            * mem[at + 3] + 0x1_0000_0000 * mem[at + 4] + 0x100_0000_0000 * mem[at + 5]
            + 0x1_0000_0000_0000 * mem[at + 6] + 0x100_0000_0000_0000 * mem[at + 7],
        u64_at(with_u64(mem, at, v), at) == v,
        with_u64(mem, at, v).len() == mem.len(),
        forall|i: int|
            0 <= i < mem.len() && !(at <= i < at + 8) ==> #[trigger] with_u64(mem, at, v)[i]
                == mem[i],
{
    let s = mem.subrange(at, at + 8);
    let s1 = s.drop_first();
    let s2 = s1.drop_first();
    let s3 = s2.drop_first();
    let s4 = s3.drop_first();
    lemma_four_bytes(s4);
    assert(le_value(s3) == s[3] + 0x100 * le_value(s4));
    assert(le_value(s2) == s[2] + 0x100 * le_value(s3));
    assert(le_value(s1) == s[1] + 0x100 * le_value(s2));
    assert(le_value(s) == s[0] + 0x100 * le_value(s1));
    lemma_le_value_bound(s);
    lemma_pow256_values();
    lemma_u64_same(mem, at, v);
    lemma_le_bytes_len(v as nat, 8);
}

/// To write bytes makes them what is read there, and changes no other byte.
pub proof fn law_splice(mem: Seq<u8>, at: int, data: Seq<u8>)
    requires
        0 <= at,
        at + data.len() <= mem.len(),
    ensures
        splice(mem, at, data).len() == mem.len(),
        forall|i: int| 0 <= i < data.len() ==> splice(mem, at, data)[at + i] == #[trigger] data[i],
        forall|i: int|
            0 <= i < mem.len() && !(at <= i < at + data.len()) ==> #[trigger] splice(
                mem,
                at,
                data,
            )[i] == mem[i],
{
}

} // verus!
