//! Little-endian integers inside byte sequences, and the 8-byte alignment
//! that the boot protocol imposes on tags.

use vstd::prelude::*;

verus! {

broadcast use vstd::slice::group_slice_axioms;

/// The unsigned 32-bit integer stored little-endian at `s[at .. at + 4]`.
pub open spec fn u32_at(s: Seq<u8>, at: int) -> u32
    recommends
        0 <= at,
        at + 4 <= s.len(),
{
    (s[at] as int + 0x100 * (s[at + 1] as int) + 0x1_0000 * (s[at + 2] as int) + 0x100_0000 * (
    s[at + 3] as int)) as u32
}

/// The unsigned 64-bit integer stored little-endian at `s[at .. at + 8]`.
pub open spec fn u64_at(s: Seq<u8>, at: int) -> u64
    recommends
        0 <= at,
        at + 8 <= s.len(),
{
    (u32_at(s, at) as int + 0x1_0000_0000 * (u32_at(s, at + 4) as int)) as u64
}

/// `n` rounded up to the next multiple of 8.
pub open spec fn align_up(n: int) -> int {
    if n % 8 == 0 {
        n
    } else {
        n + 8 - n % 8
    }
}

/// The four bytes that store `x` little-endian.
#[verifier::opaque]
pub open spec fn le_u32(x: u32) -> Seq<u8> {
    seq![
        (x % 0x100) as u8,
        ((x / 0x100) % 0x100) as u8,
        ((x / 0x1_0000) % 0x100) as u8,
        (x / 0x100_0000) as u8,
    ]
}

/// The eight bytes that store `x` little-endian.
pub open spec fn le_u64(x: u64) -> Seq<u8> {
    le_u32((x % 0x1_0000_0000) as u32) + le_u32((x / 0x1_0000_0000) as u32)
}

/// Reading back what `le_u32` wrote gives the number that was written.
pub proof fn lemma_le_u32_round_trip(x: u32)
    ensures
        le_u32(x).len() == 4,
        u32_at(le_u32(x), 0) == x,
{
    reveal(le_u32);
}

/// Reading back what `le_u64` wrote gives the number that was written.
pub proof fn lemma_le_u64_round_trip(x: u64)
    ensures
        le_u64(x).len() == 8,
        u64_at(le_u64(x), 0) == x,
{
    let lo = (x % 0x1_0000_0000) as u32;
    let hi = (x / 0x1_0000_0000) as u32;
    lemma_le_u32_round_trip(lo);
    lemma_le_u32_round_trip(hi);
    assert(le_u64(x).subrange(0, 4) =~= le_u32(lo));
    assert(le_u64(x).subrange(4, 8) =~= le_u32(hi));
    lemma_u32_at_window(le_u64(x), 0, le_u32(lo));
    lemma_u32_at_window(le_u64(x), 4, le_u32(hi));
}

/// A 32-bit read depends only on the four bytes it covers.
pub proof fn lemma_u32_at_window(s: Seq<u8>, at: int, w: Seq<u8>)
    requires
        0 <= at,
        at + 4 <= s.len(),
        w.len() == 4,
        s.subrange(at, at + 4) == w,
    ensures
        u32_at(s, at) == u32_at(w, 0),
{
    assert(forall|k: int| 0 <= k < 4 ==> s[at + k] == #[trigger] s.subrange(at, at + 4)[k]);
    assert(w[0] == s[at] && w[1] == s[at + 1] && w[2] == s[at + 2] && w[3] == s[at + 3]);
}

/// A 32-bit read inside a part of a sequence is the same read in the whole.
pub proof fn lemma_u32_at_subrange(s: Seq<u8>, from: int, to: int, at: int)
    requires
        0 <= from,
        to <= s.len(),
        0 <= at,
        from + at + 4 <= to,
    ensures
        u32_at(s.subrange(from, to), at) == u32_at(s, from + at),
{
    let part = s.subrange(from, to);
    assert(part[at] == s[from + at]);
    assert(part[at + 1] == s[from + at + 1]);
    assert(part[at + 2] == s[from + at + 2]);
    assert(part[at + 3] == s[from + at + 3]);
}

/// A 64-bit read inside a part of a sequence is the same read in the whole.
pub proof fn lemma_u64_at_subrange(s: Seq<u8>, from: int, to: int, at: int)
    requires
        0 <= from,
        to <= s.len(),
        0 <= at,
        from + at + 8 <= to,
    ensures
        u64_at(s.subrange(from, to), at) == u64_at(s, from + at),
{
    lemma_u32_at_subrange(s, from, to, at);
    lemma_u32_at_subrange(s, from, to, at + 4);
}

/// Reads the little-endian `u32` at `bytes[at .. at + 4]`.
pub fn read_u32(bytes: &[u8], at: usize) -> (v: u32)
    requires
        at + 4 <= bytes@.len(),
    ensures
        v == u32_at(bytes@, at as int),
{
    let b0: u32 = bytes[at] as u32;
    let b1: u32 = bytes[at + 1] as u32;
    let b2: u32 = bytes[at + 2] as u32;
    let b3: u32 = bytes[at + 3] as u32;
    b0 + 0x100 * b1 + 0x1_0000 * b2 + 0x100_0000 * b3
}

/// Reads the little-endian `u64` at `bytes[at .. at + 8]`.
pub fn read_u64(bytes: &[u8], at: usize) -> (v: u64)
    requires
        at + 8 <= bytes@.len(),
    ensures
        v == u64_at(bytes@, at as int),
{
    assert(bytes@.len() == bytes.len());
    let lo: u64 = read_u32(bytes, at) as u64;
    let hi: u64 = read_u32(bytes, at + 4) as u64;
    lo + 0x1_0000_0000 * hi
}

} // verus!
