//! Bounds-checked little-endian accessors over byte buffers.
use vstd::prelude::*;

verus! {

/// The byte at `p`, as a number.
pub open spec fn le_u8(b: Seq<u8>, p: int) -> int {
    b[p] as int
}

/// The little-endian 16-bit integer stored at `p`.
pub open spec fn le_u16(b: Seq<u8>, p: int) -> int {
    b[p] as int + 0x100 * (b[p + 1] as int)
}

/// The little-endian 32-bit integer stored at `p`.
pub open spec fn le_u32(b: Seq<u8>, p: int) -> int {
    le_u16(b, p) + 0x1_0000 * le_u16(b, p + 2)
}

/// The little-endian 64-bit integer stored at `p`.
pub open spec fn le_u64(b: Seq<u8>, p: int) -> int {
    le_u32(b, p) + 0x1_0000_0000 * le_u32(b, p + 4)
}

/// True when `n` bytes starting at `p` lie inside `b`.
pub open spec fn fits(b: Seq<u8>, p: int, n: int) -> bool {
    0 <= p && p + n <= b.len()
}

pub fn read_u8(buffer: &Vec<u8>, position: usize) -> (r: u8)
    requires
        fits(buffer@, position as int, 1),
    ensures
        r as int == le_u8(buffer@, position as int),
{
    buffer[position]
}

pub fn read_u16(buffer: &Vec<u8>, position: usize) -> (r: u16)
    requires
        fits(buffer@, position as int, 2),
    ensures
        r as int == le_u16(buffer@, position as int),
{
    let len = buffer.len();
    assert(position + 2 <= len);
    buffer[position] as u16 + 0x100 * (buffer[position + 1] as u16)
}

pub fn read_u32(buffer: &Vec<u8>, position: usize) -> (r: u32)
    requires
        fits(buffer@, position as int, 4),
    ensures
        r as int == le_u32(buffer@, position as int),
{
    let len = buffer.len();
    assert(position + 4 <= len);
    let lo = read_u16(buffer, position) as u32;
    let hi = read_u16(buffer, position + 2) as u32;
    lo + 0x1_0000 * hi
}

pub fn read_u64(buffer: &Vec<u8>, position: usize) -> (r: u64)
    requires
        fits(buffer@, position as int, 8),
    ensures
        r as int == le_u64(buffer@, position as int),
{
    let len = buffer.len();
    assert(position + 8 <= len);
    let lo = read_u32(buffer, position) as u64;
    let hi = read_u32(buffer, position + 4) as u64;
    lo + 0x1_0000_0000 * hi
}

/// Stores `value` little-endian in the eight bytes at `position`; every other
/// byte keeps its value.
pub fn write_u64(buffer: &mut Vec<u8>, position: usize, value: u64)
    requires
        fits(old(buffer)@, position as int, 8),
    ensures
        final(buffer)@.len() == old(buffer)@.len(),
        le_u64(final(buffer)@, position as int) == value as int,
        forall|j: int|
            0 <= j < old(buffer)@.len() && !(position <= j < position + 8) ==> final(buffer)@[j]
                == old(buffer)@[j],
{
    let mut rest: u64 = value;
    let mut i: usize = 0;
    while i < 8
        invariant
            i <= 8,
            position + 8 <= buffer.len(),
            buffer@.len() == old(buffer)@.len(),
            value as int == le_prefix(buffer@, position as int, i as int) + pow256(i as int)
                * rest,
            forall|j: int|
                0 <= j < old(buffer)@.len() && !(position <= j < position + i) ==> buffer@[j]
                    == old(buffer)@[j],
        decreases 8 - i,
    {
        let byte = (rest % 0x100) as u8;
        let ghost before = buffer@;
        buffer.set(position + i, byte);
        proof {
            let p = position as int;
            let k = i as int;
            lemma_le_prefix_frame(before, buffer@, p, k);
            let q = pow256(k);
            let r = rest as int;
            assert(r == r % 0x100 + 0x100 * (r / 0x100));
            assert(q * r == q * (r % 0x100) + (0x100 * q) * (r / 0x100)) by (nonlinear_arith)
                requires
                    r == r % 0x100 + 0x100 * (r / 0x100),
            ;
            assert(le_prefix(buffer@, p, k + 1) == le_prefix(buffer@, p, k) + q * (r % 0x100));
        }
        rest = rest / 0x100;
        i = i + 1;
    }
    proof {
        let b = buffer@;
        let p = position as int;
        lemma_pow256_values();
        lemma_le_prefix_step(b, p, 0, 1);
        lemma_le_prefix_step(b, p, 1, 0x100);
        lemma_le_prefix_step(b, p, 2, 0x1_0000);
        lemma_le_prefix_step(b, p, 3, 0x100_0000);
        lemma_le_prefix_step(b, p, 4, 0x1_0000_0000);
        lemma_le_prefix_step(b, p, 5, 0x100_0000_0000);
        lemma_le_prefix_step(b, p, 6, 0x1_0000_0000_0000);
        lemma_le_prefix_step(b, p, 7, 0x100_0000_0000_0000);
        assert(le_prefix(b, p, 8) == le_u64(b, p));
        assert(rest == 0);
    }
}

/// 256 to the power `n`.
pub open spec fn pow256(n: int) -> int
    decreases n,
{
    if n <= 0 {
        1
    } else {
        0x100 * pow256(n - 1)
    }
}

/// The little-endian value of the `n` bytes starting at `p`.
pub open spec fn le_prefix(b: Seq<u8>, p: int, n: int) -> int
    decreases n,
{
    if n <= 0 {
        0
    } else {
        le_prefix(b, p, n - 1) + pow256(n - 1) * (b[p + n - 1] as int)
    }
}

proof fn lemma_pow256_values()
    ensures
        pow256(0) == 1,
        pow256(1) == 0x100,
        pow256(2) == 0x1_0000,
        pow256(3) == 0x100_0000,
        pow256(4) == 0x1_0000_0000,
        pow256(5) == 0x100_0000_0000,
        pow256(6) == 0x1_0000_0000_0000,
        pow256(7) == 0x100_0000_0000_0000,
        pow256(8) == 0x1_0000_0000_0000_0000,
{
    reveal_with_fuel(pow256, 9);
}

proof fn lemma_le_prefix_step(b: Seq<u8>, p: int, k: int, c: int)
    requires
        k >= 0,
        pow256(k) == c,
    ensures
        le_prefix(b, p, k + 1) == le_prefix(b, p, k) + c * (b[p + k] as int),
{
    let x = b[p + k] as int;
    let q = pow256(k);
    assert(le_prefix(b, p, k + 1) == le_prefix(b, p, k) + q * x);
    assert(q * x == c * x) by (nonlinear_arith)
        requires
            q == c,
    ;
}

proof fn lemma_le_prefix_frame(a: Seq<u8>, b: Seq<u8>, p: int, n: int)
    requires
        forall|j: int| p <= j < p + n ==> a[j] == b[j],
    ensures
        le_prefix(a, p, n) == le_prefix(b, p, n),
    decreases n,
{
    if n > 0 {
        lemma_le_prefix_frame(a, b, p, n - 1);
    }
}

} // verus!
