//! Integers as bytes on the wire, and how they are read and written.

use vstd::prelude::*;

verus! {

/// The number that two bytes hold, low byte first.
pub open spec fn u16_of_le(b: Seq<u8>) -> u16 {
    (b[0] + b[1] * 0x100) as u16
}

/// The number that four bytes hold, low byte first.
pub open spec fn u32_of_le(b: Seq<u8>) -> u32 {
    (b[0] + b[1] * 0x100 + b[2] * 0x1_0000 + b[3] * 0x100_0000) as u32
}

/// The four bytes of a number, low byte first.
pub open spec fn le_of_u32(x: u32) -> Seq<u8> {
    seq![
        (x % 0x100) as u8,
        (x / 0x100 % 0x100) as u8,
        (x / 0x1_0000 % 0x100) as u8,
        (x / 0x100_0000) as u8,
    ]
}

/// The number that some bytes hold, high byte first.
pub open spec fn nat_of_be(b: Seq<u8>) -> nat
    decreases b.len(),
{
    if b.len() == 0 {
        0
    } else {
        nat_of_be(b.drop_last()) * 0x100 + b.last() as nat
    }
}

/// The last `count` bytes of a number, high byte first.
pub open spec fn be_of_nat(x: nat, count: nat) -> Seq<u8>
    decreases count,
{
    if count == 0 {
        seq![]
    } else {
        be_of_nat(x / 0x100, (count - 1) as nat).push((x % 0x100) as u8)
    }
}

/// The bytes of a 32-bit number give the number back.
pub proof fn u32_survives_le(x: u32)
    ensures
        le_of_u32(x).len() == 4,
        u32_of_le(le_of_u32(x)) == x,
{
}

/// Four bytes are the bytes of the number that they hold.
pub proof fn le_survives_u32(b: Seq<u8>)
    requires
        b.len() == 4,
    ensures
        le_of_u32(u32_of_le(b)) == b,
{
    let x = u32_of_le(b) as int;
    let rest = b[1] + 0x100 * (b[2] + 0x100 * b[3]);
    assert(x == b[0] + 0x100 * rest);
    assert(x / 0x100 == rest && x % 0x100 == b[0]);
    assert(rest / 0x100 == b[2] + 0x100 * b[3] && rest % 0x100 == b[1]);
    assert(x / 0x1_0000 == rest / 0x100);
    assert(x / 0x100_0000 == b[3]);
}

/// As many bytes as a number needs give the number back.
pub proof fn nat_survives_be(x: nat, count: nat)
    requires
        x < vstd::arithmetic::power::pow(0x100, count),
    ensures
        be_of_nat(x, count).len() == count,
        nat_of_be(be_of_nat(x, count)) == x,
    decreases count,
{
    reveal(vstd::arithmetic::power::pow);
    if count > 0 {
        let p = vstd::arithmetic::power::pow(0x100, (count - 1) as nat);
        assert(x < 0x100 * p);
        assert(x / 0x100 < p);
        nat_survives_be(x / 0x100, (count - 1) as nat);
        assert(be_of_nat(x, count).drop_last() == be_of_nat(x / 0x100, (count - 1) as nat));
    }
}

/// Reads two bytes of a slice, low byte first.
pub fn read_u16_le(data: &[u8], at: usize) -> (r: u16)
    requires
        at + 2 <= data@.len(),
    ensures
        r == u16_of_le(data@.subrange(at as int, at + 2)),
{
    data[at] as u16 + data[at + 1] as u16 * 0x100
}

/// Reads four bytes of a slice, low byte first.
pub fn read_u32_le(data: &[u8], at: usize) -> (r: u32)
    requires
        at + 4 <= data@.len(),
    ensures
        r == u32_of_le(data@.subrange(at as int, at + 4)),
{
    data[at] as u32 + data[at + 1] as u32 * 0x100 + data[at + 2] as u32 * 0x1_0000 + data[at
        + 3] as u32 * 0x100_0000
}

/// The four bytes of a number, low byte first.
pub fn u32_to_le(x: u32) -> (r: [u8; 4])
    ensures
        r@ == le_of_u32(x),
{
    [
        (x % 0x100) as u8,
        (x / 0x100 % 0x100) as u8,
        (x / 0x1_0000 % 0x100) as u8,
        (x / 0x100_0000) as u8,
    ]
}

/// So many bytes hold a number below the power of 256 to that count.
proof fn lemma_be_bound(b: Seq<u8>)
    ensures
        nat_of_be(b) < vstd::arithmetic::power::pow(0x100, b.len()),
    decreases b.len(),
{
    reveal(vstd::arithmetic::power::pow);
    if b.len() > 0 {
        lemma_be_bound(b.drop_last());
    }
}

/// Reads at most eight bytes of a slice, high byte first.
pub fn read_be(data: &[u8], at: usize, count: usize) -> (r: u64)
    requires
        count <= 8,
        at + count <= data@.len(),
    ensures
        r == nat_of_be(data@.subrange(at as int, at + count)),
{
    let size: usize = data.len();
    let mut value: u64 = 0;
    let mut i: usize = 0;
    while i < count
        invariant
            i <= count <= 8,
            at + count <= size,
            size == data@.len(),
            value == nat_of_be(data@.subrange(at as int, at + i)),
        decreases count - i,
    {
        let ghost read = data@.subrange(at as int, at + i);
        let ghost next = data@.subrange(at as int, at + i + 1);
        proof {
            assert(next.drop_last() == read);
            lemma_be_bound(read);
            vstd::arithmetic::power::lemma_pow_increases(0x100, i as nat, 7);
            reveal_with_fuel(vstd::arithmetic::power::pow, 8);
            assert(vstd::arithmetic::power::pow(0x100, 7) == 0x100_0000_0000_0000);
        }
        value = value * 0x100 + data[at + i] as u64;
        i = i + 1;
    }
    value
}

/// A number takes as many bytes as are asked for.
pub proof fn be_length(x: nat, count: nat)
    ensures
        be_of_nat(x, count).len() == count,
    decreases count,
{
    if count > 0 {
        be_length(x / 0x100, (count - 1) as nat);
    }
}

/// Writes the last `count` bytes of a number, high byte first.
pub fn push_be(out: &mut Vec<u8>, x: u64, count: usize)
    ensures
        final(out)@ == old(out)@ + be_of_nat(x as nat, count as nat),
    decreases count,
{
    if count > 0 {
        push_be(out, x / 0x100, count - 1);
        out.push((x % 0x100) as u8);
    }
    proof {
        assert(out@ == old(out)@ + be_of_nat(x as nat, count as nat));
    }
}

/// In numbers of two and of four bytes the low bytes come first.
pub proof fn low_bytes_come_first(a: u8, b: u8, c: u8, d: u8)
    ensures
        u16_of_le(seq![a, b]) == a + 256 * b,
        u32_of_le(seq![a, b, c, d]) == a + 256 * (b + 256 * (c + 256 * d)),
{
}

/// In all other numbers the high bytes come first.
pub proof fn high_bytes_come_first(high: u8, rest: Seq<u8>)
    ensures
        nat_of_be(seq![high] + rest) == high * vstd::arithmetic::power::pow(0x100, rest.len())
            + nat_of_be(rest),
        nat_of_be(seq![]) == 0,
    decreases rest.len(),
{
    reveal(vstd::arithmetic::power::pow);
    let all = seq![high] + rest;
    if rest.len() == 0 {
        assert(all.drop_last() == Seq::<u8>::empty());
        assert(nat_of_be(all.drop_last()) == 0);
        assert(vstd::arithmetic::power::pow(0x100, 0) == 1);
    } else {
        high_bytes_come_first(high, rest.drop_last());
        assert(all.drop_last() == seq![high] + rest.drop_last());
        let p = vstd::arithmetic::power::pow(0x100, (rest.len() - 1) as nat);
        assert((high * p) * 0x100 == high * (0x100 * p)) by (nonlinear_arith);
        assert(vstd::arithmetic::power::pow(0x100, rest.len()) == 0x100 * p);
        assert(all.last() == rest.last());
    }
}

} // verus!
