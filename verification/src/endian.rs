//! Little-endian integers: the digits of a number in base 256, lowest first.
//!
//! Signed numbers travel as their two's complement residue, so one pair of
//! functions on natural numbers serves every width and both signs.

use vstd::prelude::*;

verus! {

/// 256 to the power `width`: the number of values that `width` bytes can hold.
pub open spec fn radix(width: nat) -> nat
    decreases width,
{
    if width == 0 {
        1
    } else {
        256 * radix((width - 1) as nat)
    }
}

/// The `width` lowest base-256 digits of `value`, lowest first.
pub open spec fn le_bytes(value: nat, width: nat) -> Seq<u8>
    decreases width,
{
    if width == 0 {
        Seq::empty()
    } else {
        seq![(value % 256) as u8] + le_bytes(value / 256, (width - 1) as nat)
    }
}

/// The number whose base-256 digits, lowest first, are `bytes`.
pub open spec fn le_value(bytes: Seq<u8>) -> nat
    decreases bytes.len(),
{
    if bytes.len() == 0 {
        0
    } else {
        bytes[0] as nat + 256 * le_value(bytes.drop_first())
    }
}

/// The residue that stands for `value` in two's complement of `width` bytes.
pub open spec fn residue(value: int, width: nat) -> nat {
    if value < 0 {
        (value + radix(width)) as nat
    } else {
        value as nat
    }
}

/// The signed number that the residue `n` stands for in two's complement of
/// `width` bytes.
pub open spec fn signed(n: nat, width: nat) -> int {
    if 2 * n >= radix(width) {
        n - radix(width)
    } else {
        n as int
    }
}

/// The values of `radix` at the widths the library uses.
pub proof fn lemma_radix_values()
    ensures
        radix(0) == 1,
        radix(1) == 0x100,
        radix(2) == 0x1_0000,
        radix(3) == 0x100_0000,
        radix(4) == 0x1_0000_0000,
        radix(5) == 0x100_0000_0000,
        radix(6) == 0x1_0000_0000_0000,
        radix(7) == 0x100_0000_0000_0000,
        radix(8) == 0x1_0000_0000_0000_0000,
{
    reveal_with_fuel(radix, 9);
}

/// `le_bytes` yields exactly `width` bytes.
pub proof fn lemma_le_bytes_len(value: nat, width: nat)
    ensures
        le_bytes(value, width).len() == width,
    decreases width,
{
    if width > 0 {
        lemma_le_bytes_len(value / 256, (width - 1) as nat);
    }
}

/// The value of a byte string is below the radix of its length.
pub proof fn lemma_le_value_bound(bytes: Seq<u8>)
    ensures
        le_value(bytes) < radix(bytes.len()),
    decreases bytes.len(),
{
    if bytes.len() > 0 {
        lemma_le_value_bound(bytes.drop_first());
    }
}

/// Reading back what was written gives the number, as long as it fits.
pub proof fn lemma_le_value_of_le_bytes(value: nat, width: nat)
    requires
        value < radix(width),
    ensures
        le_value(le_bytes(value, width)) == value,
    decreases width,
{
    if width > 0 {
        let rest = le_bytes(value / 256, (width - 1) as nat);
        let all = le_bytes(value, width);
        lemma_le_value_of_le_bytes(value / 256, (width - 1) as nat);
        assert(all.drop_first() =~= rest);
        assert(all[0] == (value % 256) as u8);
    }
}

/// Writing what was read gives the bytes back.
pub proof fn lemma_le_bytes_of_le_value(bytes: Seq<u8>)
    ensures
        le_bytes(le_value(bytes), bytes.len()) == bytes,
    decreases bytes.len(),
{
    if bytes.len() > 0 {
        let rest = bytes.drop_first();
        lemma_le_bytes_of_le_value(rest);
        let value = le_value(bytes);
        assert(value % 256 == bytes[0] as nat);
        assert(value / 256 == le_value(rest));
        assert(le_bytes(value, bytes.len()) =~= bytes);
    } else {
        assert(le_bytes(le_value(bytes), bytes.len()) =~= bytes);
    }
}

/// Two's complement loses nothing: a number in the signed range of `width`
/// bytes comes back from its residue.
pub proof fn lemma_signed_of_residue(value: int, width: nat)
    requires
        -(radix(width) as int) <= 2 * value < radix(width),
    ensures
        residue(value, width) < radix(width),
        signed(residue(value, width), width) == value,
{
}

/// Two's complement loses nothing the other way either.
pub proof fn lemma_residue_of_signed(n: nat, width: nat)
    requires
        n < radix(width),
    ensures
        -(radix(width) as int) <= 2 * signed(n, width) < radix(width),
        residue(signed(n, width), width) == n,
{
}

/// The `width` lowest base-256 digits of `value`, lowest first.
pub(crate) fn to_le_bytes(value: u64, width: usize) -> (bytes: Vec<u8>)
    ensures
        bytes@ == le_bytes(value as nat, width as nat),
{
    let mut bytes: Vec<u8> = Vec::new();
    let mut rest: u64 = value;
    let mut i: usize = 0;
    while i < width
        invariant
            i <= width,
            bytes@.len() == i,
            bytes@ + le_bytes(rest as nat, (width - i) as nat) == le_bytes(
                value as nat,
                width as nat,
            ),
        decreases width - i,
    {
        let ghost before = bytes@;
        let ghost tail = le_bytes(rest as nat, (width - i) as nat);
        bytes.push((rest % 256) as u8);
        proof {
            let next = le_bytes((rest / 256) as nat, (width - i - 1) as nat);
            assert(tail == seq![(rest as nat % 256) as u8] + next);
            assert(bytes@ + next =~= before + tail);
        }
        rest = rest / 256;
        i += 1;
    }
    assert(bytes@ + le_bytes(rest as nat, 0) =~= bytes@);
    bytes
}

/// The number whose base-256 digits, lowest first, are `bytes`.
pub(crate) fn from_le_bytes(bytes: &[u8]) -> (value: u64)
    requires
        bytes@.len() <= 8,
    ensures
        value == le_value(bytes@),
{
    let mut value: u64 = 0;
    let mut i: usize = bytes.len();
    proof {
        assert(bytes@.skip(i as int) =~= Seq::<u8>::empty());
    }
    while i > 0
        invariant
            i <= bytes@.len() <= 8,
            value == le_value(bytes@.skip(i as int)),
        decreases i,
    {
        i -= 1;
        proof {
            let tail = bytes@.skip(i as int);
            assert(tail.drop_first() =~= bytes@.skip(i + 1));
            lemma_le_value_bound(tail);
            lemma_le_value_bound(tail.drop_first());
            lemma_radix_values();
            reveal_with_fuel(radix, 9);
            assert(tail.len() <= 8);
            assert(radix(tail.len()) <= radix(8)) by {
                lemma_radix_monotonic(tail.len(), 8);
            }
        }
        value = value * 256 + bytes[i] as u64;
    }
    assert(bytes@.skip(0) =~= bytes@);
    value
}

/// A longer width holds at least as many values.
pub proof fn lemma_radix_monotonic(a: nat, b: nat)
    requires
        a <= b,
    ensures
        radix(a) <= radix(b),
        radix(a) >= 1,
    decreases b,
{
    if a < b {
        lemma_radix_monotonic(a, (b - 1) as nat);
    } else if a > 0 {
        lemma_radix_monotonic((a - 1) as nat, (a - 1) as nat);
    }
}

} // verus!
