//! Little-endian byte strings and the numbers they spell.

use vstd::arithmetic::power2::*;
use vstd::prelude::*;

verus! {

/// The `width` low-order bytes of `value`, least significant first.
pub open spec fn le_bytes(value: nat, width: nat) -> Seq<u8>
    decreases width,
{
    if width == 0 {
        Seq::empty()
    } else {
        seq![(value % 256) as u8] + le_bytes(value / 256, (width - 1) as nat)
    }
}

/// The number that `bytes` spell, least significant byte first.
pub open spec fn le_value(bytes: Seq<u8>) -> nat
    decreases bytes.len(),
{
    if bytes.len() == 0 {
        0
    } else {
        bytes[0] as nat + 256 * le_value(bytes.drop_first())
    }
}

/// `le_bytes` yields exactly `width` bytes.
pub proof fn lemma_le_bytes_len(value: nat, width: nat)
    ensures
        le_bytes(value, width).len() == width,
    decreases width,
{
    if width > 0 {
        lemma_le_bytes_len(value / 256, (width - 1) as nat);
    }
}

/// Eight more bits multiply the range by 256.
pub proof fn lemma_pow2_byte(width: nat)
    ensures
        pow2(8 * (width + 1)) == 256 * pow2(8 * width),
{
    lemma_pow2_adds(8, 8 * width);
    lemma2_to64();
}

/// A string of `n` bytes spells a number below `2^(8n)`.
pub proof fn lemma_le_value_bound(bytes: Seq<u8>)
    ensures
        le_value(bytes) < pow2(8 * bytes.len()),
    decreases bytes.len(),
{
    if bytes.len() == 0 {
        lemma2_to64();
    } else {
        let rest = bytes.drop_first();
        lemma_le_value_bound(rest);
        lemma_pow2_byte(rest.len());
    }
}

/// Reading back the bytes of a number that fits in `width` bytes gives the number.
pub proof fn lemma_le_value_of_bytes(value: nat, width: nat)
    requires
        value < pow2(8 * width),
    ensures
        le_value(le_bytes(value, width)) == value,
    decreases width,
{
    if width == 0 {
        lemma2_to64();
    } else {
        let rest = le_bytes(value / 256, (width - 1) as nat);
        let bytes = le_bytes(value, width);
        lemma_pow2_byte((width - 1) as nat);
        lemma_le_value_of_bytes(value / 256, (width - 1) as nat);
        assert(bytes.drop_first() =~= rest);
    }
}

/// Writing out the number that a byte string spells gives the string back.
pub proof fn lemma_le_bytes_of_value(bytes: Seq<u8>)
    ensures
        le_bytes(le_value(bytes), bytes.len()) == bytes,
    decreases bytes.len(),
{
    if bytes.len() > 0 {
        let rest = bytes.drop_first();
        lemma_le_bytes_of_value(rest);
        let v = le_value(bytes);
        assert(v % 256 == bytes[0] as nat && v / 256 == le_value(rest));
        assert(le_bytes(v, bytes.len()) =~= bytes);
    }
}

/// Writes out the `width` low-order bytes of `value`, least significant first.
pub(crate) fn le_encode(value: u64, width: usize) -> (bytes: Vec<u8>)
    ensures
        bytes@ == le_bytes(value as nat, width as nat),
{
    let mut bytes: Vec<u8> = Vec::with_capacity(width);
    let mut rest: u64 = value;
    let mut done: usize = 0;
    while done < width
        invariant
            done <= width,
            bytes@.len() == done,
            bytes@ + le_bytes(rest as nat, (width - done) as nat) == le_bytes(
                value as nat,
                width as nat,
            ),
        decreases width - done,
    {
        let ghost before = bytes@;
        bytes.push((rest % 256) as u8);
        assert(bytes@ + le_bytes((rest / 256) as nat, (width - done - 1) as nat) =~= before
            + le_bytes(rest as nat, (width - done) as nat));
        rest = rest / 256;
        done += 1;
    }
    assert(bytes@ + Seq::<u8>::empty() =~= bytes@);
    bytes
}

/// Reads the number that up to eight bytes spell, least significant first.
pub(crate) fn le_decode(bytes: &[u8]) -> (value: u64)
    requires
        bytes@.len() <= 8,
    ensures
        value == le_value(bytes@),
{
    let mut value: u64 = 0;
    let mut left: usize = bytes.len();
    proof {
        assert(bytes@.subrange(left as int, bytes@.len() as int) =~= Seq::<u8>::empty());
    }
    while left > 0
        invariant
            left <= bytes@.len() <= 8,
            value == le_value(bytes@.subrange(left as int, bytes@.len() as int)),
        decreases left,
    {
        let ghost tail = bytes@.subrange(left as int, bytes@.len() as int);
        let ghost longer = bytes@.subrange(left - 1, bytes@.len() as int);
        proof {
            lemma_le_value_bound(tail);
            lemma_le_value_bound(longer);
            assert(longer.drop_first() =~= tail);
            if longer.len() < 8 {
                lemma_pow2_strictly_increases(8 * longer.len(), 64);
            }
            lemma2_to64();
        }
        left -= 1;
        value = value * 256 + bytes[left] as u64;
    }
    assert(bytes@.subrange(0, bytes@.len() as int) =~= bytes@);
    value
}

} // verus!
