//! The variable-length integer: a `u64` in one to nine bytes, whose first byte
//! alone tells how many follow.

use crate::le::{le_bytes, le_value, lemma_le_bytes_len, lemma_le_value_of_bytes};
use vstd::arithmetic::div_mod::*;
use vstd::arithmetic::power2::*;
use vstd::prelude::*;

verus! {

/// The number of bits needed to write `value` in binary; zero needs one.
pub open spec fn data_bits(value: u64) -> nat
    decreases value,
{
    if value <= 1 {
        1
    } else {
        1 + data_bits(value / 2)
    }
}

/// The length in bytes of the encoding of `value`.
pub open spec fn varint_len(value: u64) -> nat {
    if data_bits(value) > 56 {
        9
    } else {
        (1 + (data_bits(value) - 1) / 7) as nat
    }
}

/// The encoding of `value`.
///
/// A value of at most 56 bits is doubled, made odd and shifted left by one less
/// than its length `n`, and the low `n` bytes of that are written least
/// significant first, so that the lowest set bit of the first byte stands at
/// position `n - 1`. A larger value is written as a zero byte followed by its
/// eight bytes.
pub open spec fn encode_varint(value: u64) -> Seq<u8> {
    if data_bits(value) > 56 {
        seq![0u8] + le_bytes(value as nat, 8)
    } else {
        le_bytes((2 * value + 1) as nat * pow2((varint_len(value) - 1) as nat), varint_len(value))
    }
}

/// The number of zero bits below the lowest set bit of `byte`; eight for zero.
pub open spec fn trailing_zeros(byte: u8) -> nat
    decreases byte,
{
    if byte == 0 {
        8
    } else if byte % 2 == 1 {
        0
    } else {
        1 + trailing_zeros(byte / 2)
    }
}

/// The length of the encoding that begins with the byte `first`.
pub open spec fn varint_len_of(first: u8) -> nat {
    if first == 0 {
        9
    } else {
        trailing_zeros(first) + 1
    }
}

/// The value that stands at the front of `bytes` and the number of bytes it
/// takes, or `None` where `bytes` ends before the encoding does.
pub open spec fn decode_varint(bytes: Seq<u8>) -> Option<(u64, nat)> {
    if bytes.len() == 0 {
        None
    } else {
        let n = varint_len_of(bytes[0]);
        if bytes.len() < n {
            None
        } else if n == 9 {
            Some((le_value(bytes.subrange(1, 9)) as u64, n))
        } else {
            Some(((le_value(bytes.subrange(0, n as int)) / pow2(n)) as u64, n))
        }
    }
}

/// A value takes at most `bits` bits exactly when it is below `2^bits`.
pub proof fn lemma_data_bits(value: u64, bits: nat)
    requires
        bits >= 1,
    ensures
        data_bits(value) <= bits <==> value < pow2(bits),
    decreases value,
{
    lemma_pow2_unfold(bits);
    lemma_pow2_pos((bits - 1) as nat);
    let half = pow2((bits - 1) as nat);
    assert(pow2(bits) == 2 * half);
    if value > 1 {
        assert(data_bits(value / 2) >= 1);
        if bits == 1 {
            lemma2_to64();
            assert(half == 1);
        } else {
            lemma_data_bits(value / 2, (bits - 1) as nat);
            assert(value / 2 < half <==> value < 2 * half);
        }
    }
}

/// The length of an encoding by the size of the value.
pub proof fn lemma_varint_len(value: u64)
    ensures
        1 <= varint_len(value) <= 9,
        varint_len(value) <= 8 <==> value < 0x100_0000_0000_0000,
        forall|n: nat| 1 <= n <= 8 ==> (varint_len(value) <= n <==> value < #[trigger] pow2(7 * n)),
{
    assert forall|n: nat| 1 <= n <= 8 implies (varint_len(value) <= n <==> value < #[trigger] pow2(
        7 * n,
    )) by {
        lemma_data_bits(value, 7 * n);
        lemma_data_bits(value, 56);
        if value < pow2(7 * n) && 7 * n < 56 {
            lemma_pow2_strictly_increases(7 * n, 56);
        }
    }
    lemma_data_bits(value, 56);
    lemma2_to64_rest();
    assert(7 * 8nat == 56);
}

/// The number of bytes that the encoding of `value` takes.
pub fn size_of_varint(value: u64) -> (r: usize)
    ensures
        r == varint_len(value),
        r == encode_varint(value).len(),
        1 <= r <= 9,
{
    proof {
        lemma_varint_len(value);
        lemma2_to64();
        lemma2_to64_rest();
        assert(pow2(7 * 1) == 0x80 && pow2(7 * 2) == 0x4000 && pow2(7 * 3) == 0x20_0000);
        assert(pow2(7 * 4) == 0x1000_0000 && pow2(7 * 5) == 0x8_0000_0000);
        assert(pow2(7 * 6) == 0x400_0000_0000 && pow2(7 * 7) == 0x2_0000_0000_0000);
        lemma_encode_varint_len(value);
    }
    if value < 0x80 {
        1
    } else if value < 0x4000 {
        2
    } else if value < 0x20_0000 {
        3
    } else if value < 0x1000_0000 {
        4
    } else if value < 0x8_0000_0000 {
        5
    } else if value < 0x400_0000_0000 {
        6
    } else if value < 0x2_0000_0000_0000 {
        7
    } else if value < 0x100_0000_0000_0000 {
        8
    } else {
        9
    }
}

/// An encoding is as long as `varint_len` says.
pub proof fn lemma_encode_varint_len(value: u64)
    ensures
        encode_varint(value).len() == varint_len(value),
{
    if data_bits(value) > 56 {
        lemma_le_bytes_len(value as nat, 8);
    } else {
        lemma_le_bytes_len(
            (2 * value + 1) as nat * pow2((varint_len(value) - 1) as nat),
            varint_len(value),
        );
    }
}

/// A byte that is not zero has a set bit among its eight.
pub proof fn lemma_trailing_zeros_bound(byte: u8)
    ensures
        trailing_zeros(byte) <= 8,
        byte != 0 ==> trailing_zeros(byte) < 8,
{
    lemma2_to64();
    lemma_trailing_zeros_below(byte, 8);
}

/// The lowest set bit of a number below `2^bits` stands below position `bits`.
proof fn lemma_trailing_zeros_below(byte: u8, bits: nat)
    requires
        byte < pow2(bits),
        bits <= 8,
    ensures
        byte != 0 ==> trailing_zeros(byte) < bits,
        byte == 0 ==> trailing_zeros(byte) == 8,
    decreases byte,
{
    if bits == 0 {
        lemma2_to64();
    } else if byte != 0 && byte % 2 == 0 {
        lemma_pow2_unfold(bits);
        lemma_trailing_zeros_below(byte / 2, (bits - 1) as nat);
    }
}

/// An odd number shifted left by `shift` places and cut to `width` bits has its
/// lowest set bit at position `shift`.
pub proof fn lemma_trailing_zeros_of_shifted(odd: nat, shift: nat, width: nat)
    requires
        odd % 2 == 1,
        shift < width <= 8,
    ensures
        0 < (odd * pow2(shift)) % pow2(width) < 256,
        trailing_zeros(((odd * pow2(shift)) % pow2(width)) as u8) == shift,
    decreases shift,
{
    lemma2_to64();
    lemma_pow2_unfold(width);
    let half = pow2((width - 1) as nat);
    lemma_pow2_pos((width - 1) as nat);
    let cut = (odd * pow2(shift)) % pow2(width);
    assert(cut < pow2(width));
    if width < 8 {
        lemma_pow2_strictly_increases(width, 8);
    }
    if shift == 0 {
        assert(odd * pow2(0) == odd);
        lemma_mod_mod(odd as int, 2, half as int);
        assert(cut % 2 == 1);
    } else {
        let lower = odd * pow2((shift - 1) as nat);
        lemma_pow2_unfold(shift);
        assert(odd * pow2(shift) == 2 * lower) by (nonlinear_arith)
            requires
                pow2(shift) == 2 * pow2((shift - 1) as nat),
                lower == odd * pow2((shift - 1) as nat),
        ;
        lemma_truncate_middle(lower as int, 2, half as int);
        assert(cut == 2 * (lower % half));
        lemma_trailing_zeros_of_shifted(odd, (shift - 1) as nat, (width - 1) as nat);
        assert((cut as u8) / 2 == (lower % half) as u8);
    }
}

/// The word that stands for a value of at most 56 bits fits in the bytes of
/// its encoding.
pub proof fn lemma_varint_word_fits(value: u64)
    requires
        data_bits(value) <= 56,
    ensures
        (2 * value + 1) * pow2((varint_len(value) - 1) as nat) < pow2(8 * varint_len(value)),
        pow2(8 * varint_len(value)) <= 0x1_0000_0000_0000_0000,
{
    let n = varint_len(value);
    let odd = (2 * value + 1) as nat;
    let scale = pow2((n - 1) as nat);
    lemma_varint_len(value);
    lemma2_to64();
    lemma_pow2_pos((n - 1) as nat);
    assert(value < pow2(7 * n));
    lemma_pow2_unfold(7 * n + 1);
    lemma_pow2_adds(7 * n + 1, (n - 1) as nat);
    assert(odd * scale < pow2(8 * n)) by (nonlinear_arith)
        requires
            odd < pow2(7 * n + 1),
            scale > 0,
            pow2(8 * n) == pow2(7 * n + 1) * scale,
    ;
    if 8 * n < 64 {
        lemma_pow2_strictly_increases(8 * n, 64);
    }
}

/// The first byte of an encoding alone tells its length.
pub proof fn lemma_first_byte_tells_length(value: u64)
    ensures
        encode_varint(value).len() == varint_len(value),
        varint_len_of(encode_varint(value)[0]) == varint_len(value),
{
    let n = varint_len(value);
    lemma_varint_len(value);
    lemma_encode_varint_len(value);
    if data_bits(value) > 56 {
        lemma_le_bytes_len(value as nat, 8);
    } else {
        lemma2_to64();
        lemma_trailing_zeros_of_shifted((2 * value + 1) as nat, (n - 1) as nat, 8);
    }
}

/// Decoding an encoding gives the value back and takes exactly its bytes,
/// whatever follows them.
pub proof fn lemma_varint_round_trip(value: u64, rest: Seq<u8>)
    ensures
        decode_varint(encode_varint(value) + rest) == Some((value, varint_len(value))),
{
    let n = varint_len(value);
    let bytes = encode_varint(value);
    let whole = bytes + rest;
    lemma_varint_len(value);
    lemma_first_byte_tells_length(value);
    assert(whole[0] == bytes[0]);
    if data_bits(value) > 56 {
        lemma_le_bytes_len(value as nat, 8);
        lemma2_to64();
        assert(whole.subrange(1, 9) =~= le_bytes(value as nat, 8));
        lemma_le_value_of_bytes(value as nat, 8);
    } else {
        let odd = (2 * value + 1) as nat;
        let scale = pow2((n - 1) as nat);
        let word = odd * scale;
        // The word is read back whole, and shifted back it is the value.
        assert(whole.subrange(0, n as int) =~= bytes);
        lemma_varint_word_fits(value);
        lemma_le_value_of_bytes(word, n);
        lemma_pow2_pos((n - 1) as nat);
        lemma_pow2_unfold(n);
        lemma_div_multiples_vanish_quotient(scale as int, odd as int, 2);
        assert(word == scale * odd && pow2(n) == scale * 2) by (nonlinear_arith)
            requires
                word == odd * scale,
                pow2(n) == 2 * scale,
        ;
        assert(word / pow2(n) == value);
    }
}

} // verus!
