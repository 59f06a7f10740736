//! The null bitmap of a record: one bit per column, eight columns to a
//! byte, the first column in the lowest bit.

use vstd::prelude::*;

verus! {

/// Two to the power `bit`, for the bits of a byte.
pub open spec fn pow2(bit: int) -> int {
    if bit == 0 {
        1
    } else if bit == 1 {
        2
    } else if bit == 2 {
        4
    } else if bit == 3 {
        8
    } else if bit == 4 {
        16
    } else if bit == 5 {
        32
    } else if bit == 6 {
        64
    } else {
        128
    }
}

/// Whether bit `bit` of a byte is set, the lowest being bit 0.
pub open spec fn bit_of(byte: u8, bit: int) -> bool {
    (byte as int / pow2(bit)) % 2 == 1
}

/// The flag of column `j` as a binary digit; columns that are not there
/// count as not flagged.
pub open spec fn flag_digit(flags: Seq<bool>, j: int) -> int {
    if 0 <= j < flags.len() && flags[j] {
        1
    } else {
        0
    }
}

/// Byte `k` of the bitmap of a list of flags: the number whose binary
/// digits, lowest first, are the flags of columns `8k` to `8k + 7`.
pub open spec fn bitmap_byte(flags: Seq<bool>, k: int) -> u8 {
    (flag_digit(flags, 8 * k) + 2 * flag_digit(flags, 8 * k + 1) + 4 * flag_digit(flags, 8 * k + 2)
        + 8 * flag_digit(flags, 8 * k + 3) + 16 * flag_digit(flags, 8 * k + 4) + 32 * flag_digit(
        flags,
        8 * k + 5,
    ) + 64 * flag_digit(flags, 8 * k + 6) + 128 * flag_digit(flags, 8 * k + 7)) as u8
}

/// The number of bytes that a bitmap for `n` columns takes.
pub open spec fn bitmap_len(n: nat) -> nat {
    ((n + 7) / 8) as nat
}

/// The bitmap of a list of flags, `len` bytes long.
pub open spec fn bitmap_of(flags: Seq<bool>, len: nat) -> Seq<u8> {
    Seq::new(len, |k: int| bitmap_byte(flags, k))
}

/// The bitmap of a list of flags.
pub open spec fn null_bitmap(flags: Seq<bool>) -> Seq<u8> {
    bitmap_of(flags, bitmap_len(flags.len()))
}

/// Each bit of a bitmap is the flag of its column.
pub proof fn lemma_bitmap_bit(flags: Seq<bool>, j: int)
    requires
        0 <= j < flags.len(),
    ensures
        bit_of(bitmap_byte(flags, j / 8), j % 8) == flags[j],
{
    let k = j / 8;
    let b = j % 8;
    let d0 = flag_digit(flags, 8 * k);
    let d1 = flag_digit(flags, 8 * k + 1);
    let d2 = flag_digit(flags, 8 * k + 2);
    let d3 = flag_digit(flags, 8 * k + 3);
    let d4 = flag_digit(flags, 8 * k + 4);
    let d5 = flag_digit(flags, 8 * k + 5);
    let d6 = flag_digit(flags, 8 * k + 6);
    let d7 = flag_digit(flags, 8 * k + 7);
    let total = d0 + 2 * d1 + 4 * d2 + 8 * d3 + 16 * d4 + 32 * d5 + 64 * d6 + 128 * d7;
    assert(0 <= total < 256);
    assert(bitmap_byte(flags, k) as int == total);
    assert(flag_digit(flags, j) == if flags[j] {
        1int
    } else {
        0int
    });
    if b == 0 {
        assert((total / 1) % 2 == d0);
    } else if b == 1 {
        assert((total / 2) % 2 == d1);
    } else if b == 2 {
        assert((total / 4) % 2 == d2);
    } else if b == 3 {
        assert((total / 8) % 2 == d3);
    } else if b == 4 {
        assert((total / 16) % 2 == d4);
    } else if b == 5 {
        assert((total / 32) % 2 == d5);
    } else if b == 6 {
        assert((total / 64) % 2 == d6);
    } else {
        assert((total / 128) % 2 == d7);
    }
}

/// Taking one more flag into a bitmap adds its bit to its byte and leaves
/// every other byte as it was.
pub proof fn lemma_bitmap_step(flags: Seq<bool>, i: int, k: int)
    requires
        0 <= i < flags.len(),
        0 <= k,
    ensures
        bitmap_byte(flags.take(i + 1), k) as int == bitmap_byte(flags.take(i), k) as int + if k == i
            / 8 && flags[i] {
            pow2(i % 8)
        } else {
            0
        },
        k == i / 8 ==> (bitmap_byte(flags.take(i), k) as int) < pow2(i % 8),
{
    let a = flags.take(i);
    let b = flags.take(i + 1);
    assert forall|j: int| j != i implies flag_digit(b, j) == flag_digit(a, j) by {
        if 0 <= j < i {
            assert(b[j] == a[j]);
        }
    }
    assert(flag_digit(a, i) == 0);
    assert(flag_digit(b, i) == if flags[i] {
        1int
    } else {
        0int
    });
    assert forall|j: int| j >= i implies flag_digit(a, j) == 0 by {}
}

/// The mask of one bit of a byte.
pub fn bit_mask(bit: u8) -> (mask: u8)
    requires
        bit < 8,
    ensures
        mask == pow2(bit as int),
        mask == 1u8 << bit,
{
    assert((bit == 0 ==> (1u8 << bit) == 1) && (bit == 1 ==> (1u8 << bit) == 2) && (bit == 2 ==> (1u8
        << bit) == 4) && (bit == 3 ==> (1u8 << bit) == 8) && (bit == 4 ==> (1u8 << bit) == 16) && (bit
        == 5 ==> (1u8 << bit) == 32) && (bit == 6 ==> (1u8 << bit) == 64) && (bit == 7 ==> (1u8
        << bit) == 128)) by (bit_vector)
        requires
            bit < 8,
    ;
    1u8 << bit
}

/// A byte with one more bit set; the bit and all above it must be clear.
pub fn with_bit(byte: u8, bit: u8) -> (set: u8)
    requires
        bit < 8,
        (byte as int) < pow2(bit as int),
    ensures
        set == byte + pow2(bit as int),
{
    let mask = bit_mask(bit);
    assert((byte | mask) == byte + mask) by (bit_vector)
        requires
            bit < 8,
            mask == 1u8 << bit,
            byte < mask,
    ;
    byte | mask
}

/// Whether a bit of a byte is set.
pub fn test_bit(byte: u8, bit: u8) -> (set: bool)
    requires
        bit < 8,
    ensures
        set == bit_of(byte, bit as int),
{
    let mask = bit_mask(bit);
    assert(((byte & mask) != 0) == ((byte / mask) % 2 == 1)) by (bit_vector)
        requires
            bit < 8,
            mask == 1u8 << bit,
    ;
    (byte & mask) != 0
}

} // verus!
