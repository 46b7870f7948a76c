//! The compact encoding of integers in the SCALE format.

use crate::lemmas::lemma_split;
use vstd::arithmetic::div_mod::lemma_div_denominator;
use vstd::arithmetic::power2::{lemma2_to64, lemma_pow2_adds, lemma_pow2_pos, pow2};
use vstd::prelude::*;

verus! {

/// The `width` least significant bytes of `value`, the least significant one first.
pub open spec fn little_endian(value: nat, width: nat) -> Seq<u8>
    decreases width,
{
    if width == 0 {
        seq![]
    } else {
        seq![(value % 256) as u8] + little_endian(value / 256, (width - 1) as nat)
    }
}

/// The number of bytes that it takes to write `value` in base 256 without leading zeros.
pub open spec fn byte_width(value: nat) -> nat
    decreases value,
{
    if value == 0 {
        0
    } else {
        1 + byte_width(value / 256)
    }
}

/// The SCALE compact encoding of `value`.
///
/// The two least significant bits of the first byte tell how many bytes there are: one, two or
/// four bytes that hold the value itself in the remaining bits, or a first byte that holds the
/// width of the value minus four, followed by the value.
pub open spec fn compact(value: nat) -> Seq<u8> {
    if value < 64 {
        little_endian(4 * value, 1)
    } else if value < 16384 {
        little_endian(4 * value + 1, 2)
    } else if value < 1073741824 {
        little_endian(4 * value + 2, 4)
    } else {
        seq![(4 * (byte_width(value) - 4) + 3) as u8] + little_endian(value, byte_width(value))
    }
}

proof fn lemma_byte_width_bounds(value: nat)
    requires
        value <= u64::MAX,
    ensures
        byte_width(value) <= 8,
        1073741824 <= value ==> 4 <= byte_width(value),
{
    reveal_with_fuel(byte_width, 9);
}

proof fn lemma_little_endian_len(value: nat, width: nat)
    ensures
        little_endian(value, width).len() == width,
    decreases width,
{
    if width > 0 {
        lemma_little_endian_len(value / 256, (width - 1) as nat);
    }
}

/// Appends the `width` least significant bytes of `value`, the least significant one first.
fn push_little_endian(bytes: &mut Vec<u8>, value: usize, width: usize)
    ensures
        final(bytes)@ == old(bytes)@ + little_endian(value as nat, width as nat),
{
    let mut rest: usize = value;
    let mut left: usize = width;
    let ghost total = old(bytes)@ + little_endian(value as nat, width as nat);
    while left > 0
        invariant
            bytes@ + little_endian(rest as nat, left as nat) == total,
        decreases left,
    {
        let ghost before = bytes@;
        bytes.push((rest % 256) as u8);
        assert(before + little_endian(rest as nat, left as nat) =~= bytes@ + little_endian(
            (rest / 256) as nat,
            (left - 1) as nat,
        ));
        rest = rest / 256;
        left = left - 1;
    }
    assert(bytes@ + little_endian(rest as nat, 0) =~= bytes@);
}

/// Counts the bytes that it takes to write `value` in base 256 without leading zeros.
fn byte_width_usize(value: usize) -> (width: usize)
    ensures
        width == byte_width(value as nat),
{
    let mut rest: usize = value;
    let mut width: usize = 0;
    proof {
        lemma_byte_width_bounds(value as nat);
    }
    while rest != 0
        invariant
            width + byte_width(rest as nat) == byte_width(value as nat),
            byte_width(value as nat) <= 8,
        decreases rest,
    {
        rest = rest / 256;
        width = width + 1;
    }
    width
}

/// Encodes an integer in the SCALE compact format.
pub fn encode_scale_compact_usize(value: usize) -> (bytes: Vec<u8>)
    ensures
        bytes@ == compact(value as nat),
        1 <= bytes@.len() <= 9,
{
    let mut bytes: Vec<u8> = Vec::new();
    let width: usize;
    if value < 64 {
        width = 1;
        push_little_endian(&mut bytes, 4 * value, width);
    } else if value < 16384 {
        width = 2;
        push_little_endian(&mut bytes, 4 * value + 1, width);
    } else if value < 1073741824 {
        width = 4;
        push_little_endian(&mut bytes, 4 * value + 2, width);
    } else {
        width = byte_width_usize(value);
        proof {
            lemma_byte_width_bounds(value as nat);
        }
        bytes.push((4 * (width - 4) + 3) as u8);
        push_little_endian(&mut bytes, value, width);
    }
    proof {
        lemma_little_endian_len(value as nat, width as nat);
        lemma_little_endian_len(4 * value as nat, width as nat);
        lemma_little_endian_len((4 * value + 1) as nat, width as nat);
        lemma_little_endian_len((4 * value + 2) as nat, width as nat);
        assert(bytes@ =~= compact(value as nat));
    }
    bytes
}

proof fn lemma_little_endian_injective(a: nat, b: nat, width: nat)
    requires
        byte_width(a) <= width,
        byte_width(b) <= width,
        little_endian(a, width) == little_endian(b, width),
    ensures
        a == b,
    decreases width,
{
    if width > 0 {
        let low_a = seq![(a % 256) as u8];
        let low_b = seq![(b % 256) as u8];
        let high_a = little_endian(a / 256, (width - 1) as nat);
        let high_b = little_endian(b / 256, (width - 1) as nat);
        assert((low_a + high_a)[0] == low_a[0]);
        assert((low_b + high_b)[0] == low_b[0]);
        assert((low_a + high_a).skip(1) =~= high_a);
        assert((low_b + high_b).skip(1) =~= high_b);
        lemma_little_endian_injective(a / 256, b / 256, (width - 1) as nat);
    }
}

/// The number of bytes of an encoding and what its first byte says about it.
proof fn lemma_compact_first_byte(value: nat)
    requires
        value <= u64::MAX,
    ensures
        compact(value).len() >= 1,
        value < 64 ==> compact(value)[0] % 4 == 0 && compact(value).len() == 1,
        64 <= value < 16384 ==> compact(value)[0] % 4 == 1 && compact(value).len() == 2,
        16384 <= value < 1073741824 ==> compact(value)[0] % 4 == 2 && compact(value).len() == 4,
        1073741824 <= value ==> compact(value)[0] == 4 * (byte_width(value) - 4) + 3
            && compact(value).len() == 1 + byte_width(value) && 4 <= byte_width(value) <= 8,
{
    lemma_byte_width_bounds(value);
    lemma_little_endian_len(4 * value, 1);
    lemma_little_endian_len(4 * value + 1, 2);
    lemma_little_endian_len(4 * value + 2, 4);
    lemma_little_endian_len(value, byte_width(value));
}

/// Where an encoding stands in front of other bytes, those bytes don't change what is read: no
/// encoding is the start of another one, and different integers have different encodings.
pub proof fn compact_is_prefix_free(a: nat, back_a: Seq<u8>, b: nat, back_b: Seq<u8>)
    requires
        a <= u64::MAX,
        b <= u64::MAX,
        compact(a) + back_a == compact(b) + back_b,
    ensures
        a == b,
        back_a == back_b,
{
    lemma_compact_first_byte(a);
    lemma_compact_first_byte(b);
    assert((compact(a) + back_a)[0] == compact(a)[0]);
    assert((compact(b) + back_b)[0] == compact(b)[0]);
    lemma_split(compact(a), back_a, compact(b), back_b);
    reveal_with_fuel(byte_width, 5);
    if a < 64 {
        lemma_little_endian_injective(4 * a, 4 * b, 1);
    } else if a < 16384 {
        lemma_little_endian_injective(4 * a + 1, 4 * b + 1, 2);
    } else if a < 1073741824 {
        lemma_little_endian_injective(4 * a + 2, 4 * b + 2, 4);
    } else {
        let width = byte_width(a);
        lemma_split(
            seq![compact(a)[0]],
            little_endian(a, width),
            seq![compact(b)[0]],
            little_endian(b, width),
        );
        lemma_little_endian_injective(a, b, width);
    }
}

proof fn lemma_little_endian_byte(value: nat, width: nat, index: nat)
    requires
        index < width,
    ensures
        little_endian(value, width)[index as int] == value / pow2(8 * index) % 256,
    decreases width,
{
    lemma2_to64();
    lemma_little_endian_len(value / 256, (width - 1) as nat);
    if index > 0 {
        let rest = (index - 1) as nat;
        lemma_little_endian_byte(value / 256, (width - 1) as nat, rest);
        lemma_pow2_adds(8, 8 * rest);
        lemma_pow2_pos(8 * rest);
        lemma_div_denominator(value as int, 256, pow2(8 * rest) as int);
        assert(8 + 8 * rest == 8 * index);
        assert(value / 256 / pow2(8 * rest) == value / pow2(8 * index));
        assert(little_endian(value, width)[index as int] == little_endian(
            value / 256,
            (width - 1) as nat,
        )[rest as int]);
    } else {
        assert(value / pow2(0) == value);
    }
}

proof fn lemma_byte_width_range(value: nat)
    requires
        value > 0,
    ensures
        byte_width(value) >= 1,
        pow2((8 * (byte_width(value) - 1)) as nat) <= value < pow2(8 * byte_width(value)),
    decreases value,
{
    lemma2_to64();
    if value >= 256 {
        lemma_byte_width_range(value / 256);
        let width = byte_width(value / 256);
        lemma_pow2_adds(8, (8 * (width - 1)) as nat);
        lemma_pow2_adds(8, 8 * width);
    } else {
        assert(byte_width(value / 256) == 0);
    }
}

/// An integer can be read back from its encoding: from the bits above the two lowest ones of one,
/// two or four little-endian bytes, or, where it takes more, from as many little-endian bytes as the
/// first byte tells, none of which could be spared.
pub proof fn compact_reads_back(value: nat)
    requires
        value <= u64::MAX,
    ensures
        value < 64 ==> compact(value).len() == 1 && compact(value)[0] == 4 * value,
        64 <= value < 16384 ==> {
            let bytes = compact(value);
            bytes.len() == 2 && bytes[0] + 256 * bytes[1] == 4 * value + 1
        },
        16384 <= value < 1073741824 ==> {
            let bytes = compact(value);
            &&& bytes.len() == 4
            &&& bytes[0] + 256 * bytes[1] + 65536 * bytes[2] + 16777216 * bytes[3] == 4 * value + 2
        },
        1073741824 <= value ==> {
            let bytes = compact(value);
            let width = bytes.len() - 1;
            &&& 4 <= width <= 8
            &&& bytes[0] == 4 * (width - 4) + 3
            &&& pow2((8 * (width - 1)) as nat) <= value < pow2((8 * width) as nat)
            &&& forall|i: int|
                0 <= i < width ==> #[trigger] bytes[1 + i] == value / pow2((8 * i) as nat) % 256
        },
{
    lemma_compact_first_byte(value);
    reveal_with_fuel(little_endian, 5);
    if 1073741824 <= value {
        let bytes = compact(value);
        let width = byte_width(value);
        lemma_byte_width_range(value);
        lemma_little_endian_len(value, width);
        assert forall|i: int| 0 <= i < width implies #[trigger] bytes[1 + i] == value / pow2(
            (8 * i) as nat,
        ) % 256 by {
            lemma_little_endian_byte(value, width, i as nat);
            assert(bytes[1 + i] == little_endian(value, width)[i]);
        }
    }
}

} // verus!
