//! What can be read back from a node value and from a Merkle value.
//!
//! Each law says, in plain arithmetic over the input, which bytes stand at which place.

use crate::hashing::blake2b_digest;
use crate::laws::{bitmap_bit_tells_child, lemma_children_bits_bound};
use crate::lemmas::lemma_regroup;
use crate::merkle::{calculate_merkle_value, calculate_with_stored_value, Config, NodeTy};
use crate::model::{
    children_bitmap, children_bits, children_bytes, children_values, has_children, header,
    header_kind, length_tail, nibble_values, node_value, packed_key, stored_value_bytes,
    StoredValue,
};
use crate::nibble::{Nibble, NibbleFromU8Error};
use crate::output::Output;
use crate::scale::compact;
use vstd::arithmetic::div_mod::lemma_div_denominator;
use vstd::arithmetic::power2::{lemma2_to64, lemma_pow2_adds, lemma_pow2_pos, pow2};
use vstd::prelude::*;

verus! {

proof fn lemma_length_tail_bytes(length: nat)
    ensures
        ({
            let tail = length_tail(length);
            let count = if length == 0 {
                1int
            } else {
                (length + 254) as int / 255
            };
            &&& tail.len() == count
            &&& forall|j: int| 0 <= j < count - 1 ==> tail[j] == 255
            &&& tail[count - 1] == length - 255 * (count - 1)
        }),
    decreases length,
{
    if length > 255 {
        let rest = (length - 255) as nat;
        lemma_length_tail_bytes(rest);
        assert((length + 254) as int / 255 == (rest + 254) as int / 255 + 1);
        assert forall|j: int| 0 <= j < (length + 254) as int / 255 - 1 implies length_tail(length)[j]
            == 255 by {
            if j > 0 {
                assert(length_tail(length)[j] == length_tail(rest)[j - 1]);
            }
        }
    }
}

/// The header can be read back. Its first byte holds the kind of node in its most significant bits,
/// and the length of the key, or the greatest number that fits, in the others. Where the length
/// doesn't fit, the other bytes add up to what is left of it: all but the last one are 255, and the
/// last one is 0 only if nothing is left.
pub proof fn header_reads_back(
    stored_value: StoredValue<Seq<u8>>,
    any_child: bool,
    key_len: nat,
    kind_bits: int,
    max: int,
)
    requires
        kind_bits == (match stored_value {
            StoredValue::Absent => if any_child { 128int } else { 0 },
            StoredValue::Inline(_) => if any_child { 192int } else { 64 },
            StoredValue::Hashed(_) => if any_child { 16int } else { 32 },
        }),
        max == (match stored_value {
            StoredValue::Hashed(_) => if any_child { 15int } else { 31 },
            _ => 63,
        }),
    ensures
        key_len < max ==> {
            let bytes = header(header_kind(stored_value, any_child), key_len);
            bytes.len() == 1 && bytes[0] == kind_bits + key_len
        },
        key_len >= max ==> {
            let bytes = header(header_kind(stored_value, any_child), key_len);
            let last = bytes.len() - 1;
            &&& last == (if key_len == max { 1int } else { (key_len - max + 254) / 255 })
            &&& bytes[0] == kind_bits + max
            &&& forall|j: int| 1 <= j < last ==> bytes[j] == 255
            &&& key_len == max + 255 * (last - 1) + bytes[last]
            &&& bytes[last] == 0 <==> key_len == max
        },
{
    if key_len >= max {
        let rest = (key_len - max) as nat;
        let bytes = header(header_kind(stored_value, any_child), key_len);
        lemma_length_tail_bytes(rest);
        assert forall|j: int| 1 <= j < bytes.len() implies bytes[j] == length_tail(rest)[j - 1] by {
        }
    }
}

/// The nibbles of a key can be read back from the bytes that they are packed in: the first one from
/// a byte of its own if their number is odd, the others from the upper and the lower half of one
/// byte for each two.
pub proof fn packed_key_reads_back(key: Seq<u8>, odd: int)
    requires
        odd == key.len() % 2,
        forall|i: int| 0 <= i < key.len() ==> key[i] < 16,
    ensures
        packed_key(key).len() == odd + key.len() / 2,
        odd == 1 ==> packed_key(key)[0] == key[0],
        forall|i: int|
            0 <= i < key.len() / 2 ==> {
                &&& (#[trigger] packed_key(key)[odd + i]) / 16 == key[odd + 2 * i]
                &&& packed_key(key)[odd + i] % 16 == key[odd + 2 * i + 1]
            },
{
    assert forall|i: int| 0 <= i < key.len() / 2 implies {
        &&& (#[trigger] packed_key(key)[odd + i]) / 16 == key[odd + 2 * i]
        &&& packed_key(key)[odd + i] % 16 == key[odd + 2 * i + 1]
    } by {
        assert(packed_key(key)[odd + i] == 16 * key[odd + 2 * i] + key[odd + 2 * i + 1]);
    }
}

/// Bit `i % 8` of byte `i / 8` of the bitmap tells whether there is a child at index `i`. The
/// bitmap has two bytes, or none if there isn't any child.
pub proof fn bitmap_reads_back(children: Seq<Option<Seq<u8>>>)
    requires
        children.len() == 16,
    ensures
        (forall|i: int| 0 <= i < 16 ==> #[trigger] children[i] is None)
            ==> children_bitmap(children).len() == 0,
        forall|i: int|
            0 <= i < 16 && #[trigger] children[i] is Some ==> children_bitmap(children).len() == 2,
        forall|i: int|
            0 <= i < 16 && children_bitmap(children).len() == 2 ==> (
            children_bitmap(children)[i / 8] as nat / pow2((i % 8) as nat) % 2 == 1
                <==> #[trigger] children[i] is Some),
{
    if has_children(children) {
        let bitmap = children_bitmap(children);
        let bits = children_bits(children, 16);
        lemma2_to64();
        lemma_children_bits_bound(children, 16);
        assert forall|i: int| 0 <= i < 16 implies (bitmap[i / 8] as nat / pow2((i % 8) as nat) % 2
            == 1 <==> #[trigger] children[i] is Some) by {
            bitmap_bit_tells_child(children, i as nat, 16);
            lemma_bit_of_byte(bits, i as nat);
        }
    } else {
        assert forall|i: int| 0 <= i < 16 implies #[trigger] children[i] is None by {
        }
    }
}

/// The bits of a number below 65536 are those of its two bytes.
proof fn lemma_bit_of_byte(bits: nat, index: nat)
    requires
        bits < 65536,
        index < 16,
    ensures
        index < 8 ==> (bits % 256) / pow2(index) % 2 == bits / pow2(index) % 2,
        index >= 8 ==> (bits / 256) / pow2((index - 8) as nat) % 2 == bits / pow2(index) % 2,
{
    lemma2_to64();
    if index >= 8 {
        let high = (index - 8) as nat;
        lemma_pow2_adds(8, high);
        lemma_pow2_pos(high);
        lemma_div_denominator(bits as int, 256, pow2(high) as int);
    } else {
        let number = bits as u16;
        assert(((number % 256) / 1) % 2 == (number / 1) % 2) by (bit_vector);
        assert(((number % 256) / 2) % 2 == (number / 2) % 2) by (bit_vector);
        assert(((number % 256) / 4) % 2 == (number / 4) % 2) by (bit_vector);
        assert(((number % 256) / 8) % 2 == (number / 8) % 2) by (bit_vector);
        assert(((number % 256) / 16) % 2 == (number / 16) % 2) by (bit_vector);
        assert(((number % 256) / 32) % 2 == (number / 32) % 2) by (bit_vector);
        assert(((number % 256) / 64) % 2 == (number / 64) % 2) by (bit_vector);
        assert(((number % 256) / 128) % 2 == (number / 128) % 2) by (bit_vector);
    }
}

proof fn lemma_children_values_flatten(
    children: Seq<Option<Seq<u8>>>,
    items: Seq<Seq<u8>>,
    start: int,
)
    requires
        0 <= start <= children.len(),
        items.len() == children.len(),
        forall|i: int|
            0 <= i < children.len() ==> #[trigger] items[i] == (match children[i] {
                Some(child) => compact(child.len()) + child,
                None => Seq::<u8>::empty(),
            }),
    ensures
        children_values(children, start) == items.skip(start).flatten(),
    decreases children.len() - start,
{
    if start < children.len() {
        lemma_children_values_flatten(children, items, start + 1);
        assert(items.skip(start).first() == items[start]);
        assert(items.skip(start).drop_first() =~= items.skip(start + 1));
        assert(children_values(children, start) =~= items[start] + children_values(
            children,
            start + 1,
        ));
    }
}

/// The Merkle values of the children stand in the order of their indices, each preceded by its
/// length: their bytes are the concatenation of one item per index, which is empty if there is no
/// child at this index.
pub proof fn children_stand_in_order(children: Seq<Option<Seq<u8>>>, items: Seq<Seq<u8>>)
    requires
        items.len() == children.len(),
        forall|i: int|
            0 <= i < children.len() ==> #[trigger] items[i] == (match children[i] {
                Some(child) => compact(child.len()) + child,
                None => Seq::<u8>::empty(),
            }),
    ensures
        children_values(children, 0) == items.flatten(),
{
    lemma_children_values_flatten(children, items, 0);
    assert(items.skip(0) =~= items);
}

/// A node value can be read back from its first byte to its last one: the header, the key, the
/// bitmap of the children if there is any, the stored value, and the Merkle values of the children.
pub proof fn node_value_reads_back(
    key: Seq<u8>,
    children: Seq<Option<Seq<u8>>>,
    stored_value: StoredValue<Seq<u8>>,
    any_child: bool,
    kind_bits: int,
    max: int,
    at_key: int,
    at_bitmap: int,
    at_value: int,
    value: Seq<u8>,
    items: Seq<Seq<u8>>,
)
    requires
        forall|i: int| 0 <= i < key.len() ==> key[i] < 16,
        children.len() == 16,
        any_child <==> exists|i: int| 0 <= i < 16 && #[trigger] children[i] is Some,
        kind_bits == (match stored_value {
            StoredValue::Absent => if any_child { 128int } else { 0 },
            StoredValue::Inline(_) => if any_child { 192int } else { 64 },
            StoredValue::Hashed(_) => if any_child { 16int } else { 32 },
        }),
        max == (match stored_value {
            StoredValue::Hashed(_) => if any_child { 15int } else { 31 },
            _ => 63,
        }),
        at_key == (if key.len() < max {
            1
        } else if key.len() == max {
            2
        } else {
            1 + (key.len() - max + 254) / 255
        }),
        at_bitmap == at_key + (key.len() + 1) as int / 2,
        at_value == at_bitmap + (if any_child { 2int } else { 0 }),
        value == (match stored_value {
            StoredValue::Absent => Seq::<u8>::empty(),
            StoredValue::Inline(bytes) => compact(bytes.len()) + bytes,
            StoredValue::Hashed(digest) => digest,
        }),
        items.len() == 16,
        forall|i: int|
            0 <= i < 16 ==> #[trigger] items[i] == (match children[i] {
                Some(child) => compact(child.len()) + child,
                None => Seq::<u8>::empty(),
            }),
    ensures
        ({
            let bytes = node_value(key, children, stored_value);
            let odd = key.len() as int % 2;
            &&& at_value <= bytes.len()
            &&& bytes[0] == kind_bits + if key.len() < max { key.len() as int } else { max }
            &&& forall|j: int| 1 <= j < at_key - 1 ==> bytes[j] == 255
            &&& key.len() >= max ==> key.len() == max + 255 * (at_key - 2) + bytes[at_key - 1]
            &&& odd == 1 ==> bytes[at_key] == key[0]
            &&& forall|i: int|
                0 <= i < key.len() / 2 ==> {
                    &&& (#[trigger] bytes[at_key + odd + i]) / 16 == key[odd + 2 * i]
                    &&& bytes[at_key + odd + i] % 16 == key[odd + 2 * i + 1]
                }
            &&& any_child ==> forall|i: int|
                0 <= i < 16 ==> (bytes[at_bitmap + i / 8] as nat / pow2((i % 8) as nat) % 2 == 1
                    <==> #[trigger] children[i] is Some)
            &&& bytes.skip(at_value) == value + items.flatten()
        }),
{
    assert(any_child == has_children(children));
    let bytes = node_value(key, children, stored_value);
    let front = header(header_kind(stored_value, any_child), key.len());
    let packed = packed_key(key);
    let bitmap = children_bitmap(children);
    let values = children_values(children, 0);
    let odd = key.len() as int % 2;
    header_reads_back(stored_value, any_child, key.len(), kind_bits, max);
    packed_key_reads_back(key, odd);
    assert(at_key == front.len());
    assert(at_bitmap == at_key + packed.len());
    bitmap_reads_back(children);
    children_stand_in_order(children, items);
    assert(value == stored_value_bytes(stored_value));
    lemma_regroup(front, packed, bitmap, value, values);
    assert(bytes == front + (packed + (bitmap + (value + values))));
    assert forall|j: int| 0 <= j < at_key implies bytes[j] == front[j] by {
    }
    assert forall|j: int| 0 <= j < packed.len() implies #[trigger] bytes[at_key + j] == packed[j] by {
    }
    assert forall|j: int| 0 <= j < bitmap.len() implies #[trigger] bytes[at_bitmap + j]
        == bitmap[j] by {
    }
    assert(bytes.skip(at_bitmap + bitmap.len()) =~= value + values);
    assert forall|i: int| 0 <= i < key.len() / 2 implies {
        &&& (#[trigger] bytes[at_key + odd + i]) / 16 == key[odd + 2 * i]
        &&& bytes[at_key + odd + i] % 16 == key[odd + 2 * i + 1]
    } by {
        assert(bytes[at_key + (odd + i)] == packed[odd + i]);
    }
    if any_child {
        let witness = choose|i: int| 0 <= i < 16 && #[trigger] children[i] is Some;
        assert(bitmap.len() == 2);
        assert forall|i: int| 0 <= i < 16 implies (bytes[at_bitmap + i / 8] as nat / pow2(
            (i % 8) as nat,
        ) % 2 == 1 <==> #[trigger] children[i] is Some) by {
            assert(bytes[at_bitmap + i / 8] == bitmap[i / 8]);
        }
    } else {
        assert forall|i: int| 0 <= i < 16 implies #[trigger] children[i] is None by {
        }
    }
}

/// The Merkle value covers the key, the children and the whole of the stored value: it is the node
/// value that these make, or the hash of it for a root and for 32 bytes or more. Under the second
/// version a stored value of 33 bytes or more enters the node value as its hash.
pub proof fn merkle_value_covers_the_node<'a, 'b>(
    config: Config<&'a [Option<&'b Output>], &'a [Nibble], &'a [u8]>,
    output: Output,
    nibbles: &'a [Nibble],
    key: Seq<u8>,
    children: Seq<Option<Seq<u8>>>,
    stored_value: StoredValue<Seq<u8>>,
)
    requires
        call_ensures(calculate_merkle_value, (config,), output),
        config.ty == (NodeTy::Root { key: nibbles }) || config.ty == (NodeTy::NonRoot {
            partial_key: nibbles,
        }),
        key.len() == nibbles@.len(),
        forall|i: int| 0 <= i < key.len() ==> key[i] == nibbles@[i]@,
        children.len() == config.children@.len(),
        forall|i: int|
            0 <= i < children.len() ==> match config.children@[i] {
                Some(child) => #[trigger] children[i] == Some(child@),
                None => children[i] is None,
            },
        config.stored_value is None ==> stored_value is Absent,
        config.stored_value matches Some(value) ==> if config.version is V1 && value@.len() >= 33 {
            stored_value == StoredValue::Hashed(blake2b_digest(32, Seq::empty(), value@))
        } else {
            stored_value == StoredValue::Inline(value@)
        },
    ensures
        ({
            let bytes = node_value(key, children, stored_value);
            output@ == if config.ty is Root || bytes.len() >= 32 {
                blake2b_digest(32, Seq::empty(), bytes)
            } else {
                bytes
            }
        }),
{
    assert(nibble_values(nibbles@) =~= key);
    assert(children_bytes(config.children@) =~= children);
}

/// The same of a Merkle value that is calculated from a stored value in the form in which it enters
/// the node value.
pub proof fn merkle_value_covers_the_given_stored_value<'a, 'b, 'c>(
    ty: NodeTy<&'a [Nibble]>,
    child_values: &'a [Option<&'b Output>],
    given: StoredValue<&'c [u8]>,
    output: Output,
    nibbles: &'a [Nibble],
    key: Seq<u8>,
    children: Seq<Option<Seq<u8>>>,
    stored_value: StoredValue<Seq<u8>>,
)
    requires
        call_ensures(calculate_with_stored_value, (ty, child_values, given), output),
        ty == (NodeTy::Root { key: nibbles }) || ty == (NodeTy::NonRoot { partial_key: nibbles }),
        key.len() == nibbles@.len(),
        forall|i: int| 0 <= i < key.len() ==> key[i] == nibbles@[i]@,
        children.len() == child_values@.len(),
        forall|i: int|
            0 <= i < children.len() ==> match child_values@[i] {
                Some(child) => #[trigger] children[i] == Some(child@),
                None => children[i] is None,
            },
        match given {
            StoredValue::Absent => stored_value is Absent,
            StoredValue::Inline(value) => stored_value == StoredValue::Inline(value@),
            StoredValue::Hashed(digest) => stored_value == StoredValue::Hashed(digest@),
        },
    ensures
        ({
            let bytes = node_value(key, children, stored_value);
            output@ == if ty is Root || bytes.len() >= 32 {
                blake2b_digest(32, Seq::empty(), bytes)
            } else {
                bytes
            }
        }),
{
    assert(nibble_values(nibbles@) =~= key);
    assert(children_bytes(child_values@) =~= children);
}

/// An integer below 16 that is made into a nibble is given back, and no other one is accepted.
pub proof fn nibble_gives_back_its_value(
    value: u8,
    result: Result<Nibble, NibbleFromU8Error>,
    nibble: Nibble,
    read: u8,
)
    requires
        call_ensures(<Nibble as TryFrom<u8>>::try_from, (value,), result),
        result == Ok::<Nibble, NibbleFromU8Error>(nibble),
        call_ensures(<u8 as From<Nibble>>::from, (nibble,), read),
    ensures
        read == value,
        value < 16,
{
}

} // verus!
