//! Pushing the pieces of a node value into a sink.

use crate::model::{
    children_bitmap, children_bits, children_bytes, children_values, has_children, header,
    header_kind, length_prefixed, length_tail, nibble_values, packed_key, packed_pairs,
    stored_value_bytes, StoredValue,
};
use crate::nibble::Nibble;
use crate::output::Output;
use crate::scale::encode_scale_compact_usize;
use crate::sink::HashOrInline;
use vstd::arithmetic::power2::{lemma2_to64, lemma_pow2_unfold, pow2};
use vstd::bits::lemma_u16_shl_is_mul;
use vstd::prelude::*;

verus! {

/// Tells whether there is a child at any of the sixteen indices.
pub(crate) fn any_child(children: &[Option<&Output>]) -> (result: bool)
    requires
        children@.len() == 16,
    ensures
        result == has_children(children_bytes(children@)),
{
    let ghost model = children_bytes(children@);
    for i in 0..16usize
        invariant
            children@.len() == 16,
            model == children_bytes(children@),
            forall|j: int| 0 <= j < i ==> model[j] is None,
    {
        if children[i].is_some() {
            assert(model[i as int] is Some);
            return true;
        }
    }
    false
}

/// Pushes the header of a node.
pub(crate) fn push_header(
    sink: &mut HashOrInline,
    stored_value: &StoredValue<&[u8]>,
    has_children: bool,
    key_len: usize,
)
    requires
        old(sink).wf(),
        old(sink)@.len() == 0,
    ensures
        final(sink).wf(),
        final(sink)@ == header(header_kind(stored_value@, has_children), key_len as nat),
        final(sink)@.len() <= 2 + key_len / 255,
        (*final(sink)) is Inline <==> (*old(sink)) is Inline && final(sink)@.len() <= 31,
{
    // The most significant bits of the header contain the type of node.
    let kind: (u8, u8) = match (stored_value, has_children) {
        (StoredValue::Absent, false) => (0b00000000, 63),
        (StoredValue::Inline(_), false) => (0b01000000, 63),
        (StoredValue::Hashed(_), false) => (0b00100000, 31),
        (StoredValue::Absent, true) => (0b10000000, 63),
        (StoredValue::Inline(_), true) => (0b11000000, 63),
        (StoredValue::Hashed(_), true) => (0b00010000, 15),
    };
    let msb = kind.0;
    let first_byte_max = kind.1;
    let ghost encoded = header(header_kind(stored_value@, has_children), key_len as nat);
    // The key length starts in the least significant bits of the first byte.
    if key_len >= first_byte_max as usize {
        let mut rest: usize = key_len - first_byte_max as usize;
        sink.update(&[msb + first_byte_max]);
        while rest > 255
            invariant
                sink.wf(),
                sink@ + length_tail(rest as nat) == encoded,
                sink@.len() + rest / 255 <= 1 + key_len / 255,
                (*sink) is Inline <==> (*old(sink)) is Inline && sink@.len() <= 31,
            decreases rest,
        {
            let ghost before = sink@;
            sink.update(&[255]);
            assert(before + length_tail(rest as nat) =~= sink@ + length_tail((rest - 255) as nat));
            rest = rest - 255;
        }
        sink.update(&[rest as u8]);
    } else {
        sink.update(&[msb + key_len as u8]);
    }
    assert(sink@ =~= encoded);
}

/// Pushes the nibbles of a key, packed in bytes.
pub(crate) fn push_key(sink: &mut HashOrInline, key: &[Nibble])
    requires
        old(sink).wf(),
        old(sink)@.len() + key@.len() / 2 + 1 <= u64::MAX,
    ensures
        final(sink).wf(),
        final(sink)@ == old(sink)@ + packed_key(nibble_values(key@)),
        final(sink)@.len() <= old(sink)@.len() + key@.len() / 2 + 1,
        (*final(sink)) is Inline <==> (*old(sink)) is Inline && final(sink)@.len() <= 31,
{
    let first: usize = key.len() % 2;
    let ghost values = nibble_values(key@);
    let ghost pairs = packed_pairs(values.skip(first as int));
    if first == 1 {
        sink.update(&[u8::from(key[0])]);
    }
    let ghost base = sink@;
    let mut i: usize = first;
    while i < key.len()
        invariant
            first == key@.len() % 2,
            first <= i <= key@.len(),
            (i - first) % 2 == 0,
            values == nibble_values(key@),
            pairs == packed_pairs(values.skip(first as int)),
            base.len() + key@.len() / 2 <= u64::MAX,
            sink.wf(),
            sink@ == base + pairs.take((i - first) / 2),
            (*sink) is Inline <==> (*old(sink)) is Inline && sink@.len() <= 31,
        decreases key.len() - i,
    {
        let ghost k = (i - first) / 2;
        let high = u8::from(key[i]);
        let low = u8::from(key[i + 1]);
        assert(high < 16 && low < 16 ==> (high << 4) | low == 16 * high + low) by (bit_vector);
        sink.update(&[(high << 4) | low]);
        assert(pairs[k] == (high << 4) | low);
        assert(pairs.take(k + 1) =~= pairs.take(k).push((high << 4) | low));
        i = i + 2;
    }
    assert(pairs.take((i - first) / 2) =~= pairs);
    assert(values.skip(0) =~= values);
    assert(sink@ =~= old(sink)@ + packed_key(values));
}

/// Pushes bytes preceded by their length.
fn push_length_prefixed(sink: &mut HashOrInline, bytes: &[u8])
    requires
        old(sink).wf(),
        old(sink)@.len() + 9 + bytes@.len() <= u64::MAX,
    ensures
        final(sink).wf(),
        final(sink)@ == old(sink)@ + length_prefixed(bytes@),
        final(sink)@.len() <= old(sink)@.len() + 9 + bytes@.len(),
        (*final(sink)) is Inline <==> (*old(sink)) is Inline && final(sink)@.len() <= 31,
{
    sink.update(encode_scale_compact_usize(bytes.len()).as_slice());
    sink.update(bytes);
    assert(sink@ =~= old(sink)@ + length_prefixed(bytes@));
}

/// Pushes the stored value of a node, if there is any.
pub(crate) fn push_stored_value(sink: &mut HashOrInline, stored_value: &StoredValue<&[u8]>)
    requires
        old(sink).wf(),
        old(sink)@.len() + 9 + stored_value@.payload().len() <= u64::MAX,
    ensures
        final(sink).wf(),
        final(sink)@ == old(sink)@ + stored_value_bytes(stored_value@),
        final(sink)@.len() <= old(sink)@.len() + 9 + stored_value@.payload().len(),
        (*final(sink)) is Inline <==> (*old(sink)) is Inline && final(sink)@.len() <= 31,
{
    match stored_value {
        StoredValue::Absent => {},
        StoredValue::Inline(value) => push_length_prefixed(sink, value),
        StoredValue::Hashed(digest) => sink.update(digest),
    }
    assert(sink@ =~= old(sink)@ + stored_value_bytes(stored_value@));
}

/// Pushes the bitmap of the children of a node that has at least one.
pub(crate) fn push_children_bitmap(sink: &mut HashOrInline, children: &[Option<&Output>])
    requires
        old(sink).wf(),
        old(sink)@.len() + 2 <= u64::MAX,
        children@.len() == 16,
        has_children(children_bytes(children@)),
    ensures
        final(sink).wf(),
        final(sink)@ == old(sink)@ + children_bitmap(children_bytes(children@)),
        (*final(sink)) is Inline <==> (*old(sink)) is Inline && final(sink)@.len() <= 31,
{
    let ghost model = children_bytes(children@);
    let mut bitmap: u16 = 0;
    proof {
        lemma2_to64();
    }
    for i in 0..16u32
        invariant
            children@.len() == 16,
            model == children_bytes(children@),
            bitmap == children_bits(model, i as nat),
            bitmap < pow2(i as nat),
    {
        proof {
            lemma2_to64();
            lemma_pow2_unfold((i + 1) as nat);
            lemma_u16_shl_is_mul(1, i as u16);
        }
        if children[i as usize].is_some() {
            assert(bitmap < 1u16 << i && i < 16 ==> bitmap | (1u16 << i) == bitmap + (1u16 << i))
                by (bit_vector);
            bitmap = bitmap | (1u16 << i);
        }
    }
    sink.update(&[(bitmap % 256) as u8, (bitmap / 256) as u8]);
    assert(sink@ =~= old(sink)@ + children_bitmap(model));
}

/// Pushes the Merkle values of all the children, each preceded by its length.
pub(crate) fn push_children_values(sink: &mut HashOrInline, children: &[Option<&Output>])
    requires
        old(sink).wf(),
        old(sink)@.len() + 656 <= u64::MAX,
        children@.len() == 16,
    ensures
        final(sink).wf(),
        final(sink)@ == old(sink)@ + children_values(children_bytes(children@), 0),
        (*final(sink)) is Inline <==> (*old(sink)) is Inline && final(sink)@.len() <= 31,
{
    let ghost model = children_bytes(children@);
    let ghost total = sink@ + children_values(model, 0);
    let ghost base = sink@.len();
    for i in 0..16usize
        invariant
            children@.len() == 16,
            model == children_bytes(children@),
            base + 656 <= u64::MAX,
            sink.wf(),
            sink@ + children_values(model, i as int) == total,
            sink@.len() <= base + 41 * i,
            (*sink) is Inline <==> (*old(sink)) is Inline && sink@.len() <= 31,
    {
        let ghost before = sink@;
        match children[i] {
            Some(merkle_value) => {
                push_length_prefixed(sink, merkle_value.as_ref());
            },
            None => {},
        }
        assert(before + children_values(model, i as int) =~= sink@ + children_values(model, i + 1));
    }
    assert(sink@ =~= total);
}

} // verus!
