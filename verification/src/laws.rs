//! What holds of node values and of Merkle values in general.

use crate::lemmas::{lemma_no_children_values, lemma_regroup, lemma_split};
use crate::merkle::{calculate_merkle_value, Config, NodeTy};
use crate::model::{
    children_bitmap, children_bits, children_bytes, children_values, has_children, header,
    header_kind, length_prefixed, length_tail, node_value, packed_key, packed_pairs, stored_form,
    stored_value_bytes, trie_hash, StoredValue,
};
use crate::nibble::Nibble;
use crate::output::Output;
use crate::scale::{compact, compact_is_prefix_free};
use vstd::arithmetic::div_mod::lemma_hoist_over_denominator;
use vstd::arithmetic::mul::lemma_mul_is_commutative;
use vstd::arithmetic::power2::{
    lemma2_to64, lemma_pow2_adds, lemma_pow2_pos, lemma_pow2_unfold, pow2,
};
use vstd::prelude::*;

verus! {

/// The version has no influence on the output when there is no stored value or when the stored
/// value is shorter than 33 bytes.
pub proof fn version_is_irrelevant_for_short_values<'a, 'b>(
    one: Config<&'a [Option<&'b Output>], &'a [Nibble], &'a [u8]>,
    other: Config<&'a [Option<&'b Output>], &'a [Nibble], &'a [u8]>,
)
    requires
        one.ty == other.ty,
        one.children == other.children,
        one.stored_value == other.stored_value,
        one.stored_value matches Some(value) ==> value@.len() < 33,
    ensures
        one.node_value() == other.node_value(),
        one.merkle_value() == other.merkle_value(),
{
}

/// The first byte of a header is made of the bits of the kind and of the key length, cut off at
/// what fits.
proof fn lemma_header_first_byte(
    stored_value: StoredValue<Seq<u8>>,
    has_children: bool,
    key_len: nat,
)
    ensures
        ({
            let kind = header_kind(stored_value, has_children);
            let encoded = header(kind, key_len);
            &&& encoded.len() >= 1
            &&& encoded[0] == kind.0 + (if key_len < kind.1 {
                key_len as int
            } else {
                kind.1 as int
            })
        }),
{
}

/// The node value depends on the version when the stored value has 33 bytes or more.
pub proof fn version_matters_for_long_values<'a, 'b>(
    one: Config<&'a [Option<&'b Output>], &'a [Nibble], &'a [u8]>,
    other: Config<&'a [Option<&'b Output>], &'a [Nibble], &'a [u8]>,
)
    requires
        one.ty == other.ty,
        one.children == other.children,
        one.stored_value == other.stored_value,
        one.version != other.version,
        one.stored_value matches Some(value) && value@.len() >= 33,
    ensures
        one.node_value() != other.node_value(),
{
    let children = children_bytes(one.children@);
    let key_len = one.ty.key_values().len();
    let stored_one = stored_form(one.stored_bytes(), one.version);
    let stored_other = stored_form(other.stored_bytes(), other.version);
    lemma_header_first_byte(stored_one, has_children(children), key_len);
    lemma_header_first_byte(stored_other, has_children(children), key_len);
    assert(one.node_value()[0] == header(
        header_kind(stored_one, has_children(children)),
        key_len,
    )[0]);
    assert(other.node_value()[0] == header(
        header_kind(stored_other, has_children(children)),
        key_len,
    )[0]);
}

/// The key of the root is treated the same as the partial key of another node: the node value is
/// the same, only that the Merkle value of the root is always the hash of it.
pub proof fn root_key_is_treated_as_partial_key<'a, 'b>(
    root: Config<&'a [Option<&'b Output>], &'a [Nibble], &'a [u8]>,
    non_root: Config<&'a [Option<&'b Output>], &'a [Nibble], &'a [u8]>,
    nibbles: &'a [Nibble],
)
    requires
        root.ty == (NodeTy::Root { key: nibbles }),
        non_root.ty == (NodeTy::NonRoot { partial_key: nibbles }),
        root.children == non_root.children,
        root.stored_value == non_root.stored_value,
        root.version == non_root.version,
    ensures
        root.node_value() == non_root.node_value(),
        root.merkle_value() == trie_hash(non_root.node_value()),
        non_root.node_value().len() >= 32 ==> root.merkle_value() == non_root.merkle_value(),
        non_root.node_value().len() < 32 ==> non_root.merkle_value() == non_root.node_value(),
{
}

/// The Merkle value of a root always converts into an array, which holds its bytes, and so does
/// that of any other node whose node value has 32 bytes or more.
pub proof fn hashed_merkle_value_converts_into_array<'a, 'b>(
    config: Config<&'a [Option<&'b Output>], &'a [Nibble], &'a [u8]>,
    output: Output,
    copy: Output,
    array: [u8; 32],
)
    requires
        config.ty is Root || config.node_value().len() >= 32,
        call_ensures(calculate_merkle_value, (config,), output),
        call_ensures(Output::clone, (&output,), copy),
    ensures
        call_requires(Output::into_array, (output,)),
        call_ensures(Output::into_array, (output,), array) ==> array@ == copy@,
{
}

/// An array that is made into a Merkle value converts back into the same array.
pub proof fn array_survives_conversion(
    array: [u8; 32],
    bytes: &[u8],
    output: Output,
    converted: [u8; 32],
)
    requires
        bytes@ == array@,
        call_ensures(Output::from_bytes, (bytes,), output),
    ensures
        call_requires(Output::from_bytes, (bytes,)),
        call_requires(Output::into_array, (output,)),
        call_ensures(Output::into_array, (output,), converted) ==> converted == array,
{
    if call_ensures(Output::into_array, (output,), converted) {
        assert(converted@ == array@);
        assert(converted =~= array);
    }
}

/// If there isn't any child, nothing but the stored value follows the header and the key.
pub proof fn only_the_stored_value_follows_without_children(
    key: Seq<u8>,
    children: Seq<Option<Seq<u8>>>,
    stored_value: StoredValue<Seq<u8>>,
)
    requires
        !has_children(children),
    ensures
        node_value(key, children, stored_value) == header(
            header_kind(stored_value, false),
            key.len(),
        ) + packed_key(key) + stored_value_bytes(stored_value),
{
    lemma_no_children_values(children, 0);
    assert(node_value(key, children, stored_value) =~= header(
        header_kind(stored_value, false),
        key.len(),
    ) + packed_key(key) + stored_value_bytes(stored_value));
}

pub(crate) proof fn lemma_children_bits_bound(children: Seq<Option<Seq<u8>>>, count: nat)
    ensures
        children_bits(children, count) < pow2(count),
    decreases count,
{
    if count == 0 {
        lemma2_to64();
    } else {
        lemma_children_bits_bound(children, (count - 1) as nat);
        lemma_pow2_unfold(count);
    }
}

/// Equal bits stand for children at the same indices.
proof fn lemma_children_bits_injective(
    children1: Seq<Option<Seq<u8>>>,
    children2: Seq<Option<Seq<u8>>>,
    count: nat,
)
    requires
        children_bits(children1, count) == children_bits(children2, count),
    ensures
        forall|i: int| 0 <= i < count ==> (children1[i] is Some <==> children2[i] is Some),
    decreases count,
{
    if count > 0 {
        lemma_children_bits_bound(children1, (count - 1) as nat);
        lemma_children_bits_bound(children2, (count - 1) as nat);
        lemma_children_bits_injective(children1, children2, (count - 1) as nat);
    }
}

/// Whether the header of a node doesn't show where the length of the key ends.
///
/// A length that exceeds what fits in the first byte by a multiple of 255 ends with a byte of value
/// 255, after which the length of a longer key goes on.
pub open spec fn is_ambiguous_length(kind: (u8, u8), key_len: nat) -> bool {
    key_len > kind.1 && (key_len - kind.1) % 255 == 0
}

/// Whether a node can't be taken for one with a longer key.
///
/// The length of the key shows this unless it is ambiguous. Without children, a node that has no
/// value ends with its key, so that a longer key always makes the node value longer. The same goes
/// for two nodes whose keys are followed by nothing but the hash of a value.
pub open spec fn is_told_from_longer(
    kind: (u8, u8),
    key_len: nat,
    longer_kind: (u8, u8),
) -> bool {
    ||| !is_ambiguous_length(kind, key_len)
    ||| kind.0 == 0b00000000
    ||| kind.0 == 0b00100000 && longer_kind == kind
}

proof fn lemma_length_tail_monotonic(a: nat, b: nat)
    requires
        a <= b,
    ensures
        length_tail(a).len() <= length_tail(b).len(),
    decreases b,
{
    if a > 255 {
        lemma_length_tail_monotonic((a - 255) as nat, (b - 255) as nat);
    }
}

/// The tail of an ambiguous length is shorter than that of any longer length.
proof fn lemma_ambiguous_length_tail(a: nat, b: nat)
    requires
        0 < a < b,
        a % 255 == 0,
    ensures
        length_tail(a).len() < length_tail(b).len(),
    decreases a,
{
    if a > 255 {
        lemma_ambiguous_length_tail((a - 255) as nat, (b - 255) as nat);
    } else {
        lemma_length_tail_monotonic(0, (b - 255) as nat);
    }
}

/// The tail of a length that isn't ambiguous never stands at the start of that of a longer length.
proof fn lemma_length_tail_told_from_longer(a: nat, back_a: Seq<u8>, b: nat, back_b: Seq<u8>)
    requires
        a < b,
        a == 0 || a % 255 != 0,
    ensures
        length_tail(a) + back_a != length_tail(b) + back_b,
    decreases a,
{
    if length_tail(a) + back_a == length_tail(b) + back_b {
        assert((length_tail(a) + back_a)[0] == length_tail(a)[0]);
        assert((length_tail(b) + back_b)[0] == length_tail(b)[0]);
        if a > 255 {
            let rest_a = length_tail((a - 255) as nat);
            let rest_b = length_tail((b - 255) as nat);
            assert(length_tail(a) + back_a =~= seq![255u8] + (rest_a + back_a));
            assert(length_tail(b) + back_b =~= seq![255u8] + (rest_b + back_b));
            lemma_split(seq![255u8], rest_a + back_a, seq![255u8], rest_b + back_b);
            lemma_length_tail_told_from_longer((a - 255) as nat, back_a, (b - 255) as nat, back_b);
        }
    }
}

/// What every node satisfies: sixteen places for children, nibbles below 16, lengths that fit in a
/// machine word, and hashes of 32 bytes.
pub open spec fn is_valid_node(
    key: Seq<u8>,
    children: Seq<Option<Seq<u8>>>,
    stored_value: StoredValue<Seq<u8>>,
) -> bool {
    &&& forall|i: int| 0 <= i < key.len() ==> key[i] < 16
    &&& children.len() == 16
    &&& forall|i: int|
        #![trigger children[i]]
        0 <= i < children.len() && children[i] is Some ==> children[i]->0.len() <= u64::MAX
    &&& stored_value.payload().len() <= u64::MAX
    &&& stored_value is Hashed ==> stored_value.payload().len() == 32
}

proof fn lemma_packed_pairs_injective(key1: Seq<u8>, key2: Seq<u8>)
    requires
        key1.len() == key2.len(),
        key1.len() % 2 == 0,
        forall|i: int| 0 <= i < key1.len() ==> key1[i] < 16,
        forall|i: int| 0 <= i < key2.len() ==> key2[i] < 16,
        packed_pairs(key1) == packed_pairs(key2),
    ensures
        key1 == key2,
{
    assert forall|i: int| 0 <= i < key1.len() implies key1[i] == key2[i] by {
        let pair = i / 2;
        assert(packed_pairs(key1)[pair] == 16 * key1[2 * pair] + key1[2 * pair + 1]);
        assert(packed_pairs(key2)[pair] == 16 * key2[2 * pair] + key2[2 * pair + 1]);
    }
    assert(key1 =~= key2);
}

proof fn lemma_packed_key_injective(key1: Seq<u8>, key2: Seq<u8>)
    requires
        key1.len() == key2.len(),
        forall|i: int| 0 <= i < key1.len() ==> key1[i] < 16,
        forall|i: int| 0 <= i < key2.len() ==> key2[i] < 16,
        packed_key(key1) == packed_key(key2),
    ensures
        key1 == key2,
{
    if key1.len() % 2 == 1 {
        let tail1 = key1.skip(1);
        let tail2 = key2.skip(1);
        lemma_split(seq![key1[0]], packed_pairs(tail1), seq![key2[0]], packed_pairs(tail2));
        assert(seq![key1[0]][0] == seq![key2[0]][0]);
        lemma_packed_pairs_injective(tail1, tail2);
        assert(key1 =~= seq![key1[0]] + tail1);
        assert(key2 =~= seq![key2[0]] + tail2);
    } else {
        lemma_packed_pairs_injective(key1, key2);
    }
}

/// Bytes preceded by their length can be told apart from what follows them.
proof fn lemma_length_prefixed_prefix_free(
    a: Seq<u8>,
    back_a: Seq<u8>,
    b: Seq<u8>,
    back_b: Seq<u8>,
)
    requires
        a.len() <= u64::MAX,
        b.len() <= u64::MAX,
        length_prefixed(a) + back_a == length_prefixed(b) + back_b,
    ensures
        a == b,
        back_a == back_b,
{
    assert(length_prefixed(a) + back_a =~= compact(a.len()) + (a + back_a));
    assert(length_prefixed(b) + back_b =~= compact(b.len()) + (b + back_b));
    compact_is_prefix_free(a.len(), a + back_a, b.len(), b + back_b);
    lemma_split(a, back_a, b, back_b);
}

proof fn lemma_children_values_injective(
    children1: Seq<Option<Seq<u8>>>,
    children2: Seq<Option<Seq<u8>>>,
    start: int,
)
    requires
        children1.len() == children2.len(),
        0 <= start <= children1.len(),
        forall|i: int|
            0 <= i < children1.len() ==> (children1[i] is Some <==> children2[i] is Some),
        forall|i: int|
            #![trigger children1[i]]
            0 <= i < children1.len() && children1[i] is Some ==> children1[i]->0.len() <= u64::MAX,
        forall|i: int|
            #![trigger children2[i]]
            0 <= i < children2.len() && children2[i] is Some ==> children2[i]->0.len() <= u64::MAX,
        children_values(children1, start) == children_values(children2, start),
    ensures
        forall|i: int| start <= i < children1.len() ==> children1[i] == children2[i],
    decreases children1.len() - start,
{
    if start < children1.len() {
        if children1[start] is Some {
            lemma_length_prefixed_prefix_free(
                children1[start]->0,
                children_values(children1, start + 1),
                children2[start]->0,
                children_values(children2, start + 1),
            );
        }
        lemma_children_values_injective(children1, children2, start + 1);
    }
}

/// A node that has neither a value nor a child isn't taken for a node whose value is hashed,
/// although no bit of its header tells its kind: either it is too short, or its key is longer.
proof fn lemma_bare_node_is_told_from_hashed(
    bare_key_len: nat,
    bare_back: Seq<u8>,
    kind: (u8, u8),
    key_len: nat,
    back: Seq<u8>,
)
    requires
        kind == (0b00100000u8, 31u8) || kind == (0b00010000u8, 15u8),
        key_len < bare_key_len ==> !is_ambiguous_length(kind, key_len),
        bare_back.len() == (bare_key_len + 1) / 2,
        back.len() >= (key_len + 1) / 2 + 32,
    ensures
        header((0, 63), bare_key_len) + bare_back != header(kind, key_len) + back,
{
    let bare = header((0, 63), bare_key_len);
    let other = header(kind, key_len);
    if bare + bare_back == other + back {
        assert((bare + bare_back)[0] == bare[0]);
        assert((other + back)[0] == other[0]);
        assert((bare + bare_back).len() == (other + back).len());
        if bare_key_len >= 63 {
            let bare_rest = (bare_key_len - 63) as nat;
            let rest = (key_len - 31) as nat;
            if bare_rest <= rest {
                lemma_length_tail_monotonic(bare_rest, rest);
            } else {
                let bare_tail = length_tail(bare_rest) + bare_back;
                let tail = length_tail(rest) + back;
                assert(bare + bare_back =~= seq![63u8] + bare_tail);
                assert(other + back =~= seq![63u8] + tail);
                lemma_split(seq![63u8], bare_tail, seq![63u8], tail);
                lemma_length_tail_told_from_longer(rest, back, bare_rest, bare_back);
            }
        }
    }
}

/// A node isn't taken for one of the same kind with a longer key.
proof fn lemma_header_is_told_from_longer(
    kind: (u8, u8),
    key_len: nat,
    back: Seq<u8>,
    longer_len: nat,
    longer_back: Seq<u8>,
)
    requires
        kind.0 + kind.1 <= 255,
        key_len < longer_len,
        is_told_from_longer(kind, key_len, kind),
        kind.0 == 0b00000000 || kind.0 == 0b00100000 ==> back.len() - (key_len + 1) / 2
            == longer_back.len() - (longer_len + 1) / 2,
    ensures
        header(kind, key_len) + back != header(kind, longer_len) + longer_back,
{
    let shorter = header(kind, key_len);
    let longer = header(kind, longer_len);
    if shorter + back == longer + longer_back {
        assert((shorter + back)[0] == shorter[0]);
        assert((longer + longer_back)[0] == longer[0]);
        assert((shorter + back).len() == (longer + longer_back).len());
        if key_len >= kind.1 {
            let rest = (key_len - kind.1) as nat;
            let longer_rest = (longer_len - kind.1) as nat;
            if is_ambiguous_length(kind, key_len) {
                lemma_ambiguous_length_tail(rest, longer_rest);
            } else {
                let first = seq![(kind.0 + kind.1) as u8];
                let tail = length_tail(rest) + back;
                let longer_tail = length_tail(longer_rest) + longer_back;
                assert(shorter + back =~= first + tail);
                assert(longer + longer_back =~= first + longer_tail);
                lemma_split(first, tail, first, longer_tail);
                lemma_length_tail_told_from_longer(rest, back, longer_rest, longer_back);
            }
        }
    }
}

/// The number of bytes that follow the key is known if there is no child and if the value, where
/// there is one, is hashed. With children there is more than the hash.
spec fn is_sized_back(
    key_len: nat,
    has_children: bool,
    stored_value: StoredValue<Seq<u8>>,
    back: Seq<u8>,
) -> bool {
    &&& stored_value is Absent && !has_children ==> back.len() == (key_len + 1) / 2
    &&& stored_value is Hashed && !has_children ==> back.len() == (key_len + 1) / 2 + 32
    &&& stored_value is Hashed && has_children ==> back.len() >= (key_len + 1) / 2 + 32
}

proof fn lemma_header_prefix_free(
    key_len1: nat,
    has_children1: bool,
    stored_value1: StoredValue<Seq<u8>>,
    back1: Seq<u8>,
    key_len2: nat,
    has_children2: bool,
    stored_value2: StoredValue<Seq<u8>>,
    back2: Seq<u8>,
)
    requires
        key_len1 < key_len2 ==> is_told_from_longer(
            header_kind(stored_value1, has_children1),
            key_len1,
            header_kind(stored_value2, has_children2),
        ),
        key_len2 < key_len1 ==> is_told_from_longer(
            header_kind(stored_value2, has_children2),
            key_len2,
            header_kind(stored_value1, has_children1),
        ),
        is_sized_back(key_len1, has_children1, stored_value1, back1),
        is_sized_back(key_len2, has_children2, stored_value2, back2),
        header(header_kind(stored_value1, has_children1), key_len1) + back1 == header(
            header_kind(stored_value2, has_children2),
            key_len2,
        ) + back2,
    ensures
        key_len1 == key_len2,
        has_children1 == has_children2,
        stored_value1 is Absent <==> stored_value2 is Absent,
        stored_value1 is Inline <==> stored_value2 is Inline,
        stored_value1 is Hashed <==> stored_value2 is Hashed,
        back1 == back2,
{
    let kind1 = header_kind(stored_value1, has_children1);
    let kind2 = header_kind(stored_value2, has_children2);
    let header1 = header(kind1, key_len1);
    let header2 = header(kind2, key_len2);
    lemma_header_first_byte(stored_value1, has_children1, key_len1);
    lemma_header_first_byte(stored_value2, has_children2, key_len2);
    assert((header1 + back1)[0] == header1[0]);
    assert((header2 + back2)[0] == header2[0]);
    if kind1.0 == 0 && stored_value2 is Hashed {
        lemma_bare_node_is_told_from_hashed(key_len1, back1, kind2, key_len2, back2);
    }
    if kind2.0 == 0 && stored_value1 is Hashed {
        lemma_bare_node_is_told_from_hashed(key_len2, back2, kind1, key_len1, back1);
    }
    assert(kind1 == kind2);
    if key_len1 < key_len2 {
        lemma_header_is_told_from_longer(kind1, key_len1, back1, key_len2, back2);
    }
    if key_len2 < key_len1 {
        lemma_header_is_told_from_longer(kind1, key_len2, back2, key_len1, back1);
    }
    lemma_split(header1, back1, header2, back2);
}

/// Equal bitmaps stand for children at the same indices.
proof fn lemma_children_bitmap_injective(
    children1: Seq<Option<Seq<u8>>>,
    children2: Seq<Option<Seq<u8>>>,
)
    requires
        children1.len() == 16,
        children2.len() == 16,
        has_children(children1) == has_children(children2),
        children_bitmap(children1) == children_bitmap(children2),
    ensures
        forall|i: int| 0 <= i < 16 ==> (children1[i] is Some <==> children2[i] is Some),
{
    if has_children(children1) {
        let bits1 = children_bits(children1, 16);
        let bits2 = children_bits(children2, 16);
        let bitmap1 = children_bitmap(children1);
        let bitmap2 = children_bitmap(children2);
        lemma2_to64();
        lemma_children_bits_bound(children1, 16);
        lemma_children_bits_bound(children2, 16);
        assert(bitmap1[0] == bits1 % 256 && bitmap1[1] == bits1 / 256);
        assert(bitmap2[0] == bits2 % 256 && bitmap2[1] == bits2 / 256);
        lemma_children_bits_injective(children1, children2, 16);
    }
}

/// Stored values in the same form can be told apart from what follows them.
proof fn lemma_stored_value_prefix_free(
    stored_value1: StoredValue<Seq<u8>>,
    back1: Seq<u8>,
    stored_value2: StoredValue<Seq<u8>>,
    back2: Seq<u8>,
)
    requires
        stored_value1 is Absent <==> stored_value2 is Absent,
        stored_value1 is Inline <==> stored_value2 is Inline,
        stored_value1.payload().len() <= u64::MAX,
        stored_value2.payload().len() <= u64::MAX,
        stored_value1 is Hashed ==> stored_value1.payload().len()
            == stored_value2.payload().len(),
        stored_value_bytes(stored_value1) + back1 == stored_value_bytes(stored_value2) + back2,
    ensures
        stored_value1 == stored_value2,
        back1 == back2,
{
    match (stored_value1, stored_value2) {
        (StoredValue::Inline(value1), StoredValue::Inline(value2)) => {
            lemma_length_prefixed_prefix_free(value1, back1, value2, back2);
        },
        _ => {
            lemma_split(
                stored_value_bytes(stored_value1),
                back1,
                stored_value_bytes(stored_value2),
                back2,
            );
        },
    }
}

/// A node value determines the node: the key, the stored value in the form in which it enters the
/// node value, and the Merkle value of each child.
///
/// Where the keys have different lengths, this takes that the node with the shorter key can't be
/// taken for one with a longer key.
pub proof fn node_value_determines_node(
    key1: Seq<u8>,
    children1: Seq<Option<Seq<u8>>>,
    stored_value1: StoredValue<Seq<u8>>,
    key2: Seq<u8>,
    children2: Seq<Option<Seq<u8>>>,
    stored_value2: StoredValue<Seq<u8>>,
)
    requires
        is_valid_node(key1, children1, stored_value1),
        is_valid_node(key2, children2, stored_value2),
        key1.len() < key2.len() ==> is_told_from_longer(
            header_kind(stored_value1, has_children(children1)),
            key1.len(),
            header_kind(stored_value2, has_children(children2)),
        ),
        key2.len() < key1.len() ==> is_told_from_longer(
            header_kind(stored_value2, has_children(children2)),
            key2.len(),
            header_kind(stored_value1, has_children(children1)),
        ),
        node_value(key1, children1, stored_value1) == node_value(key2, children2, stored_value2),
    ensures
        key1 == key2,
        children1 == children2,
        stored_value1 == stored_value2,
{
    let header1 = header(header_kind(stored_value1, has_children(children1)), key1.len());
    let header2 = header(header_kind(stored_value2, has_children(children2)), key2.len());
    let bitmap1 = children_bitmap(children1);
    let bitmap2 = children_bitmap(children2);
    let values1 = children_values(children1, 0);
    let values2 = children_values(children2, 0);
    let stored1 = stored_value_bytes(stored_value1);
    let stored2 = stored_value_bytes(stored_value2);
    let after_key1 = bitmap1 + (stored1 + values1);
    let after_key2 = bitmap2 + (stored2 + values2);
    if !has_children(children1) {
        lemma_no_children_values(children1, 0);
    }
    if !has_children(children2) {
        lemma_no_children_values(children2, 0);
    }
    lemma_regroup(header1, packed_key(key1), bitmap1, stored1, values1);
    lemma_regroup(header2, packed_key(key2), bitmap2, stored2, values2);
    lemma_header_prefix_free(
        key1.len(),
        has_children(children1),
        stored_value1,
        packed_key(key1) + after_key1,
        key2.len(),
        has_children(children2),
        stored_value2,
        packed_key(key2) + after_key2,
    );
    lemma_split(packed_key(key1), after_key1, packed_key(key2), after_key2);
    lemma_packed_key_injective(key1, key2);
    lemma_split(bitmap1, stored1 + values1, bitmap2, stored2 + values2);
    lemma_stored_value_prefix_free(stored_value1, values1, stored_value2, values2);
    lemma_children_bitmap_injective(children1, children2);
    lemma_children_values_injective(children1, children2, 0);
    assert(children1 =~= children2);
}

/// Each bit of the bitmap tells whether there is a child at its index.
pub proof fn bitmap_bit_tells_child(children: Seq<Option<Seq<u8>>>, index: nat, count: nat)
    requires
        index < count <= children.len(),
    ensures
        children_bits(children, count) / pow2(index) % 2 == 1 <==> children[index as int] is Some,
    decreases count,
{
    let below = children_bits(children, (count - 1) as nat);
    lemma_children_bits_bound(children, (count - 1) as nat);
    lemma_pow2_pos(index);
    if index == count - 1 {
        if children[index as int] is Some {
            assert((below + pow2(index)) / pow2(index) == 1) by (nonlinear_arith)
                requires
                    below < pow2(index),
            ;
        } else {
            assert(below / pow2(index) == 0) by (nonlinear_arith)
                requires
                    below < pow2(index),
            ;
        }
    } else {
        bitmap_bit_tells_child(children, index, (count - 1) as nat);
        let above = (count - 1 - index) as nat;
        lemma_pow2_adds(index, above);
        lemma_pow2_unfold(above);
        let half = pow2((above - 1) as nat);
        let weight = pow2(index);
        // The bit above index `index` weighs an even multiple of `weight`.
        assert(pow2((count - 1) as nat) == (2 * half) * weight) by {
            lemma_mul_is_commutative(weight as int, (2 * half) as int);
        }
        lemma_hoist_over_denominator(below as int, (2 * half) as int, weight);
        assert((below / weight + 2 * half) % 2 == below / weight % 2);
    }
}

} // verus!
