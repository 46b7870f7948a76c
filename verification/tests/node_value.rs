use node_value::{
    calculate_merkle_value, calculate_with_stored_value, Config, Nibble, NibbleFromU8Error, NodeTy,
    Output, StoredValue, TrieEntryVersion,
};

fn nibbles(values: &[u8]) -> Vec<Nibble> {
    values
        .iter()
        .map(|value| Nibble::try_from(*value).unwrap())
        .collect()
}

fn no_children() -> Vec<Option<Output>> {
    (0..16).map(|_| None).collect()
}

fn merkle(
    is_root: bool,
    key: &[u8],
    children: &[Option<Output>],
    stored_value: Option<&[u8]>,
    version: TrieEntryVersion,
) -> Vec<u8> {
    let key = nibbles(key);
    let children: Vec<Option<&Output>> = children.iter().map(|opt| opt.as_ref()).collect();
    calculate_merkle_value(Config {
        ty: if is_root {
            NodeTy::Root { key: &key[..] }
        } else {
            NodeTy::NonRoot {
                partial_key: &key[..],
            }
        },
        children: &children[..],
        stored_value,
        version,
    })
    .as_ref()
    .to_vec()
}

fn hash(data: &[u8]) -> Vec<u8> {
    blake2_rfc::blake2b::blake2b(32, &[], data)
        .as_bytes()
        .to_vec()
}

#[test]
fn empty_root() {
    let key: [Nibble; 0] = [];
    let children: Vec<Option<&Output>> = (0..16).map(|_| None).collect();
    let obtained = calculate_merkle_value(Config {
        ty: NodeTy::Root { key: &key[..] },
        children: &children[..],
        stored_value: None,
        version: TrieEntryVersion::V0,
    });

    assert_eq!(
        obtained.as_ref(),
        &[
            3, 23, 10, 46, 117, 151, 183, 183, 227, 216, 76, 5, 57, 29, 19, 154, 98, 177, 87, 231,
            135, 134, 216, 192, 130, 242, 157, 207, 76, 17, 19, 20
        ]
    );
}

#[test]
fn empty_node() {
    let key: [Nibble; 0] = [];
    let children: Vec<Option<&Output>> = (0..16).map(|_| None).collect();
    let obtained = calculate_merkle_value(Config {
        ty: NodeTy::NonRoot {
            partial_key: &key[..],
        },
        children: &children[..],
        stored_value: None,
        version: TrieEntryVersion::V0,
    });

    assert_eq!(obtained.as_ref(), &[0u8]);
}

fn foo_bar_children() -> Vec<Option<Output>> {
    let mut children = Vec::new();
    for _ in 0..2 {
        children.push(None);
    }
    children.push(Some(Output::from_bytes(b"foo")));
    for _ in 0..7 {
        children.push(None);
    }
    children.push(Some(Output::from_bytes(b"bar")));
    for _ in 0..5 {
        children.push(None);
    }
    children
}

#[test]
fn basic_test() {
    let children = foo_bar_children();
    let children: Vec<Option<&Output>> = children.iter().map(|opt| opt.as_ref()).collect();

    let obtained = calculate_merkle_value(Config {
        ty: NodeTy::NonRoot {
            partial_key: &[
                Nibble::try_from(8).unwrap(),
                Nibble::try_from(12).unwrap(),
                Nibble::try_from(1).unwrap(),
            ][..],
        },
        children: &children[..],
        stored_value: Some(&b"hello world"[..]),
        version: TrieEntryVersion::V0,
    });

    assert_eq!(
        obtained.as_ref(),
        &[
            195, 8, 193, 4, 4, 44, 104, 101, 108, 108, 111, 32, 119, 111, 114, 108, 100, 12, 102,
            111, 111, 12, 98, 97, 114
        ]
    );
}

#[test]
#[should_panic]
fn bad_children_len() {
    let key: [Nibble; 0] = [];
    let children: [Option<&Output>; 0] = [];
    calculate_merkle_value(Config {
        ty: NodeTy::NonRoot {
            partial_key: &key[..],
        },
        children: &children[..],
        stored_value: None,
        version: TrieEntryVersion::V0,
    });
}

#[test]
fn same_output_for_both_versions_with_a_short_value() {
    let children = foo_bar_children();
    let expected = [
        195, 8, 193, 4, 4, 44, 104, 101, 108, 108, 111, 32, 119, 111, 114, 108, 100, 12, 102, 111,
        111, 12, 98, 97, 114,
    ];
    for version in [TrieEntryVersion::V0, TrieEntryVersion::V1] {
        let obtained = merkle(
            false,
            &[8, 12, 1],
            &children,
            Some(&b"hello world"[..]),
            version,
        );
        assert_eq!(obtained, expected);
    }

    // The longest value that no version replaces with its hash.
    let value = [7u8; 32];
    assert_eq!(
        merkle(false, &[], &no_children(), Some(&value[..]), TrieEntryVersion::V0),
        merkle(false, &[], &no_children(), Some(&value[..]), TrieEntryVersion::V1),
    );
}

#[test]
fn version_decides_about_a_long_value() {
    let value = [7u8; 33];

    let mut node_value_v0 = vec![0b01000000, 33 << 2];
    node_value_v0.extend_from_slice(&value);
    let obtained_v0 = merkle(false, &[], &no_children(), Some(&value[..]), TrieEntryVersion::V0);
    assert_eq!(obtained_v0, hash(&node_value_v0));

    let mut node_value_v1 = vec![0b00100000];
    node_value_v1.extend_from_slice(&hash(&value));
    let obtained_v1 = merkle(false, &[], &no_children(), Some(&value[..]), TrieEntryVersion::V1);
    assert_eq!(obtained_v1, hash(&node_value_v1));

    assert_ne!(obtained_v0, obtained_v1);
}

#[test]
fn hashed_value_with_children() {
    let value = [9u8; 40];
    let mut node_value = vec![0b00010000 | 2, 0xab, 0b00000100, 0b00000100];
    node_value.extend_from_slice(&hash(&value));
    node_value.extend_from_slice(b"\x0cfoo\x0cbar");
    assert_eq!(
        merkle(
            false,
            &[10, 11],
            &foo_bar_children(),
            Some(&value[..]),
            TrieEntryVersion::V1
        ),
        hash(&node_value)
    );
}

#[test]
fn given_stored_value_hash_is_pushed_as_it_is() {
    let key = nibbles(&[1]);
    let children: Vec<Option<&Output>> = (0..16).map(|_| None).collect();
    // A digest of 32 bytes always makes the node value too long to be inline.
    let digest = [5u8; 32];
    let obtained = calculate_with_stored_value(
        NodeTy::NonRoot {
            partial_key: &key[..],
        },
        &children[..],
        StoredValue::Hashed(&digest[..]),
    );
    let mut node_value = vec![0b00100001, 1];
    node_value.extend_from_slice(&digest);
    assert_eq!(obtained.as_ref(), &hash(&node_value)[..]);

    let obtained = calculate_with_stored_value(
        NodeTy::NonRoot {
            partial_key: &key[..],
        },
        &children[..],
        StoredValue::Inline(&b"abc"[..]),
    );
    assert_eq!(obtained.as_ref(), &[0b01000001, 1, 12, 97, 98, 99]);

    let obtained = calculate_with_stored_value(
        NodeTy::NonRoot {
            partial_key: &key[..],
        },
        &children[..],
        StoredValue::Absent,
    );
    assert_eq!(obtained.as_ref(), &[0b00000001, 1]);
}

#[test]
fn key_without_value_and_children() {
    assert_eq!(
        merkle(false, &[1, 2, 3], &no_children(), None, TrieEntryVersion::V0),
        [3, 1, 0x23]
    );
    // The header reads as that of a node whose value is hashed.
    let mut node_value = vec![0b00100000];
    node_value.extend_from_slice(&[0; 16]);
    assert_eq!(
        merkle(false, &[0; 32], &no_children(), None, TrieEntryVersion::V0),
        node_value
    );
}

#[test]
fn root_is_always_hashed() {
    let children = foo_bar_children();
    for value in [None, Some(&b"hello world"[..])] {
        let node_value = merkle(false, &[8, 12, 1], &children, value, TrieEntryVersion::V0);
        assert!(node_value.len() < 32);
        let root = merkle(true, &[8, 12, 1], &children, value, TrieEntryVersion::V0);
        assert_eq!(root, hash(&node_value));
        assert_eq!(root.len(), 32);
    }

    // A node value of 32 bytes or more is hashed whether or not the node is the root.
    let value = [1u8; 50];
    assert_eq!(
        merkle(true, &[3], &children, Some(&value[..]), TrieEntryVersion::V0),
        merkle(false, &[3], &children, Some(&value[..]), TrieEntryVersion::V0),
    );
}

#[test]
fn inline_up_to_31_bytes() {
    let value = [4u8; 29];
    let mut node_value = vec![0b01000000, 29 << 2];
    node_value.extend_from_slice(&value);
    assert_eq!(node_value.len(), 31);
    assert_eq!(
        merkle(false, &[], &no_children(), Some(&value[..]), TrieEntryVersion::V0),
        node_value
    );

    let value = [4u8; 30];
    let mut node_value = vec![0b01000000, 30 << 2];
    node_value.extend_from_slice(&value);
    assert_eq!(node_value.len(), 32);
    assert_eq!(
        merkle(false, &[], &no_children(), Some(&value[..]), TrieEntryVersion::V0),
        hash(&node_value)
    );
}

#[test]
fn header_tells_the_kind_of_node() {
    let short = &b"v"[..];
    let children = foo_bar_children();
    let leaf = merkle(false, &[2, 3], &no_children(), Some(short), TrieEntryVersion::V0);
    assert_eq!(leaf, [0b01000010, 0x23, 4, b'v']);
    let branch = merkle(false, &[2, 3], &children, None, TrieEntryVersion::V0);
    assert_eq!(
        branch,
        [0b10000010, 0x23, 4, 4, 12, b'f', b'o', b'o', 12, b'b', b'a', b'r']
    );
    let branch = merkle(false, &[2, 3], &children, Some(short), TrieEntryVersion::V0);
    assert_eq!(
        branch,
        [0b11000010, 0x23, 4, 4, 4, b'v', 12, b'f', b'o', b'o', 12, b'b', b'a', b'r']
    );
}

#[test]
fn header_of_long_keys() {
    let header_tails: [(usize, &[u8]); 9] = [
        (62, &[0b01000000 | 62]),
        (63, &[0b01000000 | 63, 0]),
        (64, &[0b01000000 | 63, 1]),
        (63 + 254, &[0b01000000 | 63, 254]),
        (63 + 255, &[0b01000000 | 63, 255]),
        (63 + 256, &[0b01000000 | 63, 255, 1]),
        (63 + 509, &[0b01000000 | 63, 255, 254]),
        (63 + 510, &[0b01000000 | 63, 255, 255]),
        (63 + 511, &[0b01000000 | 63, 255, 255, 1]),
    ];
    for (key_len, header) in header_tails {
        let key: Vec<u8> = (0..key_len).map(|i| (i % 13) as u8).collect();
        let mut node_value = header.to_vec();
        if key_len % 2 == 1 {
            node_value.push(key[0]);
        }
        for pair in key[key_len % 2..].chunks(2) {
            node_value.push(16 * pair[0] + pair[1]);
        }
        node_value.extend_from_slice(&[8, 1, 2]);
        assert_eq!(
            merkle(false, &key, &no_children(), Some(&[1, 2][..]), TrieEntryVersion::V1),
            hash(&node_value)
        );
    }
}

#[test]
fn header_of_long_keys_with_a_hashed_value() {
    let value = [1u8; 33];
    for (key_len, header) in [(30usize, vec![0b00100000u8 | 30]), (31, vec![0b00100000 | 31, 0])] {
        let key = vec![0u8; key_len];
        let mut node_value = header;
        node_value.extend(vec![0u8; (key_len + 1) / 2]);
        node_value.extend_from_slice(&hash(&value));
        assert_eq!(
            merkle(false, &key, &no_children(), Some(&value[..]), TrieEntryVersion::V1),
            hash(&node_value)
        );
    }
    for (key_len, header) in [(14usize, vec![0b00010000u8 | 14]), (15, vec![0b00010000 | 15, 0])] {
        let key = vec![0u8; key_len];
        let mut node_value = header;
        node_value.extend(vec![0u8; (key_len + 1) / 2]);
        node_value.extend_from_slice(&[4, 4]);
        node_value.extend_from_slice(&hash(&value));
        node_value.extend_from_slice(b"\x0cfoo\x0cbar");
        assert_eq!(
            merkle(false, &key, &foo_bar_children(), Some(&value[..]), TrieEntryVersion::V1),
            hash(&node_value)
        );
    }
}

#[test]
fn lengths_that_end_with_255_are_ambiguous() {
    // The key length of the first node is 63 + 255. The first byte of its key reads as the end of
    // the length of a longer key, and its value as the end of that key.
    let mut key1 = vec![0u8; 318];
    key1[1] = 1;
    let mut key2 = vec![0u8; 319];
    key2[316] = 8;
    assert_eq!(
        merkle(false, &key1, &no_children(), Some(&[0, 0][..]), TrieEntryVersion::V0),
        merkle(false, &key2, &no_children(), Some(&[][..]), TrieEntryVersion::V0),
    );
}

#[test]
fn ambiguous_hashed_leaf_can_be_taken_for_a_bare_node() {
    let children: Vec<Option<&Output>> = (0..16).map(|_| None).collect();
    let mut leaf_key = vec![0u8; 31 + 255];
    leaf_key[0] = 1;
    leaf_key[1] = 14;
    let leaf_key = nibbles(&leaf_key);
    let digest = [0u8; 32];
    let leaf = calculate_with_stored_value(
        NodeTy::NonRoot {
            partial_key: &leaf_key[..],
        },
        &children[..],
        StoredValue::Hashed(&digest[..]),
    );
    let bare = merkle(false, &[0; 63 + 255 + 30], &no_children(), None, TrieEntryVersion::V0);
    assert_eq!(leaf.as_ref(), &bare[..]);
}

#[test]
fn shorter_keys_are_told_from_longer_ones() {
    // Of each two lengths, the longer one is ambiguous, but not the shorter one.
    for (shorter, longer) in [(63usize, 63 + 255usize), (63 + 254, 63 + 255), (63 + 300, 63 + 510)] {
        assert_ne!(
            merkle(false, &vec![0; shorter], &no_children(), Some(&[][..]), TrieEntryVersion::V0),
            merkle(false, &vec![0; longer], &no_children(), Some(&[][..]), TrieEntryVersion::V0),
        );
    }

    // Without a value and children, or with a hashed value alone, any two lengths are told apart.
    let value = [3u8; 33];
    for (stored_value, max) in [(None, 63usize), (Some(&value[..]), 31)] {
        let mut short_key = vec![0u8; max + 255];
        short_key[1] = 1;
        for longer in [max + 256, max + 257, max + 510] {
            assert_ne!(
                merkle(false, &short_key, &no_children(), stored_value, TrieEntryVersion::V1),
                merkle(false, &vec![0; longer], &no_children(), stored_value, TrieEntryVersion::V1),
            );
        }
    }
}

#[test]
fn bitmap_has_one_bit_per_child() {
    for index in 0..16usize {
        let mut children = no_children();
        children[index] = Some(Output::from_bytes(&[]));
        let bits = 1u16 << index;
        assert_eq!(
            merkle(false, &[], &children, None, TrieEntryVersion::V0),
            [0b10000000, (bits & 0xff) as u8, (bits >> 8) as u8, 0]
        );
    }

    let children: Vec<Option<Output>> = (0..16).map(|_| Some(Output::from_bytes(&[]))).collect();
    let mut expected = vec![0b10000000, 255, 255];
    expected.extend_from_slice(&[0; 16]);
    assert_eq!(
        merkle(false, &[], &children, None, TrieEntryVersion::V0),
        expected
    );
}

#[test]
fn different_nodes_have_different_values() {
    let mut obtained = Vec::new();
    for key in [&[][..], &[0], &[0, 0], &[0, 1], &[1, 0]] {
        for value in [&[][..], &[0], &[0, 0], &[1]] {
            for children in [no_children(), foo_bar_children()] {
                obtained.push(merkle(
                    false,
                    key,
                    &children,
                    Some(value),
                    TrieEntryVersion::V0,
                ));
            }
        }
    }
    for i in 0..obtained.len() {
        for j in 0..i {
            assert_ne!(obtained[i], obtained[j]);
        }
    }
}

#[test]
fn children_are_hashes_of_32_bytes() {
    let child = Output::from_bytes(&[6u8; 32]);
    let mut children = no_children();
    children[15] = Some(child);
    let mut node_value = vec![0b10000001, 9, 0, 128, 128];
    node_value.extend_from_slice(&[6u8; 32]);
    assert_eq!(
        merkle(false, &[9], &children, None, TrieEntryVersion::V1),
        hash(&node_value)
    );
}

#[test]
fn output_holds_bytes() {
    for len in [0usize, 1, 31, 32] {
        let bytes: Vec<u8> = (0..len).map(|i| i as u8).collect();
        let output = Output::from_bytes(&bytes);
        assert_eq!(output.as_ref(), &bytes[..]);
        assert_eq!(output.clone().as_ref(), &bytes[..]);
    }
}

#[test]
fn full_hash_converts_into_array() {
    let bytes: Vec<u8> = (100..132).collect();
    assert_eq!(&Output::from_bytes(&bytes).into_array()[..], &bytes[..]);

    let key: [Nibble; 0] = [];
    let children: Vec<Option<&Output>> = (0..16).map(|_| None).collect();
    let root = calculate_merkle_value(Config {
        ty: NodeTy::Root { key: &key[..] },
        children: &children[..],
        stored_value: None,
        version: TrieEntryVersion::V1,
    });
    assert_eq!(&root.clone().into_array()[..], &hash(&[0])[..]);
    assert_eq!(root.into_array()[0], 3);
}

#[test]
fn long_node_value_converts_into_array() {
    let key: [Nibble; 0] = [];
    let children: Vec<Option<&Output>> = (0..16).map(|_| None).collect();
    let value = [8u8; 40];
    for version in [TrieEntryVersion::V0, TrieEntryVersion::V1] {
        let output = calculate_merkle_value(Config {
            ty: NodeTy::NonRoot {
                partial_key: &key[..],
            },
            children: &children[..],
            stored_value: Some(&value[..]),
            version,
        });
        let copy = output.clone();
        assert_eq!(&output.into_array()[..], copy.as_ref());
    }
}

#[test]
fn array_is_given_back() {
    let mut array = [0u8; 32];
    for i in 0..32usize {
        array[i] = (255 - 7 * i) as u8;
    }
    assert_eq!(Output::from_bytes(&array).into_array(), array);
}

#[test]
fn nibbles_are_below_16() {
    for value in 0..16u8 {
        assert_eq!(u8::from(Nibble::try_from(value).unwrap()), value);
    }
    for value in 16..=255u8 {
        assert_eq!(Nibble::try_from(value), Err(NibbleFromU8Error::TooLarge));
    }
}
