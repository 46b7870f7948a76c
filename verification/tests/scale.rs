use node_value::scale::encode_scale_compact_usize;

#[test]
fn one_byte() {
    assert_eq!(encode_scale_compact_usize(0), [0]);
    assert_eq!(encode_scale_compact_usize(1), [4]);
    assert_eq!(encode_scale_compact_usize(63), [252]);
}

#[test]
fn two_bytes() {
    assert_eq!(encode_scale_compact_usize(64), [1, 1]);
    assert_eq!(encode_scale_compact_usize(69), [21, 1]);
    assert_eq!(encode_scale_compact_usize(16383), [253, 255]);
}

#[test]
fn four_bytes() {
    assert_eq!(encode_scale_compact_usize(16384), [2, 0, 1, 0]);
    assert_eq!(encode_scale_compact_usize(65535), [254, 255, 3, 0]);
    assert_eq!(encode_scale_compact_usize(1073741823), [254, 255, 255, 255]);
}

#[test]
fn more_bytes() {
    assert_eq!(encode_scale_compact_usize(1073741824), [3, 0, 0, 0, 64]);
    assert_eq!(
        encode_scale_compact_usize(4294967295),
        [3, 255, 255, 255, 255]
    );
}

#[test]
fn no_encoding_starts_another_one() {
    let values = [0, 1, 63, 64, 255, 256, 16383, 16384, 1073741823, 1073741824, 4294967295];
    for a in values {
        for b in values {
            let encoded_a = encode_scale_compact_usize(a);
            let encoded_b = encode_scale_compact_usize(b);
            assert_eq!(encoded_b.starts_with(&encoded_a), a == b);
        }
    }
}
