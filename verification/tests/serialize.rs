use pysub_compiler::serialize::{
    encode_bool, encode_bytes, encode_i64, encode_list, encode_map, encode_optional, encode_string,
    encode_u64,
};

#[test]
fn encode_bool_is_deterministic() {
    assert_eq!(encode_bool(false), vec![0]);
    assert_eq!(encode_bool(true), vec![1]);
}

#[test]
fn encode_bytes_prefixes_length() {
    let encoded = encode_bytes(b"hi");
    assert_eq!(&encoded[..4], 2u32.to_le_bytes());
    assert_eq!(&encoded[4..], b"hi");
}

#[test]
fn encode_optional_none_is_single_byte() {
    assert_eq!(encode_optional(None), vec![0]);
}

#[test]
fn encode_optional_some_is_prefixed() {
    let payload = encode_u64(42);
    let encoded = encode_optional(Some(&payload));
    assert_eq!(encoded[0], 1);
    assert_eq!(&encoded[1..], payload);
}

#[test]
fn encode_list_prefixes_length_and_concatenates() {
    let entries = vec![encode_u64(1), encode_u64(2)];
    let encoded = encode_list(&entries);
    assert_eq!(&encoded[..4], 2u32.to_le_bytes());
    assert_eq!(&encoded[4..12], encode_u64(1));
    assert_eq!(&encoded[12..20], encode_u64(2));
}

#[test]
fn encode_map_is_deterministic_for_unordered_entries() {
    let entries_a = vec![(vec![0x02], vec![0xBB]), (vec![0x01], vec![0xAA])];
    let entries_b = vec![(vec![0x01], vec![0xAA]), (vec![0x02], vec![0xBB])];
    assert_eq!(encode_map(&entries_a), encode_map(&entries_b));
}

#[test]
fn encode_map_sorts_by_raw_key_bytes() {
    let entries = vec![
        (vec![0x02], vec![0xBB]),
        (vec![0x01], vec![0xAA]),
        (vec![0x01, 0x01], vec![0xCC]),
    ];
    let encoded = encode_map(&entries);
    let len = u32::from_le_bytes(encoded[0..4].try_into().unwrap());
    assert_eq!(len, 3);
    let first_key_len = u32::from_le_bytes(encoded[4..8].try_into().unwrap()) as usize;
    let first_key = &encoded[8..8 + first_key_len];
    assert_eq!(first_key, &[0x01]);
    let second_offset = 8 + first_key_len + 4 + 1;
    let second_key_len =
        u32::from_le_bytes(encoded[second_offset..second_offset + 4].try_into().unwrap()) as usize;
    let second_key = &encoded[second_offset + 4..second_offset + 4 + second_key_len];
    assert_eq!(second_key, &[0x01, 0x01]);
}

#[test]
fn encode_u64_is_little_endian() {
    assert_eq!(encode_u64(0x0102_0304_0506_0708), vec![8, 7, 6, 5, 4, 3, 2, 1]);
}

#[test]
fn encode_i64_is_twos_complement() {
    assert_eq!(encode_i64(-1), vec![0xFF; 8]);
    assert_eq!(encode_i64(1), vec![1, 0, 0, 0, 0, 0, 0, 0]);
}

#[test]
fn encode_string_is_utf8_length_prefixed() {
    assert_eq!(encode_string("é"), vec![2, 0, 0, 0, 0xC3, 0xA9]);
    assert_eq!(encode_string(""), vec![0, 0, 0, 0]);
}

#[test]
fn encode_map_keeps_equal_keys_in_input_order() {
    let entries = vec![(vec![0x01], vec![0x0A]), (vec![0x01], vec![0x0B])];
    let encoded = encode_map(&entries);
    assert_eq!(
        encoded,
        vec![2, 0, 0, 0, 1, 0, 0, 0, 1, 1, 0, 0, 0, 0x0A, 1, 0, 0, 0, 1, 1, 0, 0, 0, 0x0B]
    );
}

#[test]
fn encode_empty_list_and_map_are_zero_counts() {
    assert_eq!(encode_list(&[]), vec![0, 0, 0, 0]);
    assert_eq!(encode_map(&[]), vec![0, 0, 0, 0]);
}
