use rolly::proto::{
    encode_bytes_field, encode_fixed64_field, encode_fixed64_field_always, encode_message_field,
    encode_message_field_in_place, encode_packed_double_field, encode_packed_fixed64_field,
    encode_string_field, encode_tag, encode_varint, encode_varint_field,
    encode_varint_field_always, encode_varint_to_slice, varint_tag_len,
};

#[test]
fn varint_zero() {
    let mut buf = Vec::new();
    encode_varint(&mut buf, 0);
    assert_eq!(buf, vec![0x00]);
}

#[test]
fn varint_one() {
    let mut buf = Vec::new();
    encode_varint(&mut buf, 1);
    assert_eq!(buf, vec![0x01]);
}

#[test]
fn varint_127() {
    let mut buf = Vec::new();
    encode_varint(&mut buf, 127);
    assert_eq!(buf, vec![0x7F]);
}

#[test]
fn varint_128() {
    let mut buf = Vec::new();
    encode_varint(&mut buf, 128);
    assert_eq!(buf, vec![0x80, 0x01]);
}

#[test]
fn varint_300() {
    let mut buf = Vec::new();
    encode_varint(&mut buf, 300);
    assert_eq!(buf, vec![0xAC, 0x02]);
}

#[test]
fn string_field_encoding() {
    let mut buf = Vec::new();
    encode_string_field(&mut buf, 1, "hi");
    assert_eq!(buf, vec![0x0A, 0x02, b'h', b'i']);
}

#[test]
fn string_field_empty_is_skipped() {
    let mut buf = Vec::new();
    encode_string_field(&mut buf, 1, "");
    assert!(buf.is_empty());
}

#[test]
fn fixed64_encoding() {
    let mut buf = Vec::new();
    encode_fixed64_field(&mut buf, 1, 0x0102030405060708);
    assert_eq!(
        buf,
        vec![0x09, 0x08, 0x07, 0x06, 0x05, 0x04, 0x03, 0x02, 0x01]
    );
}

#[test]
fn fixed64_zero_is_skipped() {
    let mut buf = Vec::new();
    encode_fixed64_field(&mut buf, 1, 0);
    assert!(buf.is_empty());
}

#[test]
fn fixed64_always_encodes_zero() {
    let mut buf = Vec::new();
    encode_fixed64_field_always(&mut buf, 1, 0);
    assert_eq!(buf, vec![0x09, 0, 0, 0, 0, 0, 0, 0, 0]);
}

#[test]
fn varint_always_encodes_zero() {
    let mut buf = Vec::new();
    encode_varint_field_always(&mut buf, 2, 0);
    // tag = (2<<3)|0 = 0x10, value = 0x00
    assert_eq!(buf, vec![0x10, 0x00]);
}

#[test]
fn nested_message_encoding() {
    let mut inner = Vec::new();
    encode_string_field(&mut inner, 1, "ab");

    let mut buf = Vec::new();
    encode_message_field(&mut buf, 2, &inner);

    assert_eq!(buf, vec![0x12, 0x04, 0x0A, 0x02, b'a', b'b']);
}

#[test]
fn varint_field_encoding() {
    let mut buf = Vec::new();
    encode_varint_field(&mut buf, 3, 150);
    assert_eq!(buf, vec![0x18, 0x96, 0x01]);
}

#[test]
fn varint_field_zero_is_skipped() {
    let mut buf = Vec::new();
    encode_varint_field(&mut buf, 3, 0);
    assert!(buf.is_empty());
}

#[test]
fn bytes_field_encoding() {
    let mut buf = Vec::new();
    encode_bytes_field(&mut buf, 1, &[0xDE, 0xAD]);
    assert_eq!(buf, vec![0x0A, 0x02, 0xDE, 0xAD]);
}

#[test]
fn packed_fixed64_encoding() {
    let mut buf = Vec::new();
    encode_packed_fixed64_field(&mut buf, 6, &[1, 2, 3]);
    // tag = (6<<3)|2 = 0x32, length = 24 = 0x18
    assert_eq!(buf[0], 0x32);
    assert_eq!(buf[1], 0x18);
    assert_eq!(buf.len(), 2 + 24);
    // First value: 1 as LE fixed64
    assert_eq!(&buf[2..10], &1u64.to_le_bytes());
    assert_eq!(&buf[10..18], &2u64.to_le_bytes());
    assert_eq!(&buf[18..26], &3u64.to_le_bytes());
}

#[test]
fn packed_fixed64_empty_is_skipped() {
    let mut buf = Vec::new();
    encode_packed_fixed64_field(&mut buf, 6, &[]);
    assert!(buf.is_empty());
}

#[test]
fn packed_double_encoding() {
    let mut buf = Vec::new();
    encode_packed_double_field(&mut buf, 7, &[1.0f64.to_bits(), 2.5f64.to_bits()]);
    // tag = (7<<3)|2 = 0x3A, length = 16 = 0x10
    assert_eq!(buf[0], 0x3A);
    assert_eq!(buf[1], 0x10);
    assert_eq!(buf.len(), 2 + 16);
    assert_eq!(&buf[2..10], &1.0f64.to_bits().to_le_bytes());
    assert_eq!(&buf[10..18], &2.5f64.to_bits().to_le_bytes());
}

#[test]
fn packed_double_empty_is_skipped() {
    let mut buf = Vec::new();
    encode_packed_double_field(&mut buf, 7, &[]);
    assert!(buf.is_empty());
}

#[test]
fn encode_message_field_in_place_matches_original() {
    // Build with original approach
    let mut inner = Vec::new();
    encode_string_field(&mut inner, 1, "ab");
    let mut expected = Vec::new();
    encode_message_field(&mut expected, 2, &inner);

    // Build with in-place approach
    let mut actual = Vec::new();
    encode_message_field_in_place(&mut actual, 2, |buf| {
        encode_string_field(buf, 1, "ab");
    });

    assert_eq!(actual, expected);
}

#[test]
fn encode_message_field_in_place_empty_body_is_skipped() {
    let mut buf = Vec::new();
    encode_message_field_in_place(&mut buf, 2, |_buf| {
        // write nothing
    });
    assert!(buf.is_empty());
}

#[test]
fn encode_message_field_in_place_nested() {
    // Nested in-place: outer message containing inner message
    let mut expected_inner = Vec::new();
    encode_string_field(&mut expected_inner, 1, "hello");
    let mut expected_mid = Vec::new();
    encode_message_field(&mut expected_mid, 1, &expected_inner);
    let mut expected = Vec::new();
    encode_message_field(&mut expected, 2, &expected_mid);

    let mut actual = Vec::new();
    encode_message_field_in_place(&mut actual, 2, |buf| {
        encode_message_field_in_place(buf, 1, |buf| {
            encode_string_field(buf, 1, "hello");
        });
    });

    assert_eq!(actual, expected);
}

#[test]
fn encode_message_field_in_place_large_body() {
    // Body > 127 bytes requires multi-byte varint length
    let large_data = vec![0x42u8; 200];

    let mut expected = Vec::new();
    encode_message_field(&mut expected, 1, &large_data);

    let mut actual = Vec::new();
    encode_message_field_in_place(&mut actual, 1, |buf| {
        buf.extend_from_slice(&large_data);
    });

    assert_eq!(actual, expected);
}

#[test]
fn varint_of_the_largest_number_has_ten_bytes() {
    let mut buf = Vec::new();
    encode_varint(&mut buf, u64::MAX);
    assert_eq!(
        buf,
        vec![0xFF, 0xFF, 0xFF, 0xFF, 0xFF, 0xFF, 0xFF, 0xFF, 0xFF, 0x01]
    );
}

#[test]
fn varint_to_slice_matches_varint() {
    for val in [0u64, 1, 127, 128, 300, 16_383, 16_384, 0xFFFF_FFFF] {
        let mut slice = [0u8; 5];
        let len = encode_varint_to_slice(&mut slice, val);
        let mut buf = Vec::new();
        encode_varint(&mut buf, val);
        assert_eq!(&slice[..len], &buf[..]);
    }
}

#[test]
fn tag_lengths_match_tags() {
    for field in [1u32, 15, 16, 2047, 2048, 262_143, 262_144, 0x1FFF_FFFF] {
        let mut buf = Vec::new();
        encode_tag(&mut buf, field, 2);
        assert_eq!(buf.len(), varint_tag_len(field));
    }
}

#[test]
fn tag_of_every_width() {
    let mut buf = Vec::new();
    encode_tag(&mut buf, 1, 2);
    assert_eq!(buf, vec![0x0A]);
    buf.clear();
    encode_tag(&mut buf, u32::MAX, 2);
    assert_eq!(buf, vec![0xFA, 0xFF, 0xFF, 0xFF, 0x7F]);
}

#[test]
fn tag_lays_a_wide_wire_type_over_the_number() {
    let mut buf = Vec::new();
    encode_tag(&mut buf, 1, 255);
    assert_eq!(buf, vec![0xFF, 0x01]);
}

#[test]
fn body_is_written_behind_the_key_and_five_zeros() {
    let mut buf = vec![9];
    encode_message_field_in_place(&mut buf, 1, |b: &mut Vec<u8>| {
        assert_eq!(*b, vec![9, 0x0A, 0, 0, 0, 0, 0]);
        b.push(7);
    });
    assert_eq!(buf, vec![9, 0x0A, 1, 7]);
}
