use katok::kakao::bplist::int_array;

// Synthetic fixtures produced by CPython `plistlib.dumps(obj, FMT_BINARY)`.
// Values are arbitrary, not real userIds.

// [1, 2, 3]
const BPLIST_THREE: &[u8] = &[
    0x62, 0x70, 0x6c, 0x69, 0x73, 0x74, 0x30, 0x30, 0xa3, 0x01, 0x02, 0x03, 0x10, 0x01, 0x10,
    0x02, 0x10, 0x03, 0x08, 0x0c, 0x0e, 0x10, 0x00, 0x00, 0x00, 0x00, 0x00, 0x00, 0x01, 0x01,
    0x00, 0x00, 0x00, 0x00, 0x00, 0x00, 0x00, 0x04, 0x00, 0x00, 0x00, 0x00, 0x00, 0x00, 0x00,
    0x00, 0x00, 0x00, 0x00, 0x00, 0x00, 0x00, 0x00, 0x12,
];
// [123456789]
const BPLIST_SINGLE: &[u8] = &[
    0x62, 0x70, 0x6c, 0x69, 0x73, 0x74, 0x30, 0x30, 0xa1, 0x01, 0x12, 0x07, 0x5b, 0xcd, 0x15,
    0x08, 0x0a, 0x00, 0x00, 0x00, 0x00, 0x00, 0x00, 0x01, 0x01, 0x00, 0x00, 0x00, 0x00, 0x00,
    0x00, 0x00, 0x02, 0x00, 0x00, 0x00, 0x00, 0x00, 0x00, 0x00, 0x00, 0x00, 0x00, 0x00, 0x00,
    0x00, 0x00, 0x00, 0x0f,
];
// []
const BPLIST_EMPTY: &[u8] = &[
    0x62, 0x70, 0x6c, 0x69, 0x73, 0x74, 0x30, 0x30, 0xa0, 0x08, 0x00, 0x00, 0x00, 0x00, 0x00,
    0x00, 0x01, 0x01, 0x00, 0x00, 0x00, 0x00, 0x00, 0x00, 0x00, 0x01, 0x00, 0x00, 0x00, 0x00,
    0x00, 0x00, 0x00, 0x00, 0x00, 0x00, 0x00, 0x00, 0x00, 0x00, 0x00, 0x09,
];
// 1000..=1019 (20 elements → array count nibble 0xF overflow path)
const BPLIST_BIG: &[u8] = &[
    0x62, 0x70, 0x6c, 0x69, 0x73, 0x74, 0x30, 0x30, 0xaf, 0x10, 0x14, 0x01, 0x02, 0x03, 0x04,
    0x05, 0x06, 0x07, 0x08, 0x09, 0x0a, 0x0b, 0x0c, 0x0d, 0x0e, 0x0f, 0x10, 0x11, 0x12, 0x13,
    0x14, 0x11, 0x03, 0xe8, 0x11, 0x03, 0xe9, 0x11, 0x03, 0xea, 0x11, 0x03, 0xeb, 0x11, 0x03,
    0xec, 0x11, 0x03, 0xed, 0x11, 0x03, 0xee, 0x11, 0x03, 0xef, 0x11, 0x03, 0xf0, 0x11, 0x03,
    0xf1, 0x11, 0x03, 0xf2, 0x11, 0x03, 0xf3, 0x11, 0x03, 0xf4, 0x11, 0x03, 0xf5, 0x11, 0x03,
    0xf6, 0x11, 0x03, 0xf7, 0x11, 0x03, 0xf8, 0x11, 0x03, 0xf9, 0x11, 0x03, 0xfa, 0x11, 0x03,
    0xfb, 0x08, 0x1f, 0x22, 0x25, 0x28, 0x2b, 0x2e, 0x31, 0x34, 0x37, 0x3a, 0x3d, 0x40, 0x43,
    0x46, 0x49, 0x4c, 0x4f, 0x52, 0x55, 0x58, 0x00, 0x00, 0x00, 0x00, 0x00, 0x00, 0x01, 0x01,
    0x00, 0x00, 0x00, 0x00, 0x00, 0x00, 0x00, 0x15, 0x00, 0x00, 0x00, 0x00, 0x00, 0x00, 0x00,
    0x00, 0x00, 0x00, 0x00, 0x00, 0x00, 0x00, 0x00, 0x5b,
];
// [1, 4000000000] (mixed 1-byte + 4-byte ints)
const BPLIST_WIDE: &[u8] = &[
    0x62, 0x70, 0x6c, 0x69, 0x73, 0x74, 0x30, 0x30, 0xa2, 0x01, 0x02, 0x10, 0x01, 0x12, 0xee,
    0x6b, 0x28, 0x00, 0x08, 0x0b, 0x0d, 0x00, 0x00, 0x00, 0x00, 0x00, 0x00, 0x01, 0x01, 0x00,
    0x00, 0x00, 0x00, 0x00, 0x00, 0x00, 0x03, 0x00, 0x00, 0x00, 0x00, 0x00, 0x00, 0x00, 0x00,
    0x00, 0x00, 0x00, 0x00, 0x00, 0x00, 0x00, 0x12,
];

#[test]
fn parses_small_int_array() {
    assert_eq!(int_array(BPLIST_THREE), Some(vec![1, 2, 3]));
}

#[test]
fn parses_single_four_byte_int() {
    assert_eq!(int_array(BPLIST_SINGLE), Some(vec![123_456_789]));
}

#[test]
fn parses_empty_array() {
    assert_eq!(int_array(BPLIST_EMPTY), Some(vec![]));
}

#[test]
fn parses_overflow_count_array() {
    assert_eq!(
        int_array(BPLIST_BIG),
        Some((1000..=1019).collect::<Vec<i64>>())
    );
}

#[test]
fn parses_mixed_width_ints() {
    assert_eq!(int_array(BPLIST_WIDE), Some(vec![1, 4_000_000_000]));
}

#[test]
fn rejects_non_bplist() {
    assert_eq!(
        int_array(b"not a plist at all......................."),
        None
    );
    assert_eq!(int_array(&[]), None);
    assert_eq!(int_array(b"bplist00"), None); // header only, no trailer
}

#[test]
fn rejects_truncated_offset_table() {
    // Valid header + 32-byte trailer claiming an offset table past EOF.
    let mut blob = b"bplist00".to_vec();
    blob.extend_from_slice(&[0xa0]); // empty array marker
    blob.extend(std::iter::repeat_n(0u8, 32));
    let len = blob.len();
    blob[len - 32 + 6] = 1; // offset_int_size
    blob[len - 32 + 7] = 1; // object_ref_size
    blob[len - 32 + 15] = 200; // num_objects far beyond reality
    blob[len - 32 + 31] = 9; // offset_table_offset
    assert_eq!(int_array(&blob), None);
}

#[test]
fn does_not_panic_on_fuzzy_prefixes() {
    // Truncations of a valid blob must each yield None or Some, never panic.
    for cut in 0..BPLIST_THREE.len() {
        let _ = int_array(&BPLIST_THREE[..cut]);
    }
}

#[test]
fn rejects_element_count_over_cap() {
    // A well-formed header/trailer whose array count (via the 0xF overflow
    // form) is 300 must be refused, not amplified. Layout: header, array
    // marker `af` + 2-byte int 300, a 1-entry offset table, 32-byte trailer.
    let blob: &[u8] = &[
        0x62, 0x70, 0x6c, 0x69, 0x73, 0x74, 0x30, 0x30, // bplist00
        0xaf, 0x11, 0x01, 0x2c, // array, overflow count int = 0x012c (300)
        0x08, // offset table: object 0 at byte 8
        0x00, 0x00, 0x00, 0x00, 0x00, 0x00, // trailer[0..6] unused
        0x01, // offset_int_size
        0x01, // object_ref_size
        0x00, 0x00, 0x00, 0x00, 0x00, 0x00, 0x00, 0x01, // num_objects = 1
        0x00, 0x00, 0x00, 0x00, 0x00, 0x00, 0x00, 0x00, // top_object = 0
        0x00, 0x00, 0x00, 0x00, 0x00, 0x00, 0x00, 0x0c, // offset_table_offset = 12
    ];
    assert_eq!(int_array(blob), None);
}

#[test]
fn rejects_object_offset_into_trailer() {
    // Corrupt a valid blob so its single offset-table entry points into the
    // trailer instead of the object area. Must degrade to None.
    let mut blob = BPLIST_SINGLE.to_vec();
    let table_start = blob.len() - 32 + 24; // offset_table_offset lives here
    let table_off = read_be(&blob[table_start..table_start + 8]);
    // Point the first object offset at the trailer region.
    blob[table_off] = (blob.len() - 4) as u8;
    assert_eq!(int_array(&blob), None);
}

// Big-endian read helper for the corruption test above.
fn read_be(bytes: &[u8]) -> usize {
    bytes.iter().fold(0usize, |acc, &b| (acc << 8) | b as usize)
}

#[test]
fn an_array_is_read_in_order_and_with_repetitions() {
    let mut blob = BPLIST_THREE.to_vec();
    // The third reference points at the first integer.
    blob[11] = 1;
    assert_eq!(int_array(&blob), Some(vec![1, 2, 1]));
}

#[test]
fn a_reference_past_the_objects_is_refused() {
    let mut blob = BPLIST_THREE.to_vec();
    blob[11] = 9;
    assert_eq!(int_array(&blob), None);
}
