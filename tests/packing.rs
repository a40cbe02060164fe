use falcon_protocol::packing::{build_compacted_data_array, unpack_data_array};

#[test]
fn packs_without_padding() {
    // 4-bit values: sixteen to a word, lowest first.
    let ids: Vec<u64> = (0..16).collect();
    assert_eq!(build_compacted_data_array(4, &ids), vec![0xfedc_ba98_7654_3210]);
    // 5-bit values: the thirteenth straddles the two words.
    let ids: Vec<u64> = vec![31; 13];
    let words = build_compacted_data_array(5, &ids);
    assert_eq!(words.len(), 2);
    assert_eq!(words[0], u64::MAX);
    assert_eq!(words[1], 0x1);
}

#[test]
fn straddling_value_is_split_low_bits_first() {
    let mut ids = vec![0u64; 12];
    ids.push(0b10110);
    let words = build_compacted_data_array(5, &ids);
    assert_eq!(words[0], 0b0110 << 60);
    assert_eq!(words[1], 0b1);
}

#[test]
fn pack_unpack_round_trip() {
    for bits in [4u8, 5, 7, 8, 13, 14] {
        let n = 4096usize;
        let ids: Vec<u64> = (0..n as u64).map(|i| (i * 2654435761) % (1u64 << bits)).collect();
        let words = build_compacted_data_array(bits, &ids);
        assert_eq!(words.len(), (n * bits as usize + 63) / 64);
        assert_eq!(unpack_data_array(bits, &words, n), ids);
    }
}

#[test]
fn word_count_rounds_up() {
    assert_eq!(build_compacted_data_array(14, &vec![1; 5]).len(), 2);
    assert_eq!(build_compacted_data_array(4, &vec![]).len(), 0);
}
