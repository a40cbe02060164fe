use falcon_protocol::buffer::PacketBuffer;
use falcon_protocol::packet::{encode_packet, PacketEncode};
use falcon_protocol::packing::unpack_data_array;
use falcon_protocol::section::{BlockMapper, Blocks, ChunkSection, ChunkSectionData};

/// Blocks 0..n map to protocol ids 10 * id, block `unknown` to nothing.
fn mapper(n: u32, unknown: Option<u32>) -> BlockMapper {
    let table = (0..n)
        .map(|i| if Some(i) == unknown { None } else { Some((i * 10) as i32) })
        .collect();
    BlockMapper::new(table).unwrap()
}

fn section(palette: Vec<u32>, block_data: Vec<u16>) -> ChunkSection {
    ChunkSection { palette: palette.into_iter().map(|id| Blocks { id }).collect(), block_data }
}

fn cycling_section(count: u32) -> ChunkSection {
    let data = (0..4096).map(|i| (i % count as usize) as u16).collect();
    section((0..count).collect(), data)
}

#[test]
fn bits_per_block_boundaries() {
    let m = mapper(300, None);
    for (count, bits) in [(1, 4), (16, 4), (17, 5), (256, 8), (257, 14)] {
        let d = ChunkSectionData::from_section(&cycling_section(count), &m);
        assert_eq!(d.get_bits_per_block(), bits, "palette of {}", count);
        assert_eq!(d.get_palette().is_some(), bits != 14);
        assert_eq!(d.get_block_data().len(), 64 * bits as usize);
    }
}

#[test]
fn palette_compaction_removes_unknown_blocks() {
    // Air, Stone, an unknown block, Dirt.
    let m = mapper(4, Some(2));
    let data: Vec<u16> = (0..4096).map(|i| (i % 4) as u16).collect();
    let d = ChunkSectionData::from_section(&section(vec![0, 1, 2, 3], data), &m);
    assert_eq!(d.get_bits_per_block(), 4);
    assert_eq!(d.get_palette(), &Some(vec![0, 10, 30]));
    let ids = unpack_data_array(4, d.get_block_data(), 4096);
    for (i, id) in ids.iter().enumerate() {
        let expected = [0, 1, 0, 2][i % 4];
        assert_eq!(*id, expected);
    }
}

#[test]
fn five_block_section_end_to_end() {
    let m = mapper(5, None);
    let d = ChunkSectionData::from_section(&cycling_section(5), &m);
    assert_eq!(d.get_bits_per_block(), 4);
    assert_eq!(d.get_palette().as_ref().unwrap().len(), 5);
    assert_eq!(d.get_block_data().len(), 256);
    let (size, bytes) = encode_packet(&d);
    assert_eq!(size, bytes.len());
    assert_eq!(d.get_data_size() as usize, bytes.len());
    // bits, palette count and 5 one-byte ids, word count (2 bytes), words, light.
    assert_eq!(bytes.len(), 1 + 1 + 5 + 2 + 256 * 8 + 4096);
    assert_eq!(&bytes[..9], &[4, 5, 0, 10, 20, 30, 40, 0x80, 0x02]);
}

#[test]
fn direct_mode_sends_air_for_unknown_blocks() {
    let mut table: Vec<Option<i32>> = (0..300).map(|i| Some(i + 1)).collect();
    table[7] = None;
    let m = BlockMapper::new(table).unwrap();
    let mut s = cycling_section(300);
    s.block_data[0] = 7;
    let d = ChunkSectionData::from_section(&s, &m);
    assert_eq!(d.get_bits_per_block(), 14);
    assert_eq!(d.get_palette(), &None);
    let ids = unpack_data_array(14, d.get_block_data(), 4096);
    assert_eq!(ids[0], 1); // Air's id
    assert_eq!(ids[1], 2);
    assert_eq!(ids[299], 300);
    assert_eq!(ids[300], 1);
}

#[test]
fn all_unknown_palette_uses_four_bits() {
    let m = mapper(3, Some(2));
    let d = ChunkSectionData::from_section(&section(vec![2], vec![0; 4096]), &m);
    assert_eq!(d.get_bits_per_block(), 4);
    assert_eq!(d.get_palette(), &Some(vec![]));
    assert!(d.get_block_data().iter().all(|w| *w == 0));
}

#[test]
fn mapper_rejects_out_of_range_ids() {
    assert!(BlockMapper::new(vec![Some(0), Some(0x4000)]).is_none());
    assert!(BlockMapper::new(vec![Some(0), Some(-1)]).is_none());
    assert!(BlockMapper::new(vec![None, Some(1)]).is_none());
    assert!(BlockMapper::new(vec![]).is_none());
    let m = BlockMapper::new(vec![Some(0), None, Some(0x3fff)]).unwrap();
    assert_eq!(m.map(&Blocks { id: 2 }), Some(0x3fff));
    assert_eq!(m.map(&Blocks { id: 1 }), None);
    assert_eq!(m.map(&Blocks { id: 9 }), None);
    assert_eq!(m.map(&Blocks::air()), Some(0));
}

#[test]
fn section_size_matches_encoding() {
    let m = mapper(300, Some(5));
    for count in [1, 2, 20, 200, 300] {
        let d = ChunkSectionData::from_section(&cycling_section(count), &m);
        let mut buf = PacketBuffer::new();
        d.to_buf(&mut buf);
        assert_eq!(d.size(), buf.len());
        assert_eq!(d.get_data_size() as usize, buf.len());
    }
}
