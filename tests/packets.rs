use falcon_protocol::chunk::{Chunk, ChunkDataPacket};
use falcon_protocol::config::{FalconConfig, IpAddress, TracingLevel};
use falcon_protocol::receive::ReceiveError;
use falcon_protocol::field::{fields_size, relation_value_of, write_fields, Field, FieldError, Relation, Scalar};
use falcon_protocol::packet::encode_packet;
use falcon_protocol::buffer::PacketBuffer;
use falcon_protocol::play::{Difficulty, GameMode, JoinGamePacket, PlayerAbilitiesPacket, PlayerPositionAndLookPacket};
use falcon_protocol::section::{BlockMapper, Blocks, ChunkSection};

#[test]
fn empty_chunk_has_only_biomes() {
    let p = ChunkDataPacket::empty(3, -2);
    assert_eq!(p.bit_mask, 0);
    assert!(p.chunk_sections.is_empty());
    let (size, bytes) = encode_packet(&p);
    assert_eq!(size, bytes.len());
    let mut expected = vec![0, 0, 0, 3, 0xff, 0xff, 0xff, 0xfe, 1, 0, 0x81, 0x08];
    expected.extend(vec![0u8; 1024]);
    expected.push(0);
    assert_eq!(bytes, expected);
}

fn sample_chunk() -> Chunk {
    let mut sections: Vec<Option<ChunkSection>> = (0..16).map(|_| None).collect();
    let palette = |ids: &[u32]| ids.iter().map(|&id| Blocks { id }).collect::<Vec<_>>();
    sections[0] = Some(ChunkSection { palette: palette(&[0, 1, 2, 3, 4]), block_data: (0..4096).map(|i| (i % 5) as u16).collect() });
    sections[3] = Some(ChunkSection { palette: palette(&[0]), block_data: vec![0; 4096] });
    Chunk { x: 1, z: 2, sections }
}

#[test]
fn chunk_sections_and_bit_mask() {
    let m = BlockMapper::new((0..5).map(Some).collect()).unwrap();
    let c = sample_chunk();
    assert_eq!(c.get_bit_mask(), 0b1001);
    let p = ChunkDataPacket::from_chunk(&c, &m);
    assert_eq!(p.bit_mask, 0b1001);
    assert_eq!(p.chunk_sections.len(), 2);
    assert_eq!(p.chunk_sections[0].get_palette().as_ref().unwrap().len(), 5);
    assert_eq!(p.chunk_sections[1].get_palette(), &Some(vec![0]));
    let (size, bytes) = encode_packet(&p);
    assert_eq!(size, bytes.len());
    let s0 = p.chunk_sections[0].get_data_size();
    let s1 = p.chunk_sections[1].get_data_size();
    let data_size = 1025 + s0 + s1;
    let mut b = PacketBuffer::new();
    b.write_var_i32(data_size);
    let prefix = b.into_bytes();
    assert_eq!(&bytes[9..10], &[0x09]);
    assert_eq!(&bytes[10..10 + prefix.len()], &prefix[..]);
    assert_eq!(bytes.len(), 10 + prefix.len() + data_size as usize);
    assert_eq!(*bytes.last().unwrap(), 0);
}

#[test]
fn join_game_encoding() {
    let p = JoinGamePacket::new(7, GameMode::Creative, -1, Difficulty::Hard, 20, String::from("default"), true);
    let (size, bytes) = encode_packet(&p);
    assert_eq!(size, bytes.len());
    let mut expected = vec![0, 0, 0, 7, 1, 0xff, 0xff, 0xff, 0xff, 3, 20, 7];
    expected.extend_from_slice(b"default");
    expected.push(1);
    assert_eq!(bytes, expected);
}

#[test]
fn string_field_bound() {
    assert_eq!(Field::string(4, "abcde").err(), Some(FieldError::StringTooLong));
    assert!(Field::string(5, "abcde").is_ok());
    assert!(Field::string(3, "é").is_ok());
    assert!(Field::string(1, "é").is_err());
}

#[test]
fn fields_sizes_and_links() {
    let fields = vec![
        Field::Derived { relation: Relation::ElementCount, sources: vec![1, 2] },
        Field::Array(vec![Scalar::I32(1), Scalar::VarI32(300)]),
        Field::Sequence(vec![Scalar::U8(9), Scalar::Bool(true), Scalar::VarI64(-1)]),
        Field::Bytes(vec![1, 2, 3]),
        Field::Tree(vec![10, 0, 0, 0]),
        Field::Value(Scalar::I64(-1)),
        Field::string(16, "hi").unwrap(),
        Field::Derived { relation: Relation::EncodedSize, sources: vec![3, 4, 6] },
    ];
    let mut buf = PacketBuffer::new();
    write_fields(&fields, &mut buf);
    let bytes = buf.into_bytes();
    assert_eq!(fields_size(&fields), bytes.len());
    let mut expected = vec![5, 0, 0, 0, 1, 0xac, 0x02, 3, 9, 1];
    expected.extend(vec![0xff; 9]);
    expected.push(0x01);
    expected.extend([1, 2, 3, 10, 0, 0, 0]);
    expected.extend(vec![0xff; 8]);
    expected.extend([2, b'h', b'i']);
    expected.push(10);
    assert_eq!(bytes, expected);
}

#[test]
fn derived_relations_over_several_fields() {
    let fields = vec![
        Field::Sequence(vec![Scalar::VarI32(1); 200]),
        Field::Bytes(vec![0; 7]),
        Field::string(32767, "abc").unwrap(),
    ];
    assert_eq!(relation_value_of(&fields, Relation::ElementCount, &vec![0, 1, 2]), 210);
    assert_eq!(relation_value_of(&fields, Relation::EncodedSize, &vec![0, 1, 2]), 2 + 200 + 7 + 1 + 3);
    assert_eq!(relation_value_of(&fields, Relation::EncodedSize, &vec![1, 1]), 14);
    assert_eq!(relation_value_of(&fields, Relation::ElementCount, &vec![]), 0);
}

#[test]
fn join_game_level_type_bound() {
    let long = "a".repeat(17);
    let r = JoinGamePacket::try_new(1, GameMode::Survival, 0, Difficulty::Easy, 8, long, false);
    assert_eq!(r.err(), Some(FieldError::StringTooLong));
    let ok = "b".repeat(16);
    let p = JoinGamePacket::try_new(1, GameMode::Survival, 0, Difficulty::Easy, 8, ok, false).ok().unwrap();
    let (size, bytes) = encode_packet(&p);
    assert_eq!(size, bytes.len());
    assert_eq!(bytes.len(), 4 + 1 + 4 + 1 + 1 + 1 + 16 + 1);
    assert_eq!(&bytes[..12], &[0, 0, 0, 1, 0, 0, 0, 0, 0, 1, 8, 16]);
}

#[test]
fn player_abilities_encoding() {
    let p = PlayerAbilitiesPacket::new(0x0d, 0.05f32.to_bits(), 0.1f32.to_bits());
    let (size, bytes) = encode_packet(&p);
    assert_eq!(size, bytes.len());
    let mut expected = vec![0x0d];
    expected.extend(0.05f32.to_be_bytes());
    expected.extend(0.1f32.to_be_bytes());
    assert_eq!(bytes, expected);
}

#[test]
fn player_position_and_look_encoding() {
    let p = PlayerPositionAndLookPacket::new(
        1.5f64.to_bits(),
        64.0f64.to_bits(),
        (-3.25f64).to_bits(),
        90.0f32.to_bits(),
        (-10.0f32).to_bits(),
        0,
        300,
    );
    let (size, bytes) = encode_packet(&p);
    assert_eq!(size, bytes.len());
    let mut expected = Vec::new();
    expected.extend(1.5f64.to_be_bytes());
    expected.extend(64.0f64.to_be_bytes());
    expected.extend((-3.25f64).to_be_bytes());
    expected.extend(90.0f32.to_be_bytes());
    expected.extend((-10.0f32).to_be_bytes());
    expected.extend([0, 0xac, 0x02]);
    assert_eq!(bytes, expected);
}

#[test]
fn config_defaults() {
    let c = FalconConfig::default();
    assert_eq!(c.server_port(), 30000);
    assert_eq!(c.server_ip(), IpAddress::V4(0, 0, 0, 0));
    assert_eq!(c.max_players(), -1);
    assert_eq!(c.description(), "§eFalcon server§r§b!!!");
    assert_eq!(c.world_file(), None);
    assert_eq!(c.tracing_level(), TracingLevel::Info);
    assert!(!c.allow_flight());
    assert_eq!(c.max_view_distance(), 10);
    assert_eq!(c.spawn_pos().x_bits, 0);
    assert_eq!(c.spawn_look().yaw_bits, 0);
    assert!(c.excluded_versions().is_empty());
}

#[test]
fn receive_error_message() {
    assert_eq!(ReceiveError::PlayerNotFound.message(), "The player could not be found");
}
