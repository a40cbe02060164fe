//! Play-state packets whose fields are listed with directives.
use crate::buffer::{be32, be64, PacketBuffer};
use crate::field::{fields_bytes, fields_size, packet_bytes, write_fields, Field, Scalar};
use crate::packet::PacketEncode;
use crate::varint::{get_var_i32_size, lemma_var_len_bounds, var_i32_bytes};
use crate::field::FieldError;
use vstd::prelude::*;
use vstd::string::StrSliceExecFns;
use vstd::utf8::encode_utf8;

verus! {

/// Greatest number of bytes of the level type.
pub const LEVEL_TYPE_MAX_LENGTH: usize = 16;

#[derive(Debug, Clone, Copy, PartialEq, Eq, Structural)]
pub enum GameMode {
    Survival,
    Creative,
    Adventure,
    Spectator,
}

#[derive(Debug, Clone, Copy, PartialEq, Eq, Structural)]
pub enum Difficulty {
    Peaceful,
    Easy,
    Normal,
    Hard,
}

pub open spec fn game_mode_id(g: GameMode) -> u8 {
    match g {
        GameMode::Survival => 0,
        GameMode::Creative => 1,
        GameMode::Adventure => 2,
        GameMode::Spectator => 3,
    }
}

pub open spec fn difficulty_id(d: Difficulty) -> u8 {
    match d {
        Difficulty::Peaceful => 0,
        Difficulty::Easy => 1,
        Difficulty::Normal => 2,
        Difficulty::Hard => 3,
    }
}

impl GameMode {
    pub fn id(&self) -> (r: u8)
        ensures
            r == game_mode_id(*self),
    {
        match self {
            GameMode::Survival => 0,
            GameMode::Creative => 1,
            GameMode::Adventure => 2,
            GameMode::Spectator => 3,
        }
    }
}

impl Difficulty {
    pub fn id(&self) -> (r: u8)
        ensures
            r == difficulty_id(*self),
    {
        match self {
            Difficulty::Peaceful => 0,
            Difficulty::Easy => 1,
            Difficulty::Normal => 2,
            Difficulty::Hard => 3,
        }
    }
}

pub struct JoinGamePacket {
    pub entity_id: i32,
    pub game_mode: u8,
    pub dimension: i32,
    pub difficulty: u8,
    pub max_players: u8,
    pub level_type: String,
    pub reduced_debug: bool,
}

/// The packet's bytes: entity id, game mode, dimension, difficulty, player
/// limit, the level type with its length in front, the debug flag.
pub open spec fn join_game_bytes(p: JoinGamePacket) -> Seq<u8> {
    let lt = encode_utf8(p.level_type@);
    be32(p.entity_id as u32) + seq![p.game_mode] + be32(p.dimension as u32) + seq![p.difficulty, p.max_players]
        + var_i32_bytes(lt.len() as i32) + lt + seq![if p.reduced_debug { 1u8 } else { 0u8 }]
}

impl JoinGamePacket {
    pub fn new(
        entity_id: i32,
        game_mode: GameMode,
        dimension: i32,
        difficulty: Difficulty,
        max_players: u8,
        level_type: String,
        reduced_debug: bool,
    ) -> (r: JoinGamePacket)
        ensures
            r.entity_id == entity_id,
            r.game_mode == game_mode_id(game_mode),
            r.dimension == dimension,
            r.difficulty == difficulty_id(difficulty),
            r.max_players == max_players,
            r.level_type@ == level_type@,
            r.reduced_debug == reduced_debug,
    {
        JoinGamePacket {
            entity_id,
            game_mode: game_mode.id(),
            dimension,
            difficulty: difficulty.id(),
            max_players,
            level_type,
            reduced_debug,
        }
    }

    /// Like `new`, but refuses a level type of more than 16 bytes, which the
    /// packet cannot carry.
    pub fn try_new(
        entity_id: i32,
        game_mode: GameMode,
        dimension: i32,
        difficulty: Difficulty,
        max_players: u8,
        level_type: String,
        reduced_debug: bool,
    ) -> (r: Result<JoinGamePacket, FieldError>)
        ensures
            r is Err <==> encode_utf8(level_type@).len() > LEVEL_TYPE_MAX_LENGTH,
            r matches Err(e) ==> e == FieldError::StringTooLong,
            r matches Ok(p) ==> {
                &&& p.entity_id == entity_id
                &&& p.game_mode == game_mode_id(game_mode)
                &&& p.dimension == dimension
                &&& p.difficulty == difficulty_id(difficulty)
                &&& p.max_players == max_players
                &&& p.level_type@ == level_type@
                &&& p.reduced_debug == reduced_debug
                &&& p.well_formed()
            },
    {
        if level_type.as_str().as_bytes_vec().len() > LEVEL_TYPE_MAX_LENGTH {
            return Err(FieldError::StringTooLong);
        }
        Ok(JoinGamePacket::new(entity_id, game_mode, dimension, difficulty, max_players, level_type, reduced_debug))
    }

    /// The fields in declaration order, each with its directive.
    fn fields(&self) -> (r: Vec<Field>)
        requires
            encode_utf8(self.level_type@).len() <= LEVEL_TYPE_MAX_LENGTH,
        ensures
            crate::field::fields_ok(r@),
            packet_bytes(r@) == join_game_bytes(*self),
    {
        let level_type = Field::Str {
            max_length: LEVEL_TYPE_MAX_LENGTH,
            value: self.level_type.as_str().as_bytes_vec(),
        };
        let mut fields: Vec<Field> = Vec::new();
        fields.push(Field::Value(Scalar::I32(self.entity_id)));
        fields.push(Field::Value(Scalar::U8(self.game_mode)));
        fields.push(Field::Value(Scalar::I32(self.dimension)));
        fields.push(Field::Value(Scalar::U8(self.difficulty)));
        fields.push(Field::Value(Scalar::U8(self.max_players)));
        fields.push(level_type);
        fields.push(Field::Value(Scalar::Bool(self.reduced_debug)));
        proof {
            let all = fields@;
            assert(fields_bytes(all, 0) == Seq::<u8>::empty());
            assert(fields_bytes(all, 7) =~= join_game_bytes(*self)) by {
                assert(fields_bytes(all, 1) =~= be32(self.entity_id as u32));
                assert(fields_bytes(all, 2) =~= fields_bytes(all, 1) + seq![self.game_mode]);
                assert(fields_bytes(all, 3) =~= fields_bytes(all, 2) + be32(self.dimension as u32));
                assert(fields_bytes(all, 4) =~= fields_bytes(all, 3) + seq![self.difficulty]);
                assert(fields_bytes(all, 5) =~= fields_bytes(all, 4) + seq![self.max_players]);
                let lt = encode_utf8(self.level_type@);
                assert(fields_bytes(all, 6) =~= fields_bytes(all, 5) + var_i32_bytes(lt.len() as i32) + lt);
                assert(fields_bytes(all, 7) =~= fields_bytes(all, 6) + seq![
                    if self.reduced_debug {
                        1u8
                    } else {
                        0u8
                    },
                ]);
            }
            assert forall|i: int| 0 <= i < all.len() implies crate::field::field_ok(all, #[trigger] all[i]) by {}
        }
        fields
    }
}

impl PacketEncode for JoinGamePacket {
    open spec fn well_formed(&self) -> bool {
        encode_utf8(self.level_type@).len() <= LEVEL_TYPE_MAX_LENGTH
    }

    open spec fn encoding(&self) -> Seq<u8> {
        join_game_bytes(*self)
    }

    fn size(&self) -> (r: usize) {
        fields_size(&self.fields())
    }

    fn to_buf(&self, buf: &mut PacketBuffer) {
        write_fields(&self.fields(), buf);
    }
}

/// The abilities of a player; the speeds are held as the bit patterns of
/// 32-bit floating-point values.
pub struct PlayerAbilitiesPacket {
    pub flags: u8,
    pub flying_speed_bits: u32,
    pub fov_modifier_bits: u32,
}

impl PlayerAbilitiesPacket {
    pub fn new(flags: u8, flying_speed_bits: u32, fov_modifier_bits: u32) -> (r: PlayerAbilitiesPacket)
        ensures
            r.flags == flags,
            r.flying_speed_bits == flying_speed_bits,
            r.fov_modifier_bits == fov_modifier_bits,
    {
        PlayerAbilitiesPacket { flags, flying_speed_bits, fov_modifier_bits }
    }
}

impl PacketEncode for PlayerAbilitiesPacket {
    open spec fn well_formed(&self) -> bool {
        true
    }

    /// The flags, then the two floats, big-endian.
    open spec fn encoding(&self) -> Seq<u8> {
        seq![self.flags] + be32(self.flying_speed_bits) + be32(self.fov_modifier_bits)
    }

    fn size(&self) -> (r: usize) {
        1 + 4 + 4
    }

    fn to_buf(&self, buf: &mut PacketBuffer) {
        buf.write_u8(self.flags);
        buf.write_u32(self.flying_speed_bits);
        buf.write_u32(self.fov_modifier_bits);
        assert(buf@ =~= old(buf)@ + self.encoding());
    }
}

/// Where a player stands and looks; the coordinates are held as the bit
/// patterns of 64-bit floating-point values, the angles as those of 32-bit
/// ones.
pub struct PlayerPositionAndLookPacket {
    pub x_bits: u64,
    pub y_bits: u64,
    pub z_bits: u64,
    pub yaw_bits: u32,
    pub pitch_bits: u32,
    pub flags: u8,
    pub teleport_id: i32,
}

impl PlayerPositionAndLookPacket {
    pub fn new(
        x_bits: u64,
        y_bits: u64,
        z_bits: u64,
        yaw_bits: u32,
        pitch_bits: u32,
        flags: u8,
        teleport_id: i32,
    ) -> (r: PlayerPositionAndLookPacket)
        ensures
            r.x_bits == x_bits,
            r.y_bits == y_bits,
            r.z_bits == z_bits,
            r.yaw_bits == yaw_bits,
            r.pitch_bits == pitch_bits,
            r.flags == flags,
            r.teleport_id == teleport_id,
    {
        PlayerPositionAndLookPacket { x_bits, y_bits, z_bits, yaw_bits, pitch_bits, flags, teleport_id }
    }
}

impl PacketEncode for PlayerPositionAndLookPacket {
    open spec fn well_formed(&self) -> bool {
        true
    }

    /// x, y, z, yaw and pitch big-endian, the flags, then the teleport id as a
    /// variable-length integer.
    open spec fn encoding(&self) -> Seq<u8> {
        be64(self.x_bits) + be64(self.y_bits) + be64(self.z_bits) + be32(self.yaw_bits) + be32(self.pitch_bits)
            + seq![self.flags] + var_i32_bytes(self.teleport_id)
    }

    fn size(&self) -> (r: usize) {
        proof {
            lemma_var_len_bounds(self.teleport_id, 0);
        }
        8 * 3 + 4 * 2 + 1 + get_var_i32_size(self.teleport_id)
    }

    fn to_buf(&self, buf: &mut PacketBuffer) {
        buf.write_u64(self.x_bits);
        buf.write_u64(self.y_bits);
        buf.write_u64(self.z_bits);
        buf.write_u32(self.yaw_bits);
        buf.write_u32(self.pitch_bits);
        buf.write_u8(self.flags);
        buf.write_var_i32(self.teleport_id);
        assert(buf@ =~= old(buf)@ + self.encoding());
    }
}

} // verus!
