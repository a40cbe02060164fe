//! Chunks and the chunk data packet.
use crate::buffer::{be32, repeat, PacketBuffer};
use crate::packet::PacketEncode;
use crate::section::{compacts, section_bytes, BlockMapper, ChunkSection, ChunkSectionData};
use crate::varint::{get_var_i32_size, lemma_var_len_bounds, var_i32_bytes};
use vstd::arithmetic::power2::pow2;
use vstd::prelude::*;

verus! {

/// Number of vertical sections in a chunk.
pub const SECTION_COUNT: usize = 16;

/// Number of biome entries: one per column (16 × 16).
pub const BIOME_COUNT: usize = 256;

/// A column of 16 sections at chunk coordinates (x, z); a slot without a
/// section holds no terrain.
pub struct Chunk {
    pub x: i32,
    pub z: i32,
    pub sections: Vec<Option<ChunkSection>>,
}

/// The bit mask with bit `i` set exactly where slot `i` holds a section.
pub open spec fn mask_of(s: Seq<Option<ChunkSection>>) -> nat
    decreases s.len(),
{
    if s.len() == 0 {
        0
    } else {
        mask_of(s.drop_last()) + if s.last() is Some { pow2((s.len() - 1) as nat) } else { 0 }
    }
}

/// The sections present in `s`, lowest slot first.
pub open spec fn present(s: Seq<Option<ChunkSection>>) -> Seq<ChunkSection>
    decreases s.len(),
{
    if s.len() == 0 {
        Seq::empty()
    } else {
        present(s.drop_last()) + match s.last() {
            Some(c) => seq![c],
            None => Seq::empty(),
        }
    }
}

proof fn lemma_mask_bound(s: Seq<Option<ChunkSection>>)
    ensures
        mask_of(s) < pow2(s.len()),
    decreases s.len(),
{
    if s.len() > 0 {
        vstd::arithmetic::power2::lemma_pow2_unfold(s.len());
        lemma_mask_bound(s.drop_last());
    } else {
        vstd::arithmetic::power2::lemma2_to64();
    }
}

proof fn lemma_present_len(s: Seq<Option<ChunkSection>>)
    ensures
        present(s).len() <= s.len(),
    decreases s.len(),
{
    if s.len() > 0 {
        lemma_present_len(s.drop_last());
    }
}

impl Chunk {
    pub open spec fn well_formed(&self) -> bool {
        &&& self.sections@.len() == SECTION_COUNT
        &&& forall|i: int| 0 <= i < SECTION_COUNT ==> (#[trigger] self.sections@[i] matches Some(c) ==> c.well_formed())
    }

    pub fn get_position(&self) -> (r: (i32, i32))
        ensures
            r == (self.x, self.z),
    {
        (self.x, self.z)
    }

    pub fn get_chunk_sections(&self) -> (r: &Vec<Option<ChunkSection>>)
        ensures
            r == &self.sections,
    {
        &self.sections
    }

    /// Bit `i` is set exactly where section `i` is present.
    pub fn get_bit_mask(&self) -> (r: i32)
        requires
            self.well_formed(),
        ensures
            r as nat == mask_of(self.sections@),
    {
        let mut mask: u32 = 0;
        let mut bit: u32 = 1;
        let mut i: usize = 0;
        proof {
            vstd::arithmetic::power2::lemma2_to64();
        }
        while i < SECTION_COUNT
            invariant
                self.sections@.len() == SECTION_COUNT,
                i <= SECTION_COUNT,
                mask as nat == mask_of(self.sections@.subrange(0, i as int)),
                bit as nat == pow2(i as nat),
                pow2(16) == 0x1_0000,
            decreases SECTION_COUNT - i,
        {
            proof {
                let s = self.sections@.subrange(0, i + 1);
                assert(s.drop_last() =~= self.sections@.subrange(0, i as int));
                lemma_mask_bound(s);
                lemma_mask_bound(self.sections@.subrange(0, i as int));
                vstd::arithmetic::power2::lemma_pow2_unfold((i + 1) as nat);
                if i + 1 < 16 {
                    vstd::arithmetic::power2::lemma_pow2_strictly_increases((i + 1) as nat, 16);
                }
                if i < 16 {
                    vstd::arithmetic::power2::lemma_pow2_strictly_increases(i as nat, 16);
                }
            }
            if self.sections[i].is_some() {
                mask = mask + bit;
            }
            bit = bit * 2;
            i = i + 1;
        }
        proof {
            assert(self.sections@.subrange(0, SECTION_COUNT as int) =~= self.sections@);
            lemma_mask_bound(self.sections@);
        }
        mask as i32
    }
}

/// A full chunk, its populated sections compacted for the wire.
pub struct ChunkDataPacket {
    pub chunk_x: i32,
    pub chunk_z: i32,
    pub bit_mask: i32,
    pub chunk_sections: Vec<ChunkSectionData>,
}

/// The bytes of the sections, in order.
pub open spec fn sections_bytes(s: Seq<ChunkSectionData>) -> Seq<u8>
    decreases s.len(),
{
    if s.len() == 0 {
        Seq::empty()
    } else {
        sections_bytes(s.drop_last()) + section_bytes(s.last())
    }
}

/// Size of everything that follows the size field: the sections, the biome
/// table, and the one-byte block entity count.
pub open spec fn payload_size(s: Seq<ChunkSectionData>) -> int {
    sections_bytes(s).len() + 4 * BIOME_COUNT + 1
}

/// What follows the size field: the sections, the biome table (all zero),
/// and no block entities.
pub open spec fn following_bytes(p: ChunkDataPacket) -> Seq<u8> {
    sections_bytes(p.chunk_sections@) + repeat(0, 4 * BIOME_COUNT as nat) + seq![0u8]
}

/// The packet's bytes: position, the full-chunk flag, the bit mask, the data
/// size, then the data itself.
pub open spec fn chunk_bytes(p: ChunkDataPacket) -> Seq<u8> {
    be32(p.chunk_x as u32) + be32(p.chunk_z as u32) + seq![1u8] + var_i32_bytes(p.bit_mask) + var_i32_bytes(
        payload_size(p.chunk_sections@) as i32,
    ) + following_bytes(p)
}

/// The size announced in a chunk packet is the number of bytes written after
/// it, and fits the size field.
pub proof fn lemma_payload_size_counts_following(p: ChunkDataPacket)
    requires
        sections_ok(p.chunk_sections@),
    ensures
        following_bytes(p).len() == payload_size(p.chunk_sections@),
        0 < payload_size(p.chunk_sections@) <= i32::MAX,
{
    lemma_sections_len(p.chunk_sections@);
}

pub open spec fn sections_ok(s: Seq<ChunkSectionData>) -> bool {
    &&& s.len() <= SECTION_COUNT
    &&& forall|k: int| 0 <= k < s.len() ==> (#[trigger] s[k]).well_formed_spec()
}

proof fn lemma_sections_len(s: Seq<ChunkSectionData>)
    requires
        sections_ok(s),
    ensures
        sections_bytes(s).len() <= 14000 * s.len(),
    decreases s.len(),
{
    if s.len() > 0 {
        let t = s.drop_last();
        assert(sections_ok(t)) by {
            assert forall|k: int| 0 <= k < t.len() implies (#[trigger] t[k]).well_formed_spec() by {
                assert(t[k] == s[k]);
            }
        }
        lemma_sections_len(t);
        crate::section::lemma_section_bytes_len(s.last());
    }
}

impl ChunkDataPacket {
    /// Compacts every present section of `chunk`, lowest first.
    pub fn from_chunk(chunk: &Chunk, mapper: &BlockMapper) -> (r: ChunkDataPacket)
        requires
            chunk.well_formed(),
            mapper.well_formed(),
        ensures
            r.chunk_x == chunk.x,
            r.chunk_z == chunk.z,
            r.bit_mask as nat == mask_of(chunk.sections@),
            r.chunk_sections@.len() == present(chunk.sections@).len(),
            forall|k: int|
                0 <= k < r.chunk_sections@.len() ==> compacts(
                    #[trigger] r.chunk_sections@[k],
                    present(chunk.sections@)[k],
                    *mapper,
                ),
            sections_ok(r.chunk_sections@),
    {
        let (chunk_x, chunk_z) = chunk.get_position();
        let bit_mask = chunk.get_bit_mask();
        let all = chunk.get_chunk_sections();
        let mut chunk_sections: Vec<ChunkSectionData> = Vec::new();
        let mut i: usize = 0;
        while i < all.len()
            invariant
                chunk.well_formed(),
                mapper.well_formed(),
                all == &chunk.sections,
                i <= all@.len(),
                chunk_sections@.len() == present(all@.subrange(0, i as int)).len(),
                chunk_sections@.len() <= i,
                forall|k: int|
                    0 <= k < chunk_sections@.len() ==> compacts(
                        #[trigger] chunk_sections@[k],
                        present(all@.subrange(0, i as int))[k],
                        *mapper,
                    ),
                forall|k: int| 0 <= k < chunk_sections@.len() ==> (#[trigger] chunk_sections@[k]).well_formed_spec(),
            decreases all@.len() - i,
        {
            proof {
                let s = all@.subrange(0, i + 1);
                assert(s.drop_last() =~= all@.subrange(0, i as int));
            }
            match &all[i] {
                Some(section) => {
                    assert(all@[i as int] matches Some(c) ==> c.well_formed());
                    let data = ChunkSectionData::from_section(section, mapper);
                    chunk_sections.push(data);
                },
                None => {},
            }
            i = i + 1;
        }
        proof {
            assert(all@.subrange(0, all@.len() as int) =~= all@);
        }
        ChunkDataPacket { chunk_x, chunk_z, bit_mask, chunk_sections }
    }

    /// A packet for a position with no terrain: no sections at all.
    pub fn empty(chunk_x: i32, chunk_z: i32) -> (r: ChunkDataPacket)
        ensures
            r.chunk_x == chunk_x,
            r.chunk_z == chunk_z,
            r.bit_mask == 0,
            r.chunk_sections@.len() == 0,
            r.encoding() == be32(chunk_x as u32) + be32(chunk_z as u32) + seq![1u8, 0u8] + var_i32_bytes(
                (4 * BIOME_COUNT + 1) as i32,
            ) + repeat(0, 4 * BIOME_COUNT as nat) + seq![0u8],
    {
        let r = ChunkDataPacket { chunk_x, chunk_z, bit_mask: 0, chunk_sections: Vec::new() };
        proof {
            assert(var_i32_bytes(0) == seq![0u8]);
            assert(r.encoding() =~= be32(chunk_x as u32) + be32(chunk_z as u32) + seq![1u8, 0u8] + var_i32_bytes(
                (4 * BIOME_COUNT + 1) as i32,
            ) + repeat(0, 4 * BIOME_COUNT as nat) + seq![0u8]);
        }
        r
    }

    /// The data size announced in the packet, counting every byte written
    /// after it; the same in both passes.
    fn data_size(&self) -> (r: i32)
        requires
            sections_ok(self.chunk_sections@),
        ensures
            r as int == payload_size(self.chunk_sections@),
    {
        let mut size: i32 = (BIOME_COUNT * 4 + 1) as i32;
        let mut i: usize = 0;
        proof {
            lemma_sections_len(self.chunk_sections@);
        }
        while i < self.chunk_sections.len()
            invariant
                sections_ok(self.chunk_sections@),
                i <= self.chunk_sections@.len(),
                size as int == sections_bytes(self.chunk_sections@.subrange(0, i as int)).len() + 4 * BIOME_COUNT + 1,
                size <= 14000 * i + 4 * BIOME_COUNT + 1,
            decreases self.chunk_sections@.len() - i,
        {
            proof {
                let s = self.chunk_sections@.subrange(0, i + 1);
                assert(s.drop_last() =~= self.chunk_sections@.subrange(0, i as int));
            }
            size = size + self.chunk_sections[i].get_data_size();
            i = i + 1;
        }
        proof {
            assert(self.chunk_sections@.subrange(0, i as int) =~= self.chunk_sections@);
        }
        size
    }
}

impl PacketEncode for ChunkDataPacket {
    open spec fn well_formed(&self) -> bool {
        sections_ok(self.chunk_sections@)
    }

    open spec fn encoding(&self) -> Seq<u8> {
        chunk_bytes(*self)
    }

    fn size(&self) -> (r: usize) {
        let data_size = self.data_size();
        proof {
            lemma_var_len_bounds(self.bit_mask, 0);
            lemma_var_len_bounds(data_size, 0);
        }
        4 + 4 + 1 + get_var_i32_size(self.bit_mask) + get_var_i32_size(data_size) + data_size as usize
    }

    fn to_buf(&self, buf: &mut PacketBuffer) {
        buf.write_i32(self.chunk_x);
        buf.write_i32(self.chunk_z);
        // Only full chunks are sent.
        buf.write_bool(true);
        buf.write_var_i32(self.bit_mask);
        let data_size = self.data_size();
        buf.write_var_i32(data_size);
        let ghost start = buf@;
        let mut i: usize = 0;
        while i < self.chunk_sections.len()
            invariant
                sections_ok(self.chunk_sections@),
                i <= self.chunk_sections@.len(),
                buf@ == start + sections_bytes(self.chunk_sections@.subrange(0, i as int)),
            decreases self.chunk_sections@.len() - i,
        {
            proof {
                let s = self.chunk_sections@.subrange(0, i + 1);
                assert(s.drop_last() =~= self.chunk_sections@.subrange(0, i as int));
            }
            self.chunk_sections[i].to_buf(buf);
            i = i + 1;
            assert(buf@ =~= start + sections_bytes(self.chunk_sections@.subrange(0, i as int)));
        }
        proof {
            assert(self.chunk_sections@.subrange(0, i as int) =~= self.chunk_sections@);
        }
        // Every biome is 0 for now: 256 big-endian zero words.
        buf.write_repeated(0, 4 * BIOME_COUNT);
        // No block entities.
        buf.write_var_i32(0);
        assert(var_i32_bytes(0) == seq![0u8]);
        assert(buf@ =~= old(buf)@ + chunk_bytes(*self));
    }
}

} // verus!
