//! Chunk sections and their compaction into the wire's palette and packed
//! block array.
use crate::buffer::{
    be64_all, lemma_be64_all_len, lemma_var_all_concat, lemma_var_all_decodes, lemma_var_all_len, repeat, var_all,
    var_i32_all_size, PacketBuffer,
};
use crate::packet::PacketEncode;
use crate::packing::{build_compacted_data_array, packs};
use crate::varint::{
    bit_length, get_var_i32_size, lemma_var_i32_round_trip, lemma_var_len_bounds, read_var, var_i32_bytes, VarRead,
};
use vstd::arithmetic::power2::{lemma_pow2_unfold, pow2};
use vstd::prelude::*;

verus! {

/// Width of a block id when no palette is sent.
pub const MAX_BITS_PER_BLOCK: u8 = 14;

/// Number of voxels in a section (16 × 16 × 16).
pub const SECTION_VOLUME: usize = 4096;

/// Bytes of one light table: half a byte per voxel.
pub const LIGHT_COUNT: usize = 2048;

/// A block type of the world model, by its numeric identity.
#[derive(Debug, Clone, Copy, PartialEq, Eq, Structural)]
pub struct Blocks {
    pub id: u32,
}

/// Identity of the substrate block.
pub const AIR_ID: u32 = 0;

impl Blocks {
    pub fn air() -> (r: Blocks)
        ensures
            r.id == AIR_ID,
    {
        Blocks { id: AIR_ID }
    }
}

/// The protocol id of each block type, indexed by the block's identity;
/// `None` where the target protocol has no such block.
pub struct BlockMapper {
    pub table: Vec<Option<i32>>,
}

/// Every id fits in the direct mode's width, and Air has an id.
pub open spec fn mapper_table_ok(t: Seq<Option<i32>>) -> bool {
    &&& t.len() > AIR_ID
    &&& t[AIR_ID as int] is Some
    &&& forall|i: int| 0 <= i < t.len() && #[trigger] t[i] is Some ==> 0 <= t[i]->0 < 0x4000
}

impl BlockMapper {
    pub open spec fn well_formed(&self) -> bool {
        mapper_table_ok(self.table@)
    }

    pub open spec fn map_spec(&self, b: Blocks) -> Option<i32> {
        if b.id < self.table@.len() {
            self.table@[b.id as int]
        } else {
            None
        }
    }

    /// A mapper over `table`, or `None` where an id does not fit in 14 bits or
    /// Air has none.
    pub fn new(table: Vec<Option<i32>>) -> (r: Option<BlockMapper>)
        ensures
            r is Some <==> mapper_table_ok(table@),
            r matches Some(m) ==> m.table@ == table@,
    {
        if table.len() <= AIR_ID as usize || table[AIR_ID as usize].is_none() {
            return None;
        }
        let mut i: usize = 0;
        while i < table.len()
            invariant
                i <= table@.len(),
                forall|j: int| 0 <= j < i && #[trigger] table@[j] is Some ==> 0 <= table@[j]->0 < 0x4000,
            decreases table@.len() - i,
        {
            match table[i] {
                Some(v) => {
                    if v < 0 || v >= 0x4000 {
                        return None;
                    }
                },
                None => {},
            }
            i = i + 1;
        }
        Some(BlockMapper { table })
    }

    pub fn map(&self, b: &Blocks) -> (r: Option<i32>)
        ensures
            r == self.map_spec(*b),
    {
        if (b.id as usize) < self.table.len() {
            self.table[b.id as usize]
        } else {
            None
        }
    }
}

/// A 16 × 16 × 16 volume: its palette and, per voxel, an index into it.
pub struct ChunkSection {
    pub palette: Vec<Blocks>,
    pub block_data: Vec<u16>,
}

impl ChunkSection {
    pub open spec fn well_formed(&self) -> bool {
        &&& self.block_data@.len() == SECTION_VOLUME
        &&& forall|k: int| 0 <= k < SECTION_VOLUME ==> (#[trigger] self.block_data@[k] as int) < self.palette@.len()
    }

    pub fn get_palette(&self) -> (r: &Vec<Blocks>)
        ensures
            r == &self.palette,
    {
        &self.palette
    }

    pub fn get_block_data(&self) -> (r: &Vec<u16>)
        ensures
            r == &self.block_data,
    {
        &self.block_data
    }
}

/// The palette of a section mapped through `mapper`.
pub open spec fn mapped(mapper: &BlockMapper, palette: Seq<Blocks>) -> Seq<Option<i32>> {
    Seq::new(palette.len(), |i: int| mapper.map_spec(palette[i]))
}

/// Number of entries of `m` that have an id.
pub open spec fn kept(m: Seq<Option<i32>>) -> nat
    decreases m.len(),
{
    if m.len() == 0 {
        0
    } else {
        kept(m.drop_last()) + if m.last() is Some { 1nat } else { 0nat }
    }
}

/// The ids of `m`, in order, with the entries without one removed.
pub open spec fn compacted(m: Seq<Option<i32>>) -> Seq<i32>
    decreases m.len(),
{
    if m.len() == 0 {
        Seq::empty()
    } else {
        compacted(m.drop_last()) + match m.last() {
            Some(v) => seq![v],
            None => Seq::empty(),
        }
    }
}

/// Where palette index `x` goes in the compacted palette: 0 for an entry that
/// was removed; otherwise `x` less the number of removed entries before it.
pub open spec fn remap(m: Seq<Option<i32>>, x: int) -> nat {
    if m[x] is None {
        0
    } else {
        kept(m.subrange(0, x))
    }
}

/// Bits per block for a palette with `valid` entries that have an id.
pub open spec fn chosen_bits(valid: nat) -> nat {
    let actual = bit_length(if valid == 0 { 0 } else { (valid - 1) as nat });
    if actual < 4 {
        4
    } else if actual <= 8 {
        actual
    } else {
        MAX_BITS_PER_BLOCK as nat
    }
}

/// The per-voxel values sent for `blocks` in indexed mode.
pub open spec fn indexed_ids(m: Seq<Option<i32>>, blocks: Seq<u16>) -> Seq<u64> {
    Seq::new(blocks.len(), |k: int| remap(m, blocks[k] as int) as u64)
}

/// The per-voxel values sent for `blocks` in direct mode: each block's
/// protocol id, Air's where it has none.
pub open spec fn direct_ids(m: Seq<Option<i32>>, blocks: Seq<u16>, air: i32) -> Seq<u64> {
    Seq::new(
        blocks.len(),
        |k: int|
            match m[blocks[k] as int] {
                Some(v) => v as u64,
                None => air as u64,
            },
    )
}

/// The wire form of one section.
pub struct ChunkSectionData {
    pub bits_per_block: u8,
    pub palette: Option<Vec<i32>>,
    pub block_data: Vec<u64>,
}

/// `d` is the compaction of `section` under `mapper`. In indexed mode a voxel
/// whose block has no id is sent as index 0, which stands for Air on the
/// assumption that a section's palette starts with Air; nothing here checks
/// that assumption.
pub open spec fn compacts(d: ChunkSectionData, section: ChunkSection, mapper: BlockMapper) -> bool {
    let m = mapped(&mapper, section.palette@);
    let bits = chosen_bits(kept(m));
    &&& d.bits_per_block == bits
    &&& if bits == MAX_BITS_PER_BLOCK {
        &&& d.palette is None
        &&& packs(d.block_data@, direct_ids(m, section.block_data@, mapper.table@[AIR_ID as int]->0), bits)
    } else {
        &&& d.palette matches Some(p) && p@ == compacted(m)
        &&& packs(d.block_data@, indexed_ids(m, section.block_data@), bits)
    }
}

/// The section's bytes: bits per block, the palette in indexed mode, the
/// packed words with their count, then block light and sky light, both full.
pub open spec fn section_bytes(d: ChunkSectionData) -> Seq<u8> {
    seq![d.bits_per_block] + match d.palette {
        Some(p) => var_i32_bytes(p@.len() as i32) + var_all(p@),
        None => Seq::empty(),
    } + var_i32_bytes(d.block_data@.len() as i32) + be64_all(d.block_data@) + repeat(0xFF, 2 * LIGHT_COUNT as nat)
}

pub proof fn lemma_section_bytes_len(d: ChunkSectionData)
    requires
        d.well_formed_spec(),
    ensures
        section_bytes(d).len() <= 14000,
{
    lemma_be64_all_len(d.block_data@);
    lemma_var_len_bounds(d.block_data@.len() as i32, 0);
    match d.palette {
        Some(p) => {
            lemma_var_all_len(p@);
            lemma_var_len_bounds(p@.len() as i32, 0);
        },
        None => {},
    }
}

/// In indexed mode the section's bytes hold, after the bits-per-block byte,
/// the palette's length and then each palette id, every one of them reading
/// back as the value written.
pub proof fn lemma_section_palette_decodes(d: ChunkSectionData, k: int)
    requires
        d.palette is Some,
        0 <= k < d.palette->0@.len(),
    ensures
        ({
            let p = d.palette->0@;
            let s = section_bytes(d);
            &&& read_var(s.subrange(1, s.len() as int), 5) == (VarRead::Done {
                value: p.len() as i32 as u32 as nat,
                len: var_i32_bytes(p.len() as i32).len(),
            })
            &&& ({
                let start = 1 + var_i32_bytes(p.len() as i32).len() + var_all(p.subrange(0, k)).len();
                read_var(s.subrange(start as int, s.len() as int), 5) == (VarRead::Done {
                    value: p[k] as u32 as nat,
                    len: var_i32_bytes(p[k]).len(),
                })
            })
        }),
{
    let p = d.palette->0@;
    let s = section_bytes(d);
    let n = var_i32_bytes(p.len() as i32);
    let rest = var_i32_bytes(d.block_data@.len() as i32) + be64_all(d.block_data@) + repeat(
        0xFF,
        2 * LIGHT_COUNT as nat,
    );
    assert(s =~= seq![d.bits_per_block] + n + (var_all(p) + rest));
    assert(s.subrange(1, s.len() as int) =~= n + (var_all(p) + rest));
    lemma_var_i32_round_trip(p.len() as i32, var_all(p) + rest);
    let start = 1 + n.len();
    let t = var_all(p) + rest;
    assert(s.subrange(start as int, s.len() as int) =~= t);
    lemma_var_all_decodes(p, rest, k);
    let st = var_all(p.subrange(0, k)).len() as int;
    assert(p =~= p.subrange(0, k) + p.subrange(k, p.len() as int));
    lemma_var_all_concat(p.subrange(0, k), p.subrange(k, p.len() as int));
    assert(st <= t.len());
    assert(s.subrange(start + st, s.len() as int) =~= t.subrange(st, t.len() as int));
}

pub proof fn lemma_kept_compacted(m: Seq<Option<i32>>)
    ensures
        compacted(m).len() == kept(m),
        kept(m) <= m.len(),
    decreases m.len(),
{
    if m.len() > 0 {
        lemma_kept_compacted(m.drop_last());
    }
}

/// Compaction keeps every voxel's block: a voxel whose entry has an id points,
/// after renumbering, at that same id in the compacted palette.
pub proof fn lemma_remap_keeps_id(m: Seq<Option<i32>>, x: int)
    requires
        0 <= x < m.len(),
        m[x] is Some,
    ensures
        remap(m, x) < compacted(m).len(),
        compacted(m)[remap(m, x) as int] == m[x]->0,
    decreases m.len(),
{
    let d = m.drop_last();
    lemma_kept_compacted(d);
    if x == m.len() - 1 {
        assert(m.subrange(0, x) =~= d);
    } else {
        assert(m.subrange(0, x) =~= d.subrange(0, x));
        lemma_remap_keeps_id(d, x);
    }
}

proof fn lemma_bit_length_le(n: nat)
    ensures
        bit_length(n) <= n,
    decreases n,
{
    if n > 0 {
        lemma_bit_length_le(n / 2);
    }
}

proof fn lemma_lt_pow2_bit_length(n: nat)
    ensures
        n < pow2(bit_length(n)),
    decreases n,
{
    if n > 0 {
        lemma_lt_pow2_bit_length(n / 2);
        lemma_pow2_unfold(bit_length(n));
    } else {
        vstd::arithmetic::power2::lemma2_to64();
    }
}

/// In indexed mode the palette holds at most 256 entries, and each of them
/// has an index below `2^bits`.
proof fn lemma_indexed_palette_fits(valid: nat)
    requires
        chosen_bits(valid) != MAX_BITS_PER_BLOCK,
    ensures
        valid <= pow2(chosen_bits(valid)),
        valid <= 256,
        4 <= chosen_bits(valid) <= 8,
{
    let n = if valid == 0 { 0 } else { (valid - 1) as nat };
    let a = bit_length(n);
    lemma_lt_pow2_bit_length(n);
    vstd::arithmetic::power2::lemma2_to64();
    if a < 4 {
        vstd::arithmetic::power2::lemma_pow2_strictly_increases(a, 4);
    }
    if a < 8 {
        vstd::arithmetic::power2::lemma_pow2_strictly_increases(a, 8);
    }
    if a < chosen_bits(valid) {
        vstd::arithmetic::power2::lemma_pow2_strictly_increases(a, chosen_bits(valid));
    }
}

fn bit_length_of(n: usize) -> (r: usize)
    ensures
        r == bit_length(n as nat),
{
    proof {
        lemma_bit_length_le(n as nat);
    }
    let mut v: usize = n;
    let mut c: usize = 0;
    while v > 0
        invariant
            bit_length(n as nat) == c + bit_length(v as nat),
            bit_length(n as nat) <= n,
        decreases v,
    {
        v = v / 2;
        c = c + 1;
    }
    c
}

impl ChunkSectionData {
    pub open spec fn well_formed_spec(&self) -> bool {
        &&& 1 <= self.bits_per_block <= 64
        &&& self.palette matches Some(p) ==> p@.len() <= 256
        &&& self.block_data@.len() <= 1024
    }

    pub fn get_bits_per_block(&self) -> (r: u8)
        ensures
            r == self.bits_per_block,
    {
        self.bits_per_block
    }

    pub fn get_palette(&self) -> (r: &Option<Vec<i32>>)
        ensures
            r == &self.palette,
    {
        &self.palette
    }

    pub fn get_block_data(&self) -> (r: &Vec<u64>)
        ensures
            r == &self.block_data,
    {
        &self.block_data
    }

    /// Number of bytes of the section on the wire, computed without writing.
    pub fn get_data_size(&self) -> (r: i32)
        requires
            self.well_formed_spec(),
        ensures
            r as int == section_bytes(*self).len(),
            r <= 14000,
    {
        let mut size: usize = 1;
        match &self.palette {
            Some(p) => {
                proof {
                    lemma_var_all_len(p@);
                }
                size = size + get_var_i32_size(p.len() as i32);
                size = size + var_i32_all_size(p.as_slice());
            },
            None => {},
        }
        size = size + get_var_i32_size(self.block_data.len() as i32);
        size = size + self.block_data.len() * 8;
        size = size + LIGHT_COUNT;
        size = size + LIGHT_COUNT;
        proof {
            lemma_be64_all_len(self.block_data@);
        }
        size as i32
    }

    /// Compacts `chunk_section` for the wire: picks the bits per block from
    /// the number of palette entries the mapper knows; in indexed mode sends
    /// the known entries' ids and renumbers the voxels, unknown entries
    /// becoming index 0; in direct mode sends each voxel's id, Air's for
    /// unknown blocks. Index 0 is taken to be Air: a palette that does not
    /// start with Air shows unknown blocks as its first entry.
    pub fn from_section(chunk_section: &ChunkSection, mapper: &BlockMapper) -> (r: ChunkSectionData)
        requires
            chunk_section.well_formed(),
            mapper.well_formed(),
        ensures
            compacts(r, *chunk_section, *mapper),
            r.well_formed_spec(),
    {
        let palette = chunk_section.get_palette();
        let blocks = chunk_section.get_block_data();
        let ghost m = mapped(mapper, palette@);
        // The palette mapped, the ids that exist, and for each entry the
        // number of entries with an id before it.
        let mut ids: Vec<Option<i32>> = Vec::new();
        let mut known: Vec<i32> = Vec::new();
        let mut before: Vec<usize> = Vec::new();
        let mut i: usize = 0;
        while i < palette.len()
            invariant
                i <= palette@.len(),
                m == mapped(mapper, palette@),
                ids@ == m.subrange(0, i as int),
                known@ == compacted(m.subrange(0, i as int)),
                known@.len() <= i,
                before@.len() == i,
                forall|j: int| 0 <= j < i ==> #[trigger] before@[j] == kept(m.subrange(0, j)),
            decreases palette@.len() - i,
        {
            let id = mapper.map(&palette[i]);
            proof {
                let s = m.subrange(0, i + 1);
                assert(s.drop_last() =~= m.subrange(0, i as int));
                lemma_kept_compacted(m.subrange(0, i as int));
            }
            before.push(known.len());
            ids.push(id);
            match id {
                Some(v) => known.push(v),
                None => {},
            }
            i = i + 1;
            assert(ids@ =~= m.subrange(0, i as int));
            assert(known@ =~= compacted(m.subrange(0, i as int)));
        }
        proof {
            assert(m.subrange(0, m.len() as int) =~= m);
            lemma_kept_compacted(m);
        }
        let bits_per_block: u8 = {
            let valid: usize = known.len();
            let actual: usize = bit_length_of(if valid == 0 { 0 } else { valid - 1 });
            if actual < 4 {
                4u8
            } else if actual <= 8 {
                actual as u8
            } else {
                MAX_BITS_PER_BLOCK
            }
        };
        if bits_per_block == MAX_BITS_PER_BLOCK {
            let air: i32 = match mapper.table[AIR_ID as usize] {
                Some(v) => v,
                None => 0,
            };
            let mut values: Vec<u64> = Vec::new();
            let mut k: usize = 0;
            while k < blocks.len()
                invariant
                    k <= blocks@.len(),
                    chunk_section.well_formed(),
                    blocks == &chunk_section.block_data,
                    ids@ == m,
                    m.len() == palette@.len(),
                    palette == &chunk_section.palette,
                    air == mapper.table@[AIR_ID as int]->0,
                    values@ == direct_ids(m, blocks@, air).subrange(0, k as int),
                decreases blocks@.len() - k,
            {
                let x: usize = blocks[k] as usize;
                let v: u64 = match ids[x] {
                    Some(p) => p as u64,
                    None => air as u64,
                };
                values.push(v);
                k = k + 1;
                assert(values@ =~= direct_ids(m, blocks@, air).subrange(0, k as int));
            }
            assert(values@ =~= direct_ids(m, blocks@, air));
            let block_data = build_compacted_data_array(MAX_BITS_PER_BLOCK, values.as_slice());
            ChunkSectionData { bits_per_block: MAX_BITS_PER_BLOCK, palette: None, block_data }
        } else {
            proof {
                lemma_indexed_palette_fits(kept(m));
            }
            let mut values: Vec<u64> = Vec::new();
            let mut k: usize = 0;
            while k < blocks.len()
                invariant
                    k <= blocks@.len(),
                    chunk_section.well_formed(),
                    blocks == &chunk_section.block_data,
                    ids@ == m,
                    m.len() == palette@.len(),
                    palette == &chunk_section.palette,
                    before@.len() == m.len(),
                    forall|j: int| 0 <= j < m.len() ==> #[trigger] before@[j] == kept(m.subrange(0, j)),
                    values@ == indexed_ids(m, blocks@).subrange(0, k as int),
                decreases blocks@.len() - k,
            {
                let x: usize = blocks[k] as usize;
                let v: u64 = match ids[x] {
                    Some(_) => before[x] as u64,
                    None => 0,
                };
                values.push(v);
                k = k + 1;
                assert(values@ =~= indexed_ids(m, blocks@).subrange(0, k as int));
            }
            assert(values@ =~= indexed_ids(m, blocks@));
            let block_data = build_compacted_data_array(bits_per_block, values.as_slice());
            ChunkSectionData { bits_per_block, palette: Some(known), block_data }
        }
    }
}

impl PacketEncode for ChunkSectionData {
    open spec fn well_formed(&self) -> bool {
        self.well_formed_spec()
    }

    open spec fn encoding(&self) -> Seq<u8> {
        section_bytes(*self)
    }

    fn size(&self) -> (r: usize) {
        self.get_data_size() as usize
    }

    fn to_buf(&self, buf: &mut PacketBuffer) {
        buf.write_u8(self.bits_per_block);
        let ghost after_bits = buf@;
        match &self.palette {
            Some(p) => {
                buf.write_var_i32(p.len() as i32);
                buf.write_var_i32_all(p.as_slice());
            },
            None => {},
        }
        buf.write_var_i32(self.block_data.len() as i32);
        buf.write_u64_all(self.block_data.as_slice());
        buf.write_repeated(0xFF, LIGHT_COUNT);
        buf.write_repeated(0xFF, LIGHT_COUNT);
        assert(repeat(0xFF, LIGHT_COUNT as nat) + repeat(0xFF, LIGHT_COUNT as nat) =~= repeat(
            0xFF,
            2 * LIGHT_COUNT as nat,
        ));
        assert(buf@ =~= old(buf)@ + section_bytes(*self));
    }
}

} // verus!
