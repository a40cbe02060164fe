//! An append-only byte buffer with the protocol's scalar writers.
use crate::varint::{get_var_i32_size, lemma_var_i32_round_trip, read_var, var_bytes, var_i32_bytes, var_i64_bytes, VarRead};
use vstd::prelude::*;

verus! {

/// Big-endian bytes of a 32-bit pattern.
pub open spec fn be32(x: u32) -> Seq<u8> {
    seq![
        (x / 0x100_0000) as u8,
        (x / 0x1_0000 % 0x100) as u8,
        (x / 0x100 % 0x100) as u8,
        (x % 0x100) as u8,
    ]
}

/// Big-endian bytes of a 64-bit pattern.
pub open spec fn be64(x: u64) -> Seq<u8> {
    be32((x / 0x1_0000_0000) as u32) + be32((x % 0x1_0000_0000) as u32)
}

/// The bytes of a sequence of 64-bit words, each big-endian, in order.
pub open spec fn be64_all(words: Seq<u64>) -> Seq<u8>
    decreases words.len(),
{
    if words.len() == 0 {
        Seq::empty()
    } else {
        be64_all(words.drop_last()) + be64(words.last())
    }
}

/// The variable-length encodings of a sequence of values, in order.
pub open spec fn var_all(values: Seq<i32>) -> Seq<u8>
    decreases values.len(),
{
    if values.len() == 0 {
        Seq::empty()
    } else {
        var_all(values.drop_last()) + var_i32_bytes(values.last())
    }
}

/// Total length of `var_all(values)`.
pub open spec fn var_all_len(values: Seq<i32>) -> nat
    decreases values.len(),
{
    if values.len() == 0 {
        0
    } else {
        var_all_len(values.drop_last()) + var_i32_bytes(values.last()).len()
    }
}

/// `n` copies of the byte `b`.
pub open spec fn repeat(b: u8, n: nat) -> Seq<u8> {
    Seq::new(n, |_i: int| b)
}

pub proof fn lemma_var_all_len(values: Seq<i32>)
    ensures
        var_all(values).len() == var_all_len(values),
        var_all_len(values) <= 5 * values.len(),
    decreases values.len(),
{
    if values.len() > 0 {
        lemma_var_all_len(values.drop_last());
        crate::varint::lemma_var_len_bounds(values.last(), 0);
    }
}

pub proof fn lemma_var_all_concat(a: Seq<i32>, b: Seq<i32>)
    ensures
        var_all(a + b) == var_all(a) + var_all(b),
    decreases b.len(),
{
    if b.len() == 0 {
        assert(a + b =~= a);
        assert(var_all(a) + var_all(b) =~= var_all(a));
    } else {
        lemma_var_all_concat(a, b.drop_last());
        assert((a + b).drop_last() =~= a + b.drop_last());
        assert(var_all(a + b) =~= var_all(a) + var_all(b));
    }
}

/// A run of variable-length integers decodes back value by value: the `k`-th
/// value starts where the encodings of the values before it end, whatever
/// follows the run.
pub proof fn lemma_var_all_decodes(values: Seq<i32>, rest: Seq<u8>, k: int)
    requires
        0 <= k < values.len(),
    ensures
        ({
            let s = var_all(values) + rest;
            let start = var_all(values.subrange(0, k)).len() as int;
            read_var(s.subrange(start, s.len() as int), 5) == (VarRead::Done {
                value: values[k] as u32 as nat,
                len: var_i32_bytes(values[k]).len(),
            })
        }),
{
    let pre = values.subrange(0, k);
    let post = values.subrange(k + 1, values.len() as int);
    let one = seq![values[k]];
    assert(values =~= pre + (one + post));
    lemma_var_all_concat(pre, one + post);
    lemma_var_all_concat(one, post);
    assert(one.drop_last() =~= Seq::<i32>::empty());
    assert(var_all(Seq::<i32>::empty()) == Seq::<u8>::empty());
    assert(one.last() == values[k]);
    assert(var_all(one) =~= var_i32_bytes(values[k]));
    let s = var_all(values) + rest;
    let start = var_all(pre).len() as int;
    let tail = var_all(post) + rest;
    assert(s.subrange(start, s.len() as int) =~= var_i32_bytes(values[k]) + tail);
    lemma_var_i32_round_trip(values[k], tail);
}

pub proof fn lemma_be64_all_len(words: Seq<u64>)
    ensures
        be64_all(words).len() == 8 * words.len(),
    decreases words.len(),
{
    if words.len() > 0 {
        lemma_be64_all_len(words.drop_last());
    }
}

/// The bytes written so far, in order; writing only ever appends.
pub struct PacketBuffer {
    data: Vec<u8>,
}

impl View for PacketBuffer {
    type V = Seq<u8>;

    closed spec fn view(&self) -> Seq<u8> {
        self.data@
    }
}

impl PacketBuffer {
    pub fn new() -> (r: PacketBuffer)
        ensures
            r@ == Seq::<u8>::empty(),
    {
        PacketBuffer { data: Vec::new() }
    }

    pub fn len(&self) -> (r: usize)
        ensures
            r == self@.len(),
    {
        self.data.len()
    }

    pub fn as_slice(&self) -> (r: &[u8])
        ensures
            r@ == self@,
    {
        self.data.as_slice()
    }

    pub fn into_bytes(self) -> (r: Vec<u8>)
        ensures
            r@ == self@,
    {
        self.data
    }

    pub fn write_u8(&mut self, v: u8)
        ensures
            final(self)@ == old(self)@.push(v),
    {
        self.data.push(v);
    }

    /// `true` is the byte 1, `false` the byte 0.
    pub fn write_bool(&mut self, v: bool)
        ensures
            final(self)@ == old(self)@.push(if v { 1u8 } else { 0u8 }),
    {
        self.data.push(if v { 1u8 } else { 0u8 });
    }

    pub fn write_u32(&mut self, v: u32)
        ensures
            final(self)@ == old(self)@ + be32(v),
    {
        self.data.push((v / 0x100_0000) as u8);
        self.data.push((v / 0x1_0000 % 0x100) as u8);
        self.data.push((v / 0x100 % 0x100) as u8);
        self.data.push((v % 0x100) as u8);
        assert(self@ =~= old(self)@ + be32(v));
    }

    /// Writes the two's complement pattern of `v`, big-endian.
    pub fn write_i32(&mut self, v: i32)
        ensures
            final(self)@ == old(self)@ + be32(v as u32),
    {
        self.write_u32(v as u32);
    }

    pub fn write_u64(&mut self, v: u64)
        ensures
            final(self)@ == old(self)@ + be64(v),
    {
        self.write_u32((v / 0x1_0000_0000) as u32);
        self.write_u32((v % 0x1_0000_0000) as u32);
        assert(self@ =~= old(self)@ + be64(v));
    }

    /// Writes the two's complement pattern of `v`, big-endian.
    pub fn write_i64(&mut self, v: i64)
        ensures
            final(self)@ == old(self)@ + be64(v as u64),
    {
        self.write_u64(v as u64);
    }

    fn write_var(&mut self, v: u64)
        ensures
            final(self)@ == old(self)@ + var_bytes(v as nat),
        decreases v,
    {
        if v < 128 {
            self.data.push(v as u8);
            assert(self@ =~= old(self)@ + var_bytes(v as nat));
        } else {
            self.data.push((v % 128 + 128) as u8);
            self.write_var(v / 128);
            assert(self@ =~= old(self)@ + var_bytes(v as nat));
        }
    }

    pub fn write_var_i32(&mut self, v: i32)
        ensures
            final(self)@ == old(self)@ + var_i32_bytes(v),
    {
        self.write_var(v as u32 as u64);
    }

    pub fn write_var_i64(&mut self, v: i64)
        ensures
            final(self)@ == old(self)@ + var_i64_bytes(v),
    {
        self.write_var(v as u64);
    }

    /// Copies `bytes` verbatim, with no framing.
    pub fn write_bytes(&mut self, bytes: &[u8])
        ensures
            final(self)@ == old(self)@ + bytes@,
    {
        let mut i: usize = 0;
        while i < bytes.len()
            invariant
                i <= bytes@.len(),
                self@ == old(self)@ + bytes@.subrange(0, i as int),
            decreases bytes@.len() - i,
        {
            self.data.push(bytes[i]);
            i = i + 1;
            assert(self@ =~= old(self)@ + bytes@.subrange(0, i as int));
        }
        assert(bytes@.subrange(0, bytes@.len() as int) =~= bytes@);
    }

    /// Writes `n` copies of the byte `b`.
    pub fn write_repeated(&mut self, b: u8, n: usize)
        ensures
            final(self)@ == old(self)@ + repeat(b, n as nat),
    {
        let mut i: usize = 0;
        while i < n
            invariant
                i <= n,
                self@ == old(self)@ + repeat(b, i as nat),
            decreases n - i,
        {
            self.data.push(b);
            i = i + 1;
            assert(self@ =~= old(self)@ + repeat(b, i as nat));
        }
    }

    /// Writes each value as a variable-length integer, in order.
    pub fn write_var_i32_all(&mut self, values: &[i32])
        ensures
            final(self)@ == old(self)@ + var_all(values@),
    {
        let mut i: usize = 0;
        while i < values.len()
            invariant
                i <= values@.len(),
                self@ == old(self)@ + var_all(values@.subrange(0, i as int)),
            decreases values@.len() - i,
        {
            self.write_var_i32(values[i]);
            proof {
                let p = values@.subrange(0, i + 1);
                assert(p.drop_last() =~= values@.subrange(0, i as int));
            }
            i = i + 1;
            assert(self@ =~= old(self)@ + var_all(values@.subrange(0, i as int)));
        }
        assert(values@.subrange(0, values@.len() as int) =~= values@);
    }

    /// Writes each word as eight big-endian bytes, in order.
    pub fn write_u64_all(&mut self, words: &[u64])
        ensures
            final(self)@ == old(self)@ + be64_all(words@),
    {
        let mut i: usize = 0;
        while i < words.len()
            invariant
                i <= words@.len(),
                self@ == old(self)@ + be64_all(words@.subrange(0, i as int)),
            decreases words@.len() - i,
        {
            self.write_u64(words[i]);
            proof {
                let p = words@.subrange(0, i + 1);
                assert(p.drop_last() =~= words@.subrange(0, i as int));
            }
            i = i + 1;
            assert(self@ =~= old(self)@ + be64_all(words@.subrange(0, i as int)));
        }
        assert(words@.subrange(0, words@.len() as int) =~= words@);
    }
}

/// Total number of bytes that `write_var_i32_all` appends for `values`.
pub fn var_i32_all_size(values: &[i32]) -> (r: usize)
    requires
        values@.len() <= usize::MAX / 5,
    ensures
        r == var_all(values@).len(),
{
    let mut total: usize = 0;
    let mut i: usize = 0;
    while i < values.len()
        invariant
            i <= values@.len(),
            values@.len() <= usize::MAX / 5,
            total == var_all_len(values@.subrange(0, i as int)),
            total <= 5 * i,
        decreases values@.len() - i,
    {
        total = total + get_var_i32_size(values[i]);
        proof {
            let p = values@.subrange(0, i + 1);
            assert(p.drop_last() =~= values@.subrange(0, i as int));
        }
        i = i + 1;
    }
    proof {
        assert(values@.subrange(0, values@.len() as int) =~= values@);
        lemma_var_all_len(values@);
    }
    total
}

} // verus!
