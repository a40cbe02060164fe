//! Continuous bit packing: values of a fixed width laid end to end in 64-bit
//! words, least significant bit first, a value free to span two words.
use vstd::arithmetic::div_mod::{lemma_div_denominator, lemma_fundamental_div_mod, lemma_fundamental_div_mod_converse};
use vstd::arithmetic::power2::{lemma_pow2_unfold, pow2};
use vstd::bits::lemma_u64_shr_is_div;
use vstd::prelude::*;

verus! {

/// Bit `t` (0 the lowest) of `x`.
pub open spec fn bit_at(x: u64, t: int) -> bool {
    (x >> (t as u64)) & 1 == 1
}

/// Bit `p` of the stream that holds each of `ids` in `b` bits, one after the other.
pub open spec fn stream_bit(ids: Seq<u64>, b: nat, p: int) -> bool {
    0 <= p < ids.len() * b && bit_at(ids[p / (b as int)], p % (b as int))
}

/// Bit `p` of `words` read as one stream, word 0 first, lowest bit first.
pub open spec fn word_bit(words: Seq<u64>, p: int) -> bool {
    bit_at(words[p / 64], p % 64)
}

/// Number of words that hold `n` values of `b` bits.
pub open spec fn word_count(n: nat, b: nat) -> nat {
    ((n * b + 63) / 64) as nat
}

/// `words` is the packing of `ids` at `b` bits each, with every bit past the
/// last value clear.
pub open spec fn packs(words: Seq<u64>, ids: Seq<u64>, b: nat) -> bool {
    &&& words.len() == word_count(ids.len(), b)
    &&& forall|p: int| 0 <= p < words.len() * 64 ==> #[trigger] word_bit(words, p) == stream_bit(ids, b, p)
}

/// The `k`-bit value whose lowest bit is bit `p` of the stream of `words`.
pub open spec fn field_value(words: Seq<u64>, p: int, k: nat) -> nat
    decreases k,
{
    if k == 0 {
        0
    } else {
        (if word_bit(words, p) { 1nat } else { 0nat }) + 2 * field_value(words, p + 1, (k - 1) as nat)
    }
}

proof fn lemma_set_bit(x: u64, s: u64, t: u64)
    requires
        s < 64,
        t < 64,
    ensures
        ((x | (1u64 << s)) >> t) & 1 == 1 <==> (t == s || (x >> t) & 1 == 1),
{
    assert(((x | (1u64 << s)) >> t) & 1 == 1 <==> (t == s || (x >> t) & 1 == 1)) by (bit_vector)
        requires
            s < 64,
            t < 64,
    ;
}

proof fn lemma_zero_bits(t: u64)
    requires
        t < 64,
    ensures
        !bit_at(0u64, t as int),
{
    assert((0u64 >> t) & 1 != 1) by (bit_vector);
}

proof fn lemma_bit_is_div(x: u64, t: nat)
    requires
        t < 64,
    ensures
        bit_at(x, t as int) <==> (x as nat / pow2(t)) % 2 == 1,
{
    lemma_u64_shr_is_div(x, t as u64);
    let y = x >> (t as u64);
    assert(y & 1 == 1 <==> y % 2 == 1) by (bit_vector);
}

proof fn lemma_field_value_bound(words: Seq<u64>, p: int, k: nat)
    ensures
        field_value(words, p, k) < pow2(k),
    decreases k,
{
    if k > 0 {
        lemma_field_value_bound(words, p + 1, (k - 1) as nat);
        lemma_pow2_unfold(k);
        assert(field_value(words, p, k) <= 1 + 2 * field_value(words, p + 1, (k - 1) as nat));
    } else {
        vstd::arithmetic::power2::lemma2_to64();
    }
}

/// Packs each of `ids` in `bits_per_block` bits, end to end; only the low
/// `bits_per_block` bits of each value are kept.
pub fn build_compacted_data_array(bits_per_block: u8, ids: &[u64]) -> (r: Vec<u64>)
    requires
        1 <= bits_per_block <= 64,
        ids@.len() * bits_per_block + 63 <= usize::MAX,
    ensures
        packs(r@, ids@, bits_per_block as nat),
{
    let b: usize = bits_per_block as usize;
    let ghost n = ids@.len();
    let total: usize = ids.len() * b;
    let n_words: usize = (total + 63) / 64;
    let mut words: Vec<u64> = Vec::new();
    let mut k: usize = 0;
    while k < n_words
        invariant
            k <= n_words,
            words@.len() == k,
            forall|j: int| 0 <= j < k ==> words@[j] == 0,
        decreases n_words - k,
    {
        words.push(0);
        k = k + 1;
    }
    assert forall|q: int| 0 <= q < n_words * 64 implies !#[trigger] word_bit(words@, q) by {
        lemma_zero_bits((q % 64) as u64);
    }
    let mut i: usize = 0;
    let mut p: usize = 0;
    while i < ids.len()
        invariant
            b == bits_per_block,
            1 <= b <= 64,
            total == n * b,
            n == ids@.len(),
            n_words == word_count(n, b as nat),
            words@.len() == n_words,
            i <= n,
            p == i * b,
            forall|q: int|
                0 <= q < n_words * 64 ==> #[trigger] word_bit(words@, q) == (q < p && stream_bit(ids@, b as nat, q)),
        decreases n - i,
    {
        let v: u64 = ids[i];
        let mut t: usize = 0;
        assert(p + b <= total) by (nonlinear_arith)
            requires
                p == i * b,
                i < n,
                total == n * b,
        ;
        while t < b
            invariant
                b == bits_per_block,
                1 <= b <= 64,
                total == n * b,
                n == ids@.len(),
                n_words == word_count(n, b as nat),
                words@.len() == n_words,
                i < n,
                v == ids@[i as int],
                t <= b,
                p == i * b + t,
                i * b + b <= total,
                forall|q: int|
                    0 <= q < n_words * 64 ==> #[trigger] word_bit(words@, q) == (q < p && stream_bit(ids@, b as nat, q)),
            decreases b - t,
        {
            proof {
                lemma_fundamental_div_mod_converse(p as int, b as int, i as int, t as int);
                assert(p < n * b);
            }
            let w: usize = p / 64;
            let o: u64 = (p % 64) as u64;
            let ghost before = words@;
            if (v >> (t as u64)) & 1 == 1 {
                let nw: u64 = words[w] | (1u64 << o);
                words.set(w, nw);
                assert forall|q: int| 0 <= q < n_words * 64 implies #[trigger] word_bit(words@, q) == (q < p + 1
                    && stream_bit(ids@, b as nat, q)) by {
                    if q / 64 == w as int {
                        lemma_set_bit(before[w as int], o, (q % 64) as u64);
                        assert(word_bit(before, q) == (q < p && stream_bit(ids@, b as nat, q)));
                    } else {
                        assert(q != p);
                        assert(word_bit(before, q) == (q < p && stream_bit(ids@, b as nat, q)));
                    }
                }
            } else {
                assert forall|q: int| 0 <= q < n_words * 64 implies #[trigger] word_bit(words@, q) == (q < p + 1
                    && stream_bit(ids@, b as nat, q)) by {
                    assert(word_bit(before, q) == (q < p && stream_bit(ids@, b as nat, q)));
                }
            }
            p = p + 1;
            t = t + 1;
        }
        assert(p == (i + 1) * b) by (nonlinear_arith)
            requires
                p == i * b + b,
        ;
        i = i + 1;
    }
    proof {
        assert(p == n * b);
        assert forall|q: int| 0 <= q < words@.len() * 64 implies #[trigger] word_bit(words@, q) == stream_bit(
            ids@,
            bits_per_block as nat,
            q,
        ) by {}
    }
    words
}

/// Reads `count` values of `bits_per_block` bits each back out of `words`.
pub fn unpack_data_array(bits_per_block: u8, words: &[u64], count: usize) -> (r: Vec<u64>)
    requires
        1 <= bits_per_block <= 64,
        count * bits_per_block <= words@.len() * 64,
        count * bits_per_block <= usize::MAX,
    ensures
        r@.len() == count,
        forall|i: int|
            0 <= i < count ==> r@[i] as nat == field_value(words@, i * bits_per_block, bits_per_block as nat),
{
    let b: usize = bits_per_block as usize;
    let mut out: Vec<u64> = Vec::new();
    let mut i: usize = 0;
    while i < count
        invariant
            b == bits_per_block,
            1 <= b <= 64,
            count * b <= words@.len() * 64,
            count * b <= usize::MAX,
            i <= count,
            out@.len() == i,
            forall|j: int| 0 <= j < i ==> out@[j] as nat == field_value(words@, j * b, b as nat),
        decreases count - i,
    {
        assert(i * b + b <= count * b) by (nonlinear_arith)
            requires
                i < count,
        ;
        let start: usize = i * b;
        let mut t: usize = b;
        let mut v: u64 = 0;
        proof {
            lemma_field_value_bound(words@, start + b, 0);
        }
        while t > 0
            invariant
                1 <= b <= 64,
                start + b <= words@.len() * 64,
                t <= b,
                start + b <= usize::MAX,
                v as nat == field_value(words@, start + t, (b - t) as nat),
                (v as nat) < pow2((b - t) as nat),
            decreases t,
        {
            let q: usize = start + t - 1;
            let w: u64 = words[q / 64];
            let bit: u64 = (w >> ((q % 64) as u64)) & 1;
            proof {
                assert(bit == 1 || bit == 0) by (bit_vector)
                    requires
                        bit == (w >> ((q % 64) as u64)) & 1,
                ;
                lemma_pow2_unfold((b - t + 1) as nat);
                vstd::arithmetic::power2::lemma2_to64_rest();
                if b - t < 63 {
                    vstd::arithmetic::power2::lemma_pow2_strictly_increases((b - t) as nat, 63);
                }
            }
            assert(v < 0x8000_0000_0000_0000);
            v = v * 2 + bit;
            t = t - 1;
        }
        out.push(v);
        i = i + 1;
    }
    out
}

/// Packing a sequence of values that each fit in `b` bits and reading them
/// back gives the same values, in the same order.
pub proof fn lemma_pack_round_trip(words: Seq<u64>, ids: Seq<u64>, b: nat, i: int)
    requires
        1 <= b <= 64,
        packs(words, ids, b),
        0 <= i < ids.len(),
        ids[i] < pow2(b),
    ensures
        field_value(words, i * b, b) == ids[i],
{
    assert(i * b + b <= ids.len() * b) by (nonlinear_arith)
        requires
            i < ids.len(),
    ;
    assert(ids.len() * b <= words.len() * 64) by {
        lemma_fundamental_div_mod((ids.len() * b + 63) as int, 64);
    }
    lemma_pack_round_trip_from(words, ids, b, i, b);
    vstd::arithmetic::power2::lemma2_to64();
    assert(pow2(0) == 1);
    assert((b - b) as nat == 0);
    assert(ids[i] as nat / 1 == ids[i] as nat);
    assert(i * b + (b - b) == i * b);
}

proof fn lemma_pack_round_trip_from(words: Seq<u64>, ids: Seq<u64>, b: nat, i: int, k: nat)
    requires
        1 <= b <= 64,
        k <= b,
        packs(words, ids, b),
        0 <= i < ids.len(),
        i * b + b <= ids.len() * b,
        ids.len() * b <= words.len() * 64,
        ids[i] < pow2(b),
    ensures
        field_value(words, i * b + (b - k), k) == ids[i] as nat / pow2((b - k) as nat),
    decreases k,
{
    let t = (b - k) as nat;
    let x = ids[i];
    if k == 0 {
        assert(x as nat / pow2(b) == 0) by {
            vstd::arithmetic::div_mod::lemma_basic_div(x as int, pow2(b) as int);
        }
    } else {
        lemma_pack_round_trip_from(words, ids, b, i, (k - 1) as nat);
        let p = i * b + t;
        lemma_fundamental_div_mod_converse(p, b as int, i, t as int);
        assert(word_bit(words, p) == stream_bit(ids, b, p));
        lemma_bit_is_div(x, t);
        vstd::arithmetic::power2::lemma_pow2_pos(t);
        let y = x as nat / pow2(t);
        lemma_fundamental_div_mod(y as int, 2);
        lemma_div_denominator(x as int, pow2(t) as int, 2);
        lemma_pow2_unfold(t + 1);
        assert(pow2(t) * 2 == pow2(t + 1)) by (nonlinear_arith)
            requires
                pow2(t + 1) == 2 * pow2(t),
        ;
        assert(y / 2 == x as nat / pow2(t + 1));
    }
}

} // verus!
