//! Variable-length integers: seven data bits per byte, least significant
//! group first, high bit set on every byte that is followed by another.
use vstd::prelude::*;

verus! {

/// Greatest number of bytes a 32-bit value may occupy.
pub const MAX_VAR_I32_BYTES: usize = 5;

/// Greatest number of bytes a 64-bit value may occupy.
pub const MAX_VAR_I64_BYTES: usize = 10;

/// The encoding of the non-negative value `v`.
pub open spec fn var_bytes(v: nat) -> Seq<u8>
    decreases v,
{
    if v < 128 {
        seq![v as u8]
    } else {
        seq![(v % 128 + 128) as u8] + var_bytes(v / 128)
    }
}

/// Number of bits needed to write `n`.
pub open spec fn bit_length(n: nat) -> nat
    decreases n,
{
    if n == 0 {
        0
    } else {
        1 + bit_length(n / 2)
    }
}

/// A signed 32-bit value is encoded through its two's complement bit pattern.
pub open spec fn var_i32_bytes(v: i32) -> Seq<u8> {
    var_bytes(v as u32 as nat)
}

/// A signed 64-bit value is encoded through its two's complement bit pattern.
pub open spec fn var_i64_bytes(v: i64) -> Seq<u8> {
    var_bytes(v as u64 as nat)
}

pub open spec fn pow128(k: nat) -> nat
    decreases k,
{
    if k == 0 {
        1
    } else {
        128 * pow128((k - 1) as nat)
    }
}

/// What reading one value from the front of a byte stream yields.
pub enum VarRead {
    /// A value ending in a byte without the continuation bit, `len` bytes long.
    Done { value: nat, len: nat },
    /// The allowed number of bytes all carried the continuation bit.
    TooLong,
    /// The stream ended before the value did.
    Ended,
}

/// Reads one value from the front of `s`, taking at most `max` bytes.
pub open spec fn read_var(s: Seq<u8>, max: nat) -> VarRead
    decreases max,
{
    if max == 0 {
        VarRead::TooLong
    } else if s.len() == 0 {
        VarRead::Ended
    } else if s[0] < 128 {
        VarRead::Done { value: s[0] as nat, len: 1 }
    } else {
        match read_var(s.drop_first(), (max - 1) as nat) {
            VarRead::Done { value, len } => VarRead::Done {
                value: (s[0] - 128) as nat + 128 * value,
                len: len + 1,
            },
            other => other,
        }
    }
}

/// Why a variable-length integer could not be read.
#[derive(Debug, Clone, Copy, PartialEq, Eq, Structural)]
pub enum VarIntError {
    /// More continuation bytes than the integer's width allows.
    MalformedVarInt,
    /// The input ended inside the value.
    UnexpectedEnd,
}

pub proof fn lemma_var_bytes_len(v: nat, k: nat)
    requires
        1 <= k,
        v < pow128(k),
    ensures
        1 <= var_bytes(v).len() <= k,
    decreases v,
{
    if v >= 128 {
        assert(k >= 2) by {
            if k == 1 {
                assert(pow128(1) == 128 * pow128(0));
            }
        }
        assert(v / 128 < pow128((k - 1) as nat));
        lemma_var_bytes_len(v / 128, (k - 1) as nat);
    }
}

proof fn lemma_pow128_values()
    ensures
        pow128(5) == 0x8_0000_0000,
        pow128(10) == 0x40_0000_0000_0000_0000,
{
    assert(pow128(0) == 1);
    assert(pow128(1) == 128);
    assert(pow128(2) == 0x4000);
    assert(pow128(3) == 0x20_0000);
    assert(pow128(4) == 0x1000_0000);
    assert(pow128(5) == 0x8_0000_0000);
    assert(pow128(6) == 0x400_0000_0000);
    assert(pow128(7) == 0x2_0000_0000_0000);
    assert(pow128(8) == 0x100_0000_0000_0000);
    assert(pow128(9) == 0x8000_0000_0000_0000);
    assert(pow128(10) == 0x40_0000_0000_0000_0000);
}

proof fn lemma_bit_length_small(v: nat, k: nat)
    requires
        v < vstd::arithmetic::power2::pow2(k),
    ensures
        bit_length(v) <= k,
    decreases k,
{
    if v > 0 {
        if k == 0 {
            vstd::arithmetic::power2::lemma2_to64();
        } else {
            vstd::arithmetic::power2::lemma_pow2_unfold(k);
            lemma_bit_length_small(v / 2, (k - 1) as nat);
        }
    }
}

proof fn lemma_bit_length_shift(v: nat)
    requires
        v >= 128,
    ensures
        bit_length(v) == 7 + bit_length(v / 128),
{
    let a1 = v / 2;
    let a2 = a1 / 2;
    let a3 = a2 / 2;
    let a4 = a3 / 2;
    let a5 = a4 / 2;
    let a6 = a5 / 2;
    let a7 = a6 / 2;
    assert(a7 == v / 128);
    assert(bit_length(v) == 1 + bit_length(a1));
    assert(bit_length(a1) == 1 + bit_length(a2));
    assert(bit_length(a2) == 1 + bit_length(a3));
    assert(bit_length(a3) == 1 + bit_length(a4));
    assert(bit_length(a4) == 1 + bit_length(a5));
    assert(bit_length(a5) == 1 + bit_length(a6));
    assert(bit_length(a6) == 1 + bit_length(a7));
}

/// The length of an encoding is the position of the highest set bit divided
/// by seven, rounded up, and at least one byte.
pub proof fn lemma_var_len_formula(v: nat)
    ensures
        var_bytes(v).len() == if v == 0 {
            1
        } else {
            (bit_length(v) + 6) / 7
        },
    decreases v,
{
    if v >= 128 {
        lemma_bit_length_shift(v);
        lemma_var_len_formula(v / 128);
    } else if v > 0 {
        vstd::arithmetic::power2::lemma2_to64();
        lemma_bit_length_small(v, 7);
    }
}

/// Every 32-bit value takes one to five bytes; every 64-bit value one to ten.
pub proof fn lemma_var_len_bounds(v: i32, w: i64)
    ensures
        1 <= var_i32_bytes(v).len() <= 5,
        1 <= var_i64_bytes(w).len() <= 10,
{
    lemma_pow128_values();
    lemma_var_bytes_len(v as u32 as nat, 5);
    lemma_var_bytes_len(w as u64 as nat, 10);
}

/// Reading the encoding of `v`, whatever follows it, gives back `v` and the
/// encoding's length, as long as the encoding fits in `max` bytes.
pub proof fn lemma_read_var_bytes(v: nat, rest: Seq<u8>, max: nat)
    requires
        var_bytes(v).len() <= max,
    ensures
        read_var(var_bytes(v) + rest, max) == (VarRead::Done { value: v, len: var_bytes(v).len() }),
    decreases v,
{
    let s = var_bytes(v) + rest;
    if v >= 128 {
        lemma_read_var_bytes(v / 128, rest, (max - 1) as nat);
        assert(s.drop_first() =~= var_bytes(v / 128) + rest);
    }
}

/// Reading a value never consumes more than `max` bytes, nor past the input,
/// and the value read is below `128^len`.
pub proof fn lemma_read_var_bounds(s: Seq<u8>, max: nat)
    ensures
        read_var(s, max) matches VarRead::Done { value, len } ==> 1 <= len <= max && len <= s.len()
            && value < pow128(len),
    decreases max,
{
    assert(pow128(1) == 128 * pow128(0));
    if max > 0 && s.len() > 0 && s[0] >= 128 {
        lemma_read_var_bounds(s.drop_first(), (max - 1) as nat);
        match read_var(s.drop_first(), (max - 1) as nat) {
            VarRead::Done { value, len } => {
                let p = pow128(len);
                let h = (s[0] - 128) as nat;
                assert(h + 128 * value < 128 * p) by (nonlinear_arith)
                    requires
                        h < 128,
                        value < p,
                ;
                assert(pow128(len + 1) == 128 * p);
            },
            _ => {},
        }
    }
}

/// Number of bytes that `write_var_i32` appends for `v`.
pub fn get_var_i32_size(v: i32) -> (r: usize)
    ensures
        r == var_i32_bytes(v).len(),
        1 <= r <= MAX_VAR_I32_BYTES,
{
    proof {
        lemma_var_len_bounds(v, 0);
    }
    let mut x: u32 = v as u32;
    let mut n: usize = 1;
    while x >= 128
        invariant
            var_i32_bytes(v).len() == n - 1 + var_bytes(x as nat).len(),
            var_i32_bytes(v).len() <= 5,
            1 <= n,
        decreases x,
    {
        x = x / 128;
        n = n + 1;
    }
    n
}

/// Number of bytes that `write_var_i64` appends for `v`.
pub fn get_var_i64_size(v: i64) -> (r: usize)
    ensures
        r == var_i64_bytes(v).len(),
        1 <= r <= MAX_VAR_I64_BYTES,
{
    proof {
        lemma_var_len_bounds(0, v);
    }
    let mut x: u64 = v as u64;
    let mut n: usize = 1;
    while x >= 128
        invariant
            var_i64_bytes(v).len() == n - 1 + var_bytes(x as nat).len(),
            var_i64_bytes(v).len() <= 10,
            1 <= n,
        decreases x,
    {
        x = x / 128;
        n = n + 1;
    }
    n
}

/// Reads one unsigned value of at most `max` bytes starting at `pos`.
fn read_var_raw(bytes: &[u8], pos: usize, max: usize) -> (r: Result<(u128, usize), VarIntError>)
    requires
        pos <= bytes@.len(),
        max <= MAX_VAR_I64_BYTES,
    ensures
        match read_var(bytes@.subrange(pos as int, bytes@.len() as int), max as nat) {
            VarRead::Done { value, len } => r == Ok::<(u128, usize), VarIntError>((value as u128, len as usize)),
            VarRead::TooLong => r == Err::<(u128, usize), VarIntError>(VarIntError::MalformedVarInt),
            VarRead::Ended => r == Err::<(u128, usize), VarIntError>(VarIntError::UnexpectedEnd),
        },
    decreases max,
{
    let ghost s = bytes@.subrange(pos as int, bytes@.len() as int);
    if max == 0 {
        return Err(VarIntError::MalformedVarInt);
    }
    if pos >= bytes.len() {
        return Err(VarIntError::UnexpectedEnd);
    }
    let b = bytes[pos];
    if b < 128 {
        return Ok((b as u128, 1));
    }
    proof {
        assert(s.drop_first() =~= bytes@.subrange(pos + 1, bytes@.len() as int));
        lemma_read_var_bounds(s.drop_first(), (max - 1) as nat);
        lemma_pow128_values();
        match read_var(s.drop_first(), (max - 1) as nat) {
            VarRead::Done { value, len } => {
                lemma_pow128_mono(len, 9);
            },
            _ => {},
        }
    }
    match read_var_raw(bytes, pos + 1, max - 1) {
        Ok((v, n)) => Ok(((b - 128) as u128 + 128 * v, n + 1)),
        Err(e) => Err(e),
    }
}

proof fn lemma_pow128_mono(a: nat, b: nat)
    requires
        a <= b,
    ensures
        pow128(a) <= pow128(b),
    decreases b,
{
    if a < b {
        lemma_pow128_mono(a, (b - 1) as nat);
    }
}

/// Reads a 32-bit value starting at `pos`; on success also gives the number
/// of bytes it took.
pub fn read_var_i32(bytes: &[u8], pos: usize) -> (r: Result<(i32, usize), VarIntError>)
    requires
        pos <= bytes@.len(),
    ensures
        match read_var(bytes@.subrange(pos as int, bytes@.len() as int), 5) {
            VarRead::Done { value, len } => r == Ok::<(i32, usize), VarIntError>(
                ((value % 0x1_0000_0000) as u32 as i32, len as usize),
            ),
            VarRead::TooLong => r == Err::<(i32, usize), VarIntError>(VarIntError::MalformedVarInt),
            VarRead::Ended => r == Err::<(i32, usize), VarIntError>(VarIntError::UnexpectedEnd),
        },
{
    proof {
        let s = bytes@.subrange(pos as int, bytes@.len() as int);
        lemma_read_var_bounds(s, 5);
        lemma_pow128_values();
        match read_var(s, 5) {
            VarRead::Done { value, len } => {
                lemma_pow128_mono(len, 5);
            },
            _ => {},
        }
    }
    match read_var_raw(bytes, pos, MAX_VAR_I32_BYTES) {
        Ok((v, n)) => Ok(((v % 0x1_0000_0000) as u32 as i32, n)),
        Err(e) => Err(e),
    }
}

/// Reads a 64-bit value starting at `pos`; on success also gives the number
/// of bytes it took.
pub fn read_var_i64(bytes: &[u8], pos: usize) -> (r: Result<(i64, usize), VarIntError>)
    requires
        pos <= bytes@.len(),
    ensures
        match read_var(bytes@.subrange(pos as int, bytes@.len() as int), 10) {
            VarRead::Done { value, len } => r == Ok::<(i64, usize), VarIntError>(
                ((value % 0x1_0000_0000_0000_0000) as u64 as i64, len as usize),
            ),
            VarRead::TooLong => r == Err::<(i64, usize), VarIntError>(VarIntError::MalformedVarInt),
            VarRead::Ended => r == Err::<(i64, usize), VarIntError>(VarIntError::UnexpectedEnd),
        },
{
    proof {
        let s = bytes@.subrange(pos as int, bytes@.len() as int);
        lemma_read_var_bounds(s, 10);
        lemma_pow128_values();
        match read_var(s, 10) {
            VarRead::Done { value, len } => {
                lemma_pow128_mono(len, 10);
            },
            _ => {},
        }
    }
    match read_var_raw(bytes, pos, MAX_VAR_I64_BYTES) {
        Ok((v, n)) => Ok(((v % 0x1_0000_0000_0000_0000) as u64 as i64, n)),
        Err(e) => Err(e),
    }
}

/// Decoding the encoding of any 32-bit value, followed by anything, gives the
/// value back and consumes exactly `get_var_i32_size` bytes.
pub proof fn lemma_var_i32_round_trip(v: i32, rest: Seq<u8>)
    ensures
        read_var(var_i32_bytes(v) + rest, 5) == (VarRead::Done {
            value: v as u32 as nat,
            len: var_i32_bytes(v).len(),
        }),
        ((v as u32 as nat) % 0x1_0000_0000) as u32 as i32 == v,
{
    lemma_var_len_bounds(v, 0);
    lemma_read_var_bytes(v as u32 as nat, rest, 5);
    assert((v as u32) as i32 == v) by (bit_vector);
}

/// Decoding the encoding of any 64-bit value, followed by anything, gives the
/// value back and consumes exactly `get_var_i64_size` bytes.
pub proof fn lemma_var_i64_round_trip(v: i64, rest: Seq<u8>)
    ensures
        read_var(var_i64_bytes(v) + rest, 10) == (VarRead::Done {
            value: v as u64 as nat,
            len: var_i64_bytes(v).len(),
        }),
        ((v as u64 as nat) % 0x1_0000_0000_0000_0000) as u64 as i64 == v,
{
    lemma_var_len_bounds(0, v);
    lemma_read_var_bytes(v as u64 as nat, rest, 10);
    assert((v as u64) as i64 == v) by (bit_vector);
}

/// Five continuation bytes in a row are rejected as a 32-bit value, ten as a
/// 64-bit value, whatever follows them.
pub proof fn lemma_var_too_long(s: Seq<u8>, max: nat)
    requires
        max <= s.len(),
        forall|i: int| 0 <= i < max ==> s[i] >= 128,
    ensures
        read_var(s, max) == VarRead::TooLong,
    decreases max,
{
    if max > 0 {
        let t = s.drop_first();
        assert forall|i: int| 0 <= i < max - 1 implies t[i] >= 128 by {
            assert(t[i] == s[i + 1]);
        }
        lemma_var_too_long(t, (max - 1) as nat);
    }
}

} // verus!
