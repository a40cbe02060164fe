//! Field directives: how each field of a packet goes on the wire. A packet
//! lists its fields in order; its size is the sum of the fields' sizes and
//! its encoding their concatenation, both computed by the same rules.
use crate::buffer::{be32, be64, PacketBuffer};
use crate::varint::{get_var_i32_size, get_var_i64_size, lemma_var_len_bounds, var_i32_bytes, var_i64_bytes};
use vstd::prelude::*;
use vstd::string::{StrSliceExecFns, StringSliceAdditionalSpecFns};

verus! {

/// Largest number of elements or bytes a single field may carry: the
/// protocol's largest packet.
pub const MAX_FIELD_LEN: usize = 2097151;

/// Largest number of fields in one packet.
pub const MAX_FIELDS: usize = 64;

/// A scalar value with its directive: plain (fixed width, big-endian) or
/// variable-length.
#[derive(Debug, Clone, Copy, PartialEq, Eq, Structural)]
pub enum Scalar {
    U8(u8),
    Bool(bool),
    I32(i32),
    I64(i64),
    VarI32(i32),
    VarI64(i64),
}

/// One field of a packet with its directive.
pub enum Field {
    /// A scalar under its own directive.
    Value(Scalar),
    /// UTF-8 bytes of a string of at most `max_length` bytes, with their
    /// count in front.
    Str { max_length: usize, value: Vec<u8> },
    /// Elements with their count in front.
    Sequence(Vec<Scalar>),
    /// Elements of a statically known number, no count.
    Array(Vec<Scalar>),
    /// Bytes copied verbatim.
    Bytes(Vec<u8>),
    /// The bytes of a self-describing tree payload, as its serializer wrote
    /// them; the size is their count, the same bytes being written.
    Tree(Vec<u8>),
    /// Derived from other fields of the same packet: `relation` applied to
    /// the fields at the positions in `sources`, as a variable-length
    /// integer. The same relation is evaluated when sizing and when writing.
    Derived { relation: Relation, sources: Vec<usize> },
}

/// How a derived field's value follows from its source fields.
#[derive(Debug, Clone, Copy, PartialEq, Eq, Structural)]
pub enum Relation {
    /// The total number of elements (or bytes) of the sources.
    ElementCount,
    /// The total number of bytes the sources take on the wire.
    EncodedSize,
}

/// Why a field could not be built.
#[derive(Debug, Clone, Copy, PartialEq, Eq, Structural)]
pub enum FieldError {
    /// The string has more bytes than the field allows.
    StringTooLong,
}

pub open spec fn scalar_bytes(s: Scalar) -> Seq<u8> {
    match s {
        Scalar::U8(v) => seq![v],
        Scalar::Bool(v) => seq![if v { 1u8 } else { 0u8 }],
        Scalar::I32(v) => be32(v as u32),
        Scalar::I64(v) => be64(v as u64),
        Scalar::VarI32(v) => var_i32_bytes(v),
        Scalar::VarI64(v) => var_i64_bytes(v),
    }
}

pub open spec fn scalars_bytes(s: Seq<Scalar>) -> Seq<u8>
    decreases s.len(),
{
    if s.len() == 0 {
        Seq::empty()
    } else {
        scalars_bytes(s.drop_last()) + scalar_bytes(s.last())
    }
}

/// The element (or byte) count of a field that carries a collection.
pub open spec fn collection_len(f: Field) -> Option<nat> {
    match f {
        Field::Str { value, .. } => Some(value@.len()),
        Field::Sequence(v) => Some(v@.len()),
        Field::Array(v) => Some(v@.len()),
        Field::Bytes(v) => Some(v@.len()),
        Field::Tree(v) => Some(v@.len()),
        _ => None,
    }
}

/// The bytes of a field that is not derived from others.
pub open spec fn base_field_bytes(f: Field) -> Seq<u8> {
    match f {
        Field::Value(s) => scalar_bytes(s),
        Field::Str { value, .. } => var_i32_bytes(value@.len() as i32) + value@,
        Field::Sequence(v) => var_i32_bytes(v@.len() as i32) + scalars_bytes(v@),
        Field::Array(v) => scalars_bytes(v@),
        Field::Bytes(v) => v@,
        Field::Tree(v) => v@,
        Field::Derived { .. } => Seq::empty(),
    }
}

/// What source field `all[j]` contributes to `relation`.
pub open spec fn source_value(all: Seq<Field>, relation: Relation, j: int) -> nat {
    match relation {
        Relation::ElementCount => match collection_len(all[j]) {
            Some(n) => n,
            None => 0,
        },
        Relation::EncodedSize => base_field_bytes(all[j]).len(),
    }
}

/// The value of `relation` over the fields at the positions in `sources`.
pub open spec fn relation_value(all: Seq<Field>, relation: Relation, sources: Seq<usize>) -> nat
    decreases sources.len(),
{
    if sources.len() == 0 {
        0
    } else {
        relation_value(all, relation, sources.drop_last()) + source_value(all, relation, sources.last() as int)
    }
}

/// The bytes of field `f` of a packet whose fields are `all`.
pub open spec fn field_bytes(all: Seq<Field>, f: Field) -> Seq<u8> {
    match f {
        Field::Derived { relation, sources } => var_i32_bytes(relation_value(all, relation, sources@) as i32),
        _ => base_field_bytes(f),
    }
}

/// The bytes of the first `n` fields of `all`, in order.
pub open spec fn fields_bytes(all: Seq<Field>, n: nat) -> Seq<u8>
    decreases n,
{
    if n == 0 || n > all.len() {
        Seq::empty()
    } else {
        fields_bytes(all, (n - 1) as nat) + field_bytes(all, all[n - 1])
    }
}

/// The bytes of a packet made of `all`.
pub open spec fn packet_bytes(all: Seq<Field>) -> Seq<u8> {
    fields_bytes(all, all.len())
}

/// A field that is not derived and is within the protocol's limits.
pub open spec fn base_field_ok(f: Field) -> bool {
    match f {
        Field::Value(_) => true,
        Field::Str { max_length, value } => value@.len() <= max_length && max_length <= MAX_FIELD_LEN,
        Field::Derived { .. } => false,
        _ => collection_len(f)->0 <= MAX_FIELD_LEN,
    }
}

/// The sources of a derived field exist, are not derived themselves, and are
/// collections where elements are counted.
pub open spec fn sources_ok(all: Seq<Field>, relation: Relation, sources: Seq<usize>) -> bool {
    &&& sources.len() <= MAX_FIELDS
    &&& forall|k: int|
        0 <= k < sources.len() ==> {
            &&& #[trigger] sources[k] < all.len()
            &&& base_field_ok(all[sources[k] as int])
            &&& relation == Relation::ElementCount ==> collection_len(all[sources[k] as int]) is Some
        }
}

pub open spec fn field_ok(all: Seq<Field>, f: Field) -> bool {
    match f {
        Field::Derived { relation, sources } => sources_ok(all, relation, sources@),
        _ => base_field_ok(f),
    }
}

/// Every field can be encoded: strings within their bounds, collections
/// within the protocol's limits, derived fields drawing on fields that are
/// not derived.
pub open spec fn fields_ok(all: Seq<Field>) -> bool {
    &&& all.len() <= MAX_FIELDS
    &&& forall|i: int| 0 <= i < all.len() ==> field_ok(all, #[trigger] all[i])
}

proof fn lemma_scalar_len(s: Scalar)
    ensures
        1 <= scalar_bytes(s).len() <= 10,
{
    match s {
        Scalar::VarI32(v) => lemma_var_len_bounds(v, 0),
        Scalar::VarI64(v) => lemma_var_len_bounds(0, v),
        _ => {},
    }
}

proof fn lemma_scalars_len(s: Seq<Scalar>)
    ensures
        scalars_bytes(s).len() <= 10 * s.len(),
    decreases s.len(),
{
    if s.len() > 0 {
        lemma_scalars_len(s.drop_last());
        lemma_scalar_len(s.last());
    }
}

/// No field of a valid packet takes more than this many bytes.
pub open spec fn field_bound() -> nat {
    (5 + 10 * MAX_FIELD_LEN) as nat
}

proof fn lemma_base_field_len(f: Field)
    requires
        base_field_ok(f),
    ensures
        base_field_bytes(f).len() <= field_bound(),
        collection_len(f) matches Some(n) ==> n <= field_bound(),
{
    match f {
        Field::Value(s) => lemma_scalar_len(s),
        Field::Str { value, .. } => lemma_var_len_bounds(value@.len() as i32, 0),
        Field::Sequence(v) => {
            lemma_var_len_bounds(v@.len() as i32, 0);
            lemma_scalars_len(v@);
        },
        Field::Array(v) => lemma_scalars_len(v@),
        _ => {},
    }
}

proof fn lemma_relation_value_bound(all: Seq<Field>, relation: Relation, sources: Seq<usize>)
    requires
        sources_ok(all, relation, sources),
    ensures
        relation_value(all, relation, sources) <= sources.len() * field_bound(),
    decreases sources.len(),
{
    if sources.len() > 0 {
        let d = sources.drop_last();
        assert(sources_ok(all, relation, d)) by {
            assert forall|k: int| 0 <= k < d.len() implies #[trigger] d[k] < all.len() && base_field_ok(
                all[d[k] as int],
            ) && (relation == Relation::ElementCount ==> collection_len(all[d[k] as int]) is Some) by {
                assert(d[k] == sources[k]);
            }
        }
        lemma_relation_value_bound(all, relation, d);
        let j = sources[sources.len() - 1];
        assert(j == sources.last());
        lemma_base_field_len(all[j as int]);
        assert((d.len() * field_bound()) + field_bound() == sources.len() * field_bound()) by (nonlinear_arith)
            requires
                d.len() + 1 == sources.len(),
        ;
    }
}

proof fn lemma_field_len(all: Seq<Field>, f: Field)
    requires
        field_ok(all, f),
    ensures
        field_bytes(all, f).len() <= field_bound(),
{
    match f {
        Field::Derived { relation, sources } => {
            lemma_relation_value_bound(all, relation, sources@);
            assert(sources@.len() * field_bound() <= 64 * field_bound()) by (nonlinear_arith)
                requires
                    sources@.len() <= 64,
            ;
            lemma_var_len_bounds(relation_value(all, relation, sources@) as i32, 0);
        },
        _ => lemma_base_field_len(f),
    }
}

proof fn lemma_fields_len(all: Seq<Field>, n: nat)
    requires
        fields_ok(all),
        n <= all.len(),
    ensures
        fields_bytes(all, n).len() <= n * field_bound(),
    decreases n,
{
    if n > 0 {
        lemma_fields_len(all, (n - 1) as nat);
        lemma_field_len(all, all[n - 1]);
        assert((n - 1) * field_bound() + field_bound() == n * field_bound()) by (nonlinear_arith);
    }
}

impl Scalar {
    pub fn size(&self) -> (r: usize)
        ensures
            r == scalar_bytes(*self).len(),
    {
        match self {
            Scalar::U8(_) => 1,
            Scalar::Bool(_) => 1,
            Scalar::I32(_) => 4,
            Scalar::I64(_) => 8,
            Scalar::VarI32(v) => get_var_i32_size(*v),
            Scalar::VarI64(v) => get_var_i64_size(*v),
        }
    }

    pub fn to_buf(&self, buf: &mut PacketBuffer)
        ensures
            final(buf)@ == old(buf)@ + scalar_bytes(*self),
    {
        match self {
            Scalar::U8(v) => buf.write_u8(*v),
            Scalar::Bool(v) => buf.write_bool(*v),
            Scalar::I32(v) => buf.write_i32(*v),
            Scalar::I64(v) => buf.write_i64(*v),
            Scalar::VarI32(v) => buf.write_var_i32(*v),
            Scalar::VarI64(v) => buf.write_var_i64(*v),
        }
    }
}

fn scalars_size(s: &Vec<Scalar>) -> (r: usize)
    requires
        s@.len() <= MAX_FIELD_LEN,
    ensures
        r == scalars_bytes(s@).len(),
{
    let mut total: usize = 0;
    let mut i: usize = 0;
    while i < s.len()
        invariant
            i <= s@.len(),
            s@.len() <= MAX_FIELD_LEN,
            total == scalars_bytes(s@.subrange(0, i as int)).len(),
            total <= 10 * i,
        decreases s@.len() - i,
    {
        proof {
            let p = s@.subrange(0, i + 1);
            assert(p.drop_last() =~= s@.subrange(0, i as int));
            lemma_scalar_len(s@[i as int]);
        }
        total = total + s[i].size();
        i = i + 1;
    }
    assert(s@.subrange(0, i as int) =~= s@);
    total
}

fn write_scalars(s: &Vec<Scalar>, buf: &mut PacketBuffer)
    ensures
        final(buf)@ == old(buf)@ + scalars_bytes(s@),
{
    let mut i: usize = 0;
    while i < s.len()
        invariant
            i <= s@.len(),
            buf@ == old(buf)@ + scalars_bytes(s@.subrange(0, i as int)),
        decreases s@.len() - i,
    {
        proof {
            let p = s@.subrange(0, i + 1);
            assert(p.drop_last() =~= s@.subrange(0, i as int));
        }
        s[i].to_buf(buf);
        i = i + 1;
        assert(buf@ =~= old(buf)@ + scalars_bytes(s@.subrange(0, i as int)));
    }
    assert(s@.subrange(0, i as int) =~= s@);
}

impl Field {
    /// A string field, refused where `value` has more than `max_length` bytes.
    pub fn string(max_length: usize, value: &str) -> (r: Result<Field, FieldError>)
        requires
            max_length <= MAX_FIELD_LEN,
        ensures
            value.spec_bytes().len() <= max_length <==> r is Ok,
            r matches Ok(f) ==> (f matches Field::Str { max_length: m, value: v } && m == max_length && v@
                == value.spec_bytes()),
            r matches Err(e) ==> e == FieldError::StringTooLong,
    {
        let bytes = value.as_bytes_vec();
        if bytes.len() > max_length {
            Err(FieldError::StringTooLong)
        } else {
            Ok(Field::Str { max_length, value: bytes })
        }
    }

    /// The element count of a collection field.
    fn collection_len_of(&self) -> (r: usize)
        requires
            collection_len(*self) is Some,
        ensures
            r == collection_len(*self)->0,
    {
        match self {
            Field::Str { value, .. } => value.len(),
            Field::Sequence(v) => v.len(),
            Field::Array(v) => v.len(),
            Field::Bytes(v) => v.len(),
            Field::Tree(v) => v.len(),
            _ => 0,
        }
    }

    /// Number of bytes of a field that is not derived.
    fn base_size(&self) -> (r: usize)
        requires
            base_field_ok(*self),
        ensures
            r == base_field_bytes(*self).len(),
    {
        proof {
            lemma_base_field_len(*self);
        }
        match self {
            Field::Value(s) => s.size(),
            Field::Str { value, .. } => get_var_i32_size(value.len() as i32) + value.len(),
            Field::Sequence(v) => {
                proof {
                    lemma_scalars_len(v@);
                }
                get_var_i32_size(v.len() as i32) + scalars_size(v)
            },
            Field::Array(v) => scalars_size(v),
            Field::Bytes(v) => v.len(),
            Field::Tree(v) => v.len(),
            Field::Derived { .. } => 0,
        }
    }

    /// Writes a field that is not derived.
    fn base_to_buf(&self, buf: &mut PacketBuffer)
        requires
            base_field_ok(*self),
        ensures
            final(buf)@ == old(buf)@ + base_field_bytes(*self),
    {
        match self {
            Field::Value(s) => s.to_buf(buf),
            Field::Str { value, .. } => {
                buf.write_var_i32(value.len() as i32);
                buf.write_bytes(value.as_slice());
            },
            Field::Sequence(v) => {
                buf.write_var_i32(v.len() as i32);
                write_scalars(v, buf);
            },
            Field::Array(v) => write_scalars(v, buf),
            Field::Bytes(v) => buf.write_bytes(v.as_slice()),
            Field::Tree(v) => buf.write_bytes(v.as_slice()),
            Field::Derived { .. } => {},
        }
        assert(buf@ =~= old(buf)@ + base_field_bytes(*self));
    }

    /// Number of bytes of the field, within the packet `all`.
    pub fn size(&self, all: &Vec<Field>) -> (r: usize)
        requires
            field_ok(all@, *self),
        ensures
            r == field_bytes(all@, *self).len(),
    {
        match self {
            Field::Derived { relation, sources } => get_var_i32_size(relation_value_of(all, *relation, sources)),
            _ => self.base_size(),
        }
    }

    /// Writes the field, within the packet `all`.
    pub fn to_buf(&self, all: &Vec<Field>, buf: &mut PacketBuffer)
        requires
            field_ok(all@, *self),
        ensures
            final(buf)@ == old(buf)@ + field_bytes(all@, *self),
    {
        match self {
            Field::Derived { relation, sources } => buf.write_var_i32(relation_value_of(all, *relation, sources)),
            _ => self.base_to_buf(buf),
        }
    }
}

/// The value of a derived field: `relation` over the fields at `sources`.
/// Both the size pass and the write pass take it from here.
pub fn relation_value_of(all: &Vec<Field>, relation: Relation, sources: &Vec<usize>) -> (r: i32)
    requires
        sources_ok(all@, relation, sources@),
    ensures
        r as int == relation_value(all@, relation, sources@),
{
    proof {
        lemma_relation_value_bound(all@, relation, sources@);
        assert(sources@.len() * field_bound() <= 64 * field_bound()) by (nonlinear_arith)
            requires
                sources@.len() <= 64,
        ;
    }
    let mut total: usize = 0;
    let mut k: usize = 0;
    while k < sources.len()
        invariant
            sources_ok(all@, relation, sources@),
            k <= sources@.len(),
            total == relation_value(all@, relation, sources@.subrange(0, k as int)),
            total <= k * field_bound(),
        decreases sources@.len() - k,
    {
        let j: usize = sources[k];
        proof {
            let p = sources@.subrange(0, k + 1);
            assert(p.drop_last() =~= sources@.subrange(0, k as int));
            assert(j == sources@[k as int]);
            lemma_base_field_len(all@[j as int]);
            assert((k + 1) * field_bound() <= 64 * field_bound()) by (nonlinear_arith)
                requires
                    k + 1 <= 64,
            ;
            assert(k * field_bound() + field_bound() == (k + 1) * field_bound()) by (nonlinear_arith);
        }
        let v: usize = match relation {
            Relation::ElementCount => all[j].collection_len_of(),
            Relation::EncodedSize => all[j].base_size(),
        };
        total = total + v;
        k = k + 1;
    }
    proof {
        assert(sources@.subrange(0, k as int) =~= sources@);
    }
    total as i32
}

/// Size of a packet made of `fields`: the sum of the fields' sizes, in order.
pub fn fields_size(fields: &Vec<Field>) -> (r: usize)
    requires
        fields_ok(fields@),
    ensures
        r == packet_bytes(fields@).len(),
{
    let mut total: usize = 0;
    let mut i: usize = 0;
    while i < fields.len()
        invariant
            fields_ok(fields@),
            i <= fields@.len(),
            total == fields_bytes(fields@, i as nat).len(),
            total <= i * field_bound(),
        decreases fields@.len() - i,
    {
        proof {
            assert(field_ok(fields@, fields@[i as int]));
            lemma_field_len(fields@, fields@[i as int]);
            assert((i + 1) * field_bound() <= 64 * field_bound()) by (nonlinear_arith)
                requires
                    i + 1 <= 64,
            ;
            assert(i * field_bound() + field_bound() == (i + 1) * field_bound()) by (nonlinear_arith);
        }
        total = total + fields[i].size(fields);
        i = i + 1;
    }
    total
}

/// Writes the fields of a packet, in the same order as `fields_size` counts them.
pub fn write_fields(fields: &Vec<Field>, buf: &mut PacketBuffer)
    requires
        fields_ok(fields@),
    ensures
        final(buf)@ == old(buf)@ + packet_bytes(fields@),
{
    let mut i: usize = 0;
    while i < fields.len()
        invariant
            fields_ok(fields@),
            i <= fields@.len(),
            buf@ == old(buf)@ + fields_bytes(fields@, i as nat),
        decreases fields@.len() - i,
    {
        fields[i].to_buf(fields, buf);
        i = i + 1;
        assert(buf@ =~= old(buf)@ + fields_bytes(fields@, i as nat));
    }
}

} // verus!
