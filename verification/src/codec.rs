//! Packing the values of a record into its bytes, and unpacking them again.

use crate::bytes::{
    decode_signed, decode_unsigned, encode_signed, encode_unsigned, fits_signed, fits_unsigned,
    lemma_pow256_values, lemma_signed_round_trip, lemma_unsigned_round_trip, pow256,
    signed_fits, spec_decode_signed, spec_decode_unsigned, spec_encode_signed,
    spec_encode_unsigned, unsigned_fits, zeros,
};
use crate::layout::{Field, FieldKind, Registry, RegistryView};
use crate::parser::{ByteOrder, Modifier};
use crate::value::{lemma_struct_view, values_view, Value, ValueView};
use vstd::prelude::*;

verus! {

/// Whether a field of this kind holds a signed integer.
pub open spec fn is_signed(kind: FieldKind) -> bool {
    kind is Char || kind is Short || kind is Int || kind is Long || kind is LongLong || kind is Size
}

/// Whether a record of this mode stores the most significant byte first.
pub open spec fn is_big_endian(r: RegistryView, modifier: Modifier) -> bool {
    match modifier.spec_byte_order() {
        ByteOrder::Native => r.abi.big_endian,
        ByteOrder::LittleEndian => false,
        ByteOrder::BigEndian => true,
    }
}

/// How many of the first `n` fields hold a value.
pub open spec fn mat_count(fields: Seq<Field>, n: nat) -> nat
    decreases n,
{
    if n == 0 {
        0
    } else {
        mat_count(fields, (n - 1) as nat) + if fields[n - 1].materialize {
            1nat
        } else {
            0nat
        }
    }
}

/// Whether `v` is a value for `field` of record `id`: of the field's type,
/// a byte array of the field's length, a nested record of the right shape.
/// With `strict`, an integer also has to fit the field's width.
pub open spec fn value_ok(r: RegistryView, id: nat, field: Field, v: ValueView, strict: bool)
    -> bool
    decreases id, 0nat,
{
    let width = (field.size - field.alignment) as nat;
    match field.kind {
        FieldKind::Array(len) => v matches ValueView::Bytes(b) && b.len() == len,
        FieldKind::Bool => v is Bool,
        FieldKind::Float => v is Float,
        FieldKind::Double => v is Double,
        FieldKind::Pad(_) => false,
        FieldKind::Ident(nested) => v matches ValueView::Struct(vs) && nested < id
            && vs.len() == mat_count(
            r.entries[nested as int].fields,
            r.entries[nested as int].fields.len(),
        ) && values_ok(r, nested as nat, r.entries[nested as int].fields.len(), vs, strict),
        _ => if is_signed(field.kind) {
            v matches ValueView::Int(x) && (strict ==> fits_signed(x as int, width))
        } else {
            v matches ValueView::UInt(x) && (strict ==> fits_unsigned(x as nat, width))
        },
    }
}

/// Whether the values for the first `n` fields of record `id` are values
/// for them.
pub open spec fn values_ok(
    r: RegistryView,
    id: nat,
    n: nat,
    values: Seq<ValueView>,
    strict: bool,
) -> bool
    decreases id, n,
{
    if n == 0 {
        true
    } else {
        let fields = r.entries[id as int].fields;
        let field = fields[n - 1];
        values_ok(r, id, (n - 1) as nat, values, strict) && (field.materialize ==> value_ok(
            r,
            id,
            field,
            values[mat_count(fields, (n - 1) as nat) as int],
            strict,
        ))
    }
}

/// Whether `values` can be packed as record `id`: there is one value for
/// each field that holds one, each of its field's type.
pub open spec fn accepts(r: RegistryView, id: nat, values: Seq<ValueView>) -> bool {
    let fields = r.entries[id as int].fields;
    values.len() == mat_count(fields, fields.len()) && values_ok(
        r,
        id,
        fields.len(),
        values,
        false,
    )
}

/// Whether `values` can be packed as record `id` and every integer among
/// them, at any depth, fits the width of its field.
pub open spec fn in_range(r: RegistryView, id: nat, values: Seq<ValueView>) -> bool {
    let fields = r.entries[id as int].fields;
    values.len() == mat_count(fields, fields.len()) && values_ok(
        r,
        id,
        fields.len(),
        values,
        true,
    )
}

/// The bytes of one value in its field: an integer in two's complement at
/// the field's width and in the record's byte order, a float as the integer
/// of its bit pattern, a boolean as one or zero, a byte array as it is, a
/// nested record as its own packed form.
pub open spec fn encode_value(r: RegistryView, id: nat, field: Field, v: ValueView) -> Seq<u8>
    decreases id, 0nat,
{
    let width = (field.size - field.alignment) as nat;
    let big = is_big_endian(r, r.entries[id as int].modifier);
    match field.kind {
        FieldKind::Array(_) => v->Bytes_0,
        FieldKind::Bool => seq![
            if v->Bool_0 {
                1u8
            } else {
                0u8
            },
        ],
        FieldKind::Float => spec_encode_unsigned(v->Float_0 as nat, width, big),
        FieldKind::Double => spec_encode_unsigned(v->Double_0 as nat, width, big),
        FieldKind::Pad(_) => zeros(width),
        FieldKind::Ident(nested) => if nested < id {
            pack_prefix(
                r,
                nested as nat,
                r.entries[nested as int].fields.len(),
                v->Struct_0,
            )
        } else {
            Seq::empty()
        },
        _ => if is_signed(field.kind) {
            spec_encode_signed(v->Int_0 as int, width, big)
        } else {
            spec_encode_unsigned(v->UInt_0 as nat, width, big)
        },
    }
}

/// The bytes of the first `n` fields of record `id`: for each field its
/// alignment padding as zeros, then its value, or zeros where it holds
/// none.
pub open spec fn pack_prefix(r: RegistryView, id: nat, n: nat, values: Seq<ValueView>) -> Seq<u8>
    decreases id, n,
{
    if n == 0 {
        Seq::empty()
    } else {
        let fields = r.entries[id as int].fields;
        let field = fields[n - 1];
        pack_prefix(r, id, (n - 1) as nat, values) + zeros(field.alignment as nat) + if field.materialize {
            encode_value(r, id, field, values[mat_count(fields, (n - 1) as nat) as int])
        } else {
            zeros((field.size - field.alignment) as nat)
        }
    }
}

/// The packed form of `values` as record `id`.
pub open spec fn spec_pack(r: RegistryView, id: nat, values: Seq<ValueView>) -> Seq<u8> {
    pack_prefix(r, id, r.entries[id as int].fields.len(), values)
}

/// The value that the bytes of a field stand for. Every byte pattern is a
/// value: a boolean is true unless its byte is zero.
pub open spec fn decode_value(r: RegistryView, id: nat, field: Field, b: Seq<u8>) -> ValueView
    decreases id, 0nat,
{
    let big = is_big_endian(r, r.entries[id as int].modifier);
    match field.kind {
        FieldKind::Array(_) => ValueView::Bytes(b),
        FieldKind::Bool => ValueView::Bool(b[0] != 0),
        FieldKind::Float => ValueView::Float(spec_decode_unsigned(b, big) as u32),
        FieldKind::Double => ValueView::Double(spec_decode_unsigned(b, big) as u64),
        FieldKind::Pad(_) => ValueView::Bytes(b),
        FieldKind::Ident(nested) => if nested < id {
            ValueView::Struct(
                unpack_prefix(r, nested as nat, r.entries[nested as int].fields.len(), b),
            )
        } else {
            ValueView::Struct(Seq::empty())
        },
        _ => if is_signed(field.kind) {
            ValueView::Int(spec_decode_signed(b, big) as i64)
        } else {
            ValueView::UInt(spec_decode_unsigned(b, big) as u64)
        },
    }
}

/// The values of the first `n` fields of record `id` in `bytes`: for each
/// field that holds a value, what the bytes behind its alignment padding
/// stand for.
pub open spec fn unpack_prefix(r: RegistryView, id: nat, n: nat, bytes: Seq<u8>) -> Seq<
    ValueView,
>
    decreases id, n,
{
    if n == 0 {
        Seq::empty()
    } else {
        let field = r.entries[id as int].fields[n - 1];
        let before = unpack_prefix(r, id, (n - 1) as nat, bytes);
        if field.materialize {
            before.push(
                decode_value(
                    r,
                    id,
                    field,
                    bytes.subrange(field.offset + field.alignment, field.offset + field.size),
                ),
            )
        } else {
            before
        }
    }
}

/// The values that `bytes` hold as record `id`.
pub open spec fn spec_unpack(r: RegistryView, id: nat, bytes: Seq<u8>) -> Seq<ValueView> {
    unpack_prefix(r, id, r.entries[id as int].fields.len(), bytes)
}

/// The offset at which the first `n` fields of a record end.
pub open spec fn prefix_end(fields: Seq<Field>, n: nat) -> nat {
    if n == 0 {
        0
    } else {
        (fields[n - 1].offset + fields[n - 1].size) as nat
    }
}

/// A longer prefix of the fields holds no fewer values.
pub proof fn lemma_mat_count_monotonic(fields: Seq<Field>, a: nat, b: nat)
    requires
        a <= b,
    ensures
        mat_count(fields, a) <= mat_count(fields, b),
    decreases b,
{
    if a < b {
        lemma_mat_count_monotonic(fields, a, (b - 1) as nat);
    }
}

/// A strict match is a match.
pub proof fn lemma_strict_is_ok(r: RegistryView, id: nat, n: nat, values: Seq<ValueView>)
    requires
        values_ok(r, id, n, values, true),
    ensures
        values_ok(r, id, n, values, false),
    decreases id, n,
{
    if n > 0 {
        let fields = r.entries[id as int].fields;
        let field = fields[n - 1];
        lemma_strict_is_ok(r, id, (n - 1) as nat, values);
        if field.materialize {
            let v = values[mat_count(fields, (n - 1) as nat) as int];
            assert(value_ok(r, id, field, v, true));
            if let FieldKind::Ident(nested) = field.kind {
                lemma_strict_is_ok(
                    r,
                    nested as nat,
                    r.entries[nested as int].fields.len(),
                    v->Struct_0,
                );
            }
            assert(value_ok(r, id, field, v, false));
        }
    }
}

/// The packed form of the first `n` fields ends where they end.
pub proof fn lemma_pack_len(r: RegistryView, id: nat, n: nat, values: Seq<ValueView>)
    requires
        r.wf(),
        id < r.entries.len(),
        n <= r.entries[id as int].fields.len(),
        values_ok(r, id, n, values, false),
    ensures
        pack_prefix(r, id, n, values).len() == prefix_end(r.entries[id as int].fields, n),
    decreases id, n,
{
    if n > 0 {
        let fields = r.entries[id as int].fields;
        let field = fields[n - 1];
        assert(r.entry_wf(id as int));
        assert(r.field_wf(id as int, n - 1));
        lemma_pack_len(r, id, (n - 1) as nat, values);
        if field.materialize {
            let v = values[mat_count(fields, (n - 1) as nat) as int];
            lemma_encode_len(r, id, field, n - 1, v);
        }
    }
}

/// A value takes as many bytes as its field has behind the padding.
pub proof fn lemma_encode_len(r: RegistryView, id: nat, field: Field, i: int, v: ValueView)
    requires
        r.wf(),
        id < r.entries.len(),
        0 <= i < r.entries[id as int].fields.len(),
        field == r.entries[id as int].fields[i],
        field.materialize,
        value_ok(r, id, field, v, false),
    ensures
        encode_value(r, id, field, v).len() == field.size - field.alignment,
    decreases id, 0nat,
{
    let width = (field.size - field.alignment) as nat;
    let big = is_big_endian(r, r.entries[id as int].modifier);
    assert(r.entry_wf(id as int));
    assert(r.field_wf(id as int, i));
    match field.kind {
        FieldKind::Array(_) => {},
        FieldKind::Bool => {},
        FieldKind::Pad(_) => {},
        FieldKind::Float => {
            lemma_unsigned_round_trip(v->Float_0 as nat, width, big);
        },
        FieldKind::Double => {
            lemma_unsigned_round_trip(v->Double_0 as nat, width, big);
        },
        FieldKind::Ident(nested) => {
            let inner = r.entries[nested as int];
            lemma_pack_len(r, nested as nat, inner.fields.len(), v->Struct_0);
            assert(r.entry_wf(nested as int));
        },
        _ => {
            if is_signed(field.kind) {
                lemma_unsigned_round_trip(
                    crate::bytes::twos_complement(v->Int_0 as int, width),
                    width,
                    big,
                );
            } else {
                lemma_unsigned_round_trip(v->UInt_0 as nat, width, big);
            }
        },
    }
}


/// A match of the first `m` fields is a match of the first `n` of them.
pub proof fn lemma_values_ok_prefix(
    r: RegistryView,
    id: nat,
    n: nat,
    m: nat,
    values: Seq<ValueView>,
    strict: bool,
)
    requires
        n <= m,
        values_ok(r, id, m, values, strict),
    ensures
        values_ok(r, id, n, values, strict),
    decreases m,
{
    if n < m {
        lemma_values_ok_prefix(r, id, n, (m - 1) as nat, values, strict);
    }
}

/// Appends `n` zero bytes.
fn push_zeros(out: &mut Vec<u8>, n: usize)
    ensures
        final(out)@ == old(out)@ + zeros(n as nat),
{
    let mut i: usize = 0;
    while i < n
        invariant
            i <= n,
            out@ == old(out)@ + zeros(i as nat),
        decreases n - i,
    {
        out.push(0);
        i = i + 1;
        assert(out@ =~= old(out)@ + zeros(i as nat));
    }
    assert(out@ =~= old(out)@ + zeros(n as nat));
}

/// Appends the bytes of `bytes`.
fn push_all(out: &mut Vec<u8>, bytes: &Vec<u8>)
    ensures
        final(out)@ == old(out)@ + bytes@,
{
    let mut i: usize = 0;
    while i < bytes.len()
        invariant
            i <= bytes.len(),
            out@ == old(out)@ + bytes@.take(i as int),
        decreases bytes.len() - i,
    {
        out.push(bytes[i]);
        i = i + 1;
        assert(out@ =~= old(out)@ + bytes@.take(i as int));
    }
    assert(bytes@.take(bytes.len() as int) =~= bytes@);
}

/// The `len` bytes of `bytes` from `start` on.
fn copy_range(bytes: &[u8], start: usize, len: usize) -> (out: Vec<u8>)
    requires
        start + len <= bytes.len(),
    ensures
        out@ == bytes@.subrange(start as int, start + len),
{
    let mut out: Vec<u8> = Vec::new();
    let mut i: usize = 0;
    while i < len
        invariant
            i <= len,
            start + len <= bytes.len(),
            out@ == bytes@.subrange(start as int, start + i),
        decreases len - i,
    {
        out.push(bytes[start + i]);
        i = i + 1;
        assert(out@ =~= bytes@.subrange(start as int, start + i));
    }
    out
}

fn kind_is_signed(kind: FieldKind) -> (signed: bool)
    ensures
        signed == is_signed(kind),
{
    match kind {
        FieldKind::Char
        | FieldKind::Short
        | FieldKind::Int
        | FieldKind::Long
        | FieldKind::LongLong
        | FieldKind::Size => true,
        _ => false,
    }
}

impl Registry {
    /// Whether a record of this mode stores the most significant byte first.
    pub fn big_endian(&self, modifier: Modifier) -> (big: bool)
        ensures
            big == is_big_endian(self@, modifier),
    {
        match modifier.byte_order() {
            ByteOrder::Native => self.abi().big_endian,
            ByteOrder::LittleEndian => false,
            ByteOrder::BigEndian => true,
        }
    }

    /// Appends the packed form of `values` as record `id` to `out`.
    pub fn pack_into(&self, id: usize, values: &Vec<Value>, out: &mut Vec<u8>)
        requires
            self.wf(),
            id < self@.entries.len(),
            accepts(self@, id as nat, values_view(values@)),
        ensures
            final(out)@ == old(out)@ + spec_pack(self@, id as nat, values_view(values@)),
        decreases id,
    {
        let entry = self.get(id);
        let big = self.big_endian(entry.modifier());
        let fields = entry.fields();
        let ghost r = self@;
        let ghost vals = values_view(values@);
        let ghost start = out@;
        let mut next: usize = 0;
        let mut i: usize = 0;
        proof {
            self.lemma_wf_view();
            assert(start + pack_prefix(r, id as nat, 0, vals) =~= start);
        }
        while i < fields.len()
            invariant
                self.wf(),
                r == self@,
                r.wf(),
                id < r.entries.len(),
                fields@ == r.entries[id as int].fields,
                vals == values_view(values@),
                accepts(r, id as nat, vals),
                i <= fields.len(),
                next == mat_count(fields@, i as nat),
                out@ == start + pack_prefix(r, id as nat, i as nat, vals),
                big == is_big_endian(r, r.entries[id as int].modifier),
            decreases fields.len() - i,
        {
            let field = fields[i];
            let ghost before = out@;
            proof {
                assert(r.entry_wf(id as int));
                assert(r.field_wf(id as int, i as int));
                lemma_values_ok_prefix(
                    r,
                    id as nat,
                    (i + 1) as nat,
                    fields@.len(),
                    vals,
                    false,
                );
                lemma_mat_count_monotonic(fields@, (i + 1) as nat, fields@.len());
            }
            push_zeros(out, field.alignment);
            let width: usize = field.size - field.alignment;
            if field.materialize {
                assert(next < values.len()) by {
                    assert(vals.len() == values.len());
                }
                let v = &values[next];
                assert(vals[next as int] == v@);
                assert(value_ok(r, id as nat, field, v@, false));
                match field.kind {
                    FieldKind::Array(_) => {
                        if let Value::Bytes(b) = v {
                            push_all(out, b);
                        }
                    },
                    FieldKind::Bool => {
                        if let Value::Bool(b) = v {
                            out.push(
                                if *b {
                                    1
                                } else {
                                    0
                                },
                            );
                        }
                    },
                    FieldKind::Float => {
                        if let Value::Float(bits) = v {
                            let bytes = encode_unsigned(*bits as u64, width, big);
                            push_all(out, &bytes);
                        }
                    },
                    FieldKind::Double => {
                        if let Value::Double(bits) = v {
                            let bytes = encode_unsigned(*bits, width, big);
                            push_all(out, &bytes);
                        }
                    },
                    FieldKind::Pad(_) => {},
                    FieldKind::Ident(nested) => {
                        if let Value::Struct(vs) = v {
                            proof {
                                lemma_struct_view(*vs);
                            }
                            self.pack_into(nested, vs, out);
                        }
                    },
                    _ => {
                        if kind_is_signed(field.kind) {
                            if let Value::Int(x) = v {
                                let bytes = encode_signed(*x, width, big);
                                push_all(out, &bytes);
                            }
                        } else {
                            if let Value::UInt(x) = v {
                                let bytes = encode_unsigned(*x, width, big);
                                push_all(out, &bytes);
                            }
                        }
                    },
                }
                proof {
                    assert(out@ =~= before + zeros(field.alignment as nat) + encode_value(
                        r,
                        id as nat,
                        field,
                        v@,
                    ));
                }
                next = next + 1;
            } else {
                push_zeros(out, width);
            }
            i = i + 1;
            proof {
                assert(out@ =~= start + pack_prefix(r, id as nat, i as nat, vals));
            }
        }
    }

    /// The packed form of `values` as record `id`: a buffer of exactly the
    /// record's size. Unpacking it gives the values back, where every
    /// integer among them fits its field.
    pub fn pack(&self, id: usize, values: &Vec<Value>) -> (bytes: Vec<u8>)
        requires
            self.wf(),
            id < self@.entries.len(),
            accepts(self@, id as nat, values_view(values@)),
        ensures
            bytes@ == spec_pack(self@, id as nat, values_view(values@)),
            bytes@.len() == self@.entries[id as int].size,
            in_range(self@, id as nat, values_view(values@)) ==> spec_unpack(
                self@,
                id as nat,
                bytes@,
            ) == values_view(values@),
    {
        let mut out: Vec<u8> = Vec::new();
        self.pack_into(id, values, &mut out);
        proof {
            self.lemma_wf_view();
            if in_range(self@, id as nat, values_view(values@)) {
                lemma_round_trip(self@, id as nat, values_view(values@));
            }
            self.lemma_wf_view();
            let r = self@;
            let fields = r.entries[id as int].fields;
            assert(Seq::<u8>::empty() + spec_pack(r, id as nat, values_view(values@)) =~= spec_pack(
                r,
                id as nat,
                values_view(values@),
            ));
            lemma_pack_len(r, id as nat, fields.len(), values_view(values@));
            assert(r.entry_wf(id as int));
        }
        out
    }
}


impl Registry {
    /// The values that the bytes from `base` on hold as record `id`.
    pub fn unpack_at(&self, id: usize, bytes: &[u8], base: usize) -> (values: Vec<Value>)
        requires
            self.wf(),
            id < self@.entries.len(),
            base + self@.entries[id as int].size <= bytes.len(),
        ensures
            values_view(values@) == spec_unpack(
                self@,
                id as nat,
                bytes@.subrange(base as int, base + self@.entries[id as int].size),
            ),
            in_range(self@, id as nat, values_view(values@)),
        decreases id,
    {
        let entry = self.get(id);
        let big = self.big_endian(entry.modifier());
        let fields = entry.fields();
        let ghost r = self@;
        let ghost region = bytes@.subrange(base as int, base + r.entries[id as int].size);
        let mut values: Vec<Value> = Vec::new();
        let mut i: usize = 0;
        proof {
            self.lemma_wf_view();
            assert(values_view(values@) =~= unpack_prefix(r, id as nat, 0, region));
        }
        while i < fields.len()
            invariant
                self.wf(),
                r == self@,
                r.wf(),
                id < r.entries.len(),
                fields@ == r.entries[id as int].fields,
                base + r.entries[id as int].size <= bytes.len(),
                region == bytes@.subrange(base as int, base + r.entries[id as int].size),
                i <= fields.len(),
                values_view(values@) == unpack_prefix(r, id as nat, i as nat, region),
                big == is_big_endian(r, r.entries[id as int].modifier),
            decreases fields.len() - i,
        {
            let field = fields[i];
            proof {
                assert(r.entry_wf(id as int));
                assert(r.field_wf(id as int, i as int));
            }
            if field.materialize {
                let start: usize = base + field.offset + field.alignment;
                let width: usize = field.size - field.alignment;
                let ghost part = region.subrange(
                    field.offset + field.alignment,
                    field.offset + field.size,
                );
                proof {
                    assert(part =~= bytes@.subrange(start as int, start + width));
                    lemma_pow256_values();
                    crate::bytes::lemma_decode_unsigned_bound(part, big);
                }
                let v = match field.kind {
                    FieldKind::Array(_) => Value::Bytes(copy_range(bytes, start, width)),
                    FieldKind::Pad(_) => Value::Bytes(copy_range(bytes, start, width)),
                    FieldKind::Bool => Value::Bool(bytes[start] != 0),
                    FieldKind::Float => Value::Float(
                        decode_unsigned(bytes, start, width, big) as u32,
                    ),
                    FieldKind::Double => Value::Double(decode_unsigned(bytes, start, width, big)),
                    FieldKind::Ident(nested) => {
                        let inner = self.unpack_at(nested, bytes, start);
                        proof {
                            lemma_struct_view(inner);
                        }
                        Value::Struct(inner)
                    },
                    _ => {
                        if kind_is_signed(field.kind) {
                            Value::Int(decode_signed(bytes, start, width, big))
                        } else {
                            Value::UInt(decode_unsigned(bytes, start, width, big))
                        }
                    },
                };
                assert(v@ == decode_value(r, id as nat, field, part));
                let ghost before = values_view(values@);
                values.push(v);
                assert(values_view(values@) =~= before.push(v@));
            }
            i = i + 1;
        }
        proof {
            lemma_unpack_in_range(r, id as nat, region);
        }
        values
    }

    /// The values that `bytes`, a buffer of exactly the record's size,
    /// holds as record `id`.
    pub fn unpack(&self, id: usize, bytes: &[u8]) -> (values: Vec<Value>)
        requires
            self.wf(),
            id < self@.entries.len(),
            bytes.len() == self@.entries[id as int].size,
        ensures
            values_view(values@) == spec_unpack(self@, id as nat, bytes@),
            in_range(self@, id as nat, values_view(values@)),
    {
        assert(bytes@.subrange(0, bytes.len() as int) =~= bytes@);
        self.unpack_at(id, bytes, 0)
    }

    /// The values that the first bytes of `inp` hold as record `id`. What
    /// follows them in `inp` is not read.
    pub fn unpack_slice(&self, id: usize, inp: &[u8]) -> (values: Vec<Value>)
        requires
            self.wf(),
            id < self@.entries.len(),
            inp.len() >= self@.entries[id as int].size,
        ensures
            values_view(values@) == spec_unpack(
                self@,
                id as nat,
                inp@.take(self@.entries[id as int].size as int),
            ),
            in_range(self@, id as nat, values_view(values@)),
    {
        self.unpack_at(id, inp, 0)
    }

    /// The values that the first bytes of `inp` hold as record `id`; none
    /// where `inp` is shorter than the record or `id` is no record.
    pub fn unpack_checked(&self, id: usize, inp: &[u8]) -> (values: Option<Vec<Value>>)
        requires
            self.wf(),
        ensures
            values is None <==> id >= self@.entries.len() || inp.len()
                < self@.entries[id as int].size,
            values matches Some(vs) ==> values_view(vs@) == spec_unpack(
                self@,
                id as nat,
                inp@.take(self@.entries[id as int].size as int),
            ) && in_range(self@, id as nat, values_view(vs@)),
    {
        if id >= self.len() {
            return None;
        }
        if inp.len() < self.get(id).size() {
            return None;
        }
        Some(self.unpack_slice(id, inp))
    }
}


/// Decoding what a value was encoded to gives the value back, where every
/// integer in it fits its field.
pub proof fn lemma_decode_encode(r: RegistryView, id: nat, field: Field, i: int, v: ValueView)
    requires
        r.wf(),
        id < r.entries.len(),
        0 <= i < r.entries[id as int].fields.len(),
        field == r.entries[id as int].fields[i],
        field.materialize,
        value_ok(r, id, field, v, true),
    ensures
        decode_value(r, id, field, encode_value(r, id, field, v)) == v,
    decreases id, 0nat,
{
    let width = (field.size - field.alignment) as nat;
    let big = is_big_endian(r, r.entries[id as int].modifier);
    assert(r.entry_wf(id as int));
    assert(r.field_wf(id as int, i));
    lemma_pow256_values();
    match field.kind {
        FieldKind::Array(_) => {},
        FieldKind::Bool => {},
        FieldKind::Pad(_) => {},
        FieldKind::Float => {
            let x = v->Float_0 as nat;
            lemma_unsigned_round_trip(x, width, big);
            vstd::arithmetic::div_mod::lemma_small_mod(x, pow256(width));
        },
        FieldKind::Double => {
            let x = v->Double_0 as nat;
            lemma_unsigned_round_trip(x, width, big);
            vstd::arithmetic::div_mod::lemma_small_mod(x, pow256(width));
        },
        FieldKind::Ident(nested) => {
            let inner = r.entries[nested as int];
            let vs = v->Struct_0;
            lemma_strict_is_ok(r, nested as nat, inner.fields.len(), vs);
            lemma_pack_len(r, nested as nat, inner.fields.len(), vs);
            let packed = pack_prefix(r, nested as nat, inner.fields.len(), vs);
            assert(packed.take(packed.len() as int) =~= packed);
            lemma_unpack_of_pack(r, nested as nat, inner.fields.len(), vs, packed);
            assert(vs.take(vs.len() as int) =~= vs);
        },
        _ => {
            if is_signed(field.kind) {
                lemma_signed_round_trip(v->Int_0 as int, width, big);
            } else {
                let x = v->UInt_0 as nat;
                lemma_unsigned_round_trip(x, width, big);
                vstd::arithmetic::div_mod::lemma_small_mod(x, pow256(width));
            }
        },
    }
}

/// Unpacking the first `n` fields from any buffer that starts with their
/// packed form gives their values back.
pub proof fn lemma_unpack_of_pack(
    r: RegistryView,
    id: nat,
    n: nat,
    values: Seq<ValueView>,
    bytes: Seq<u8>,
)
    requires
        r.wf(),
        id < r.entries.len(),
        n <= r.entries[id as int].fields.len(),
        mat_count(r.entries[id as int].fields, n) <= values.len(),
        values_ok(r, id, n, values, true),
        pack_prefix(r, id, n, values).len() <= bytes.len(),
        bytes.take(pack_prefix(r, id, n, values).len() as int) == pack_prefix(r, id, n, values),
    ensures
        unpack_prefix(r, id, n, bytes) == values.take(
            mat_count(r.entries[id as int].fields, n) as int,
        ),
    decreases id, n,
{
    let fields = r.entries[id as int].fields;
    if n == 0 {
        assert(values.take(0) =~= Seq::<ValueView>::empty());
    } else {
        let field = fields[n - 1];
        let count = mat_count(fields, (n - 1) as nat);
        let before = pack_prefix(r, id, (n - 1) as nat, values);
        let whole = pack_prefix(r, id, n, values);
        assert(r.entry_wf(id as int));
        assert(r.field_wf(id as int, n - 1));
        lemma_strict_is_ok(r, id, n, values);
        lemma_pack_len(r, id, (n - 1) as nat, values);
        lemma_pack_len(r, id, n, values);
        assert(bytes.take(before.len() as int) =~= before) by {
            assert(whole.take(before.len() as int) =~= before);
            assert(bytes.take(before.len() as int) =~= bytes.take(whole.len() as int).take(
                before.len() as int,
            ));
        }
        lemma_unpack_of_pack(r, id, (n - 1) as nat, values, bytes);
        if field.materialize {
            let v = values[count as int];
            let encoded = encode_value(r, id, field, v);
            let part = bytes.subrange(field.offset + field.alignment, field.offset + field.size);
            assert(value_ok(r, id, field, v, true));
            assert(value_ok(r, id, field, v, false));
            lemma_encode_len(r, id, field, n - 1, v);
            assert(part =~= encoded) by {
                assert(part =~= bytes.take(whole.len() as int).subrange(
                    field.offset + field.alignment,
                    field.offset + field.size,
                ));
            }
            lemma_decode_encode(r, id, field, n - 1, v);
            assert(values.take(count as int).push(v) =~= values.take(count as int + 1));
        }
    }
}

/// Unpacking what was packed gives the values back: for every record of a
/// well-formed registry and all values for it whose integers fit their
/// fields. The packed form is as long as the record's size says.
pub proof fn lemma_round_trip(r: RegistryView, id: nat, values: Seq<ValueView>)
    requires
        r.wf(),
        id < r.entries.len(),
        in_range(r, id, values),
    ensures
        spec_pack(r, id, values).len() == r.entries[id as int].size,
        spec_unpack(r, id, spec_pack(r, id, values)) == values,
{
    let fields = r.entries[id as int].fields;
    let packed = spec_pack(r, id, values);
    lemma_strict_is_ok(r, id, fields.len(), values);
    lemma_pack_len(r, id, fields.len(), values);
    assert(r.entry_wf(id as int));
    assert(packed.take(packed.len() as int) =~= packed);
    lemma_unpack_of_pack(r, id, fields.len(), values, packed);
    assert(values.take(values.len() as int) =~= values);
}


impl Registry {
    /// Whether there is one value in `values` for each field of record `id`
    /// that holds one, each of its field's type and, with `strict`, every
    /// integer within the width of its field.
    pub fn check(&self, id: usize, values: &Vec<Value>, strict: bool) -> (ok: bool)
        requires
            self.wf(),
            id < self@.entries.len(),
        ensures
            ok == (values@.len() == mat_count(
                self@.entries[id as int].fields,
                self@.entries[id as int].fields.len(),
            ) && values_ok(
                self@,
                id as nat,
                self@.entries[id as int].fields.len(),
                values_view(values@),
                strict,
            )),
        decreases id,
    {
        let entry = self.get(id);
        let fields = entry.fields();
        let ghost r = self@;
        let ghost vals = values_view(values@);
        let mut next: usize = 0;
        let mut i: usize = 0;
        proof {
            self.lemma_wf_view();
        }
        while i < fields.len()
            invariant
                self.wf(),
                r == self@,
                r.wf(),
                id < r.entries.len(),
                fields@ == r.entries[id as int].fields,
                vals == values_view(values@),
                i <= fields.len(),
                next == mat_count(fields@, i as nat),
                next <= values.len(),
                values_ok(r, id as nat, i as nat, vals, strict),
            decreases fields.len() - i,
        {
            let field = fields[i];
            proof {
                assert(r.entry_wf(id as int));
                assert(r.field_wf(id as int, i as int));
                lemma_mat_count_monotonic(fields@, (i + 1) as nat, fields@.len());
                if values_ok(r, id as nat, fields@.len(), vals, strict) {
                    lemma_values_ok_prefix(
                        r,
                        id as nat,
                        (i + 1) as nat,
                        fields@.len(),
                        vals,
                        strict,
                    );
                }
            }
            if field.materialize {
                if next >= values.len() {
                    return false;
                }
                let v = &values[next];
                assert(vals[next as int] == v@);
                let width: usize = field.size - field.alignment;
                let good = match field.kind {
                    FieldKind::Array(len) => match v {
                        Value::Bytes(b) => b.len() == len,
                        _ => false,
                    },
                    FieldKind::Bool => match v {
                        Value::Bool(_) => true,
                        _ => false,
                    },
                    FieldKind::Float => match v {
                        Value::Float(_) => true,
                        _ => false,
                    },
                    FieldKind::Double => match v {
                        Value::Double(_) => true,
                        _ => false,
                    },
                    FieldKind::Pad(_) => false,
                    FieldKind::Ident(nested) => match v {
                        Value::Struct(vs) => {
                            proof {
                                lemma_struct_view(*vs);
                            }
                            self.check(nested, vs, strict)
                        },
                        _ => false,
                    },
                    _ => {
                        if kind_is_signed(field.kind) {
                            match v {
                                Value::Int(x) => !strict || signed_fits(*x, width),
                                _ => false,
                            }
                        } else {
                            match v {
                                Value::UInt(x) => !strict || unsigned_fits(*x, width),
                                _ => false,
                            }
                        }
                    },
                };
                assert(good == value_ok(r, id as nat, field, v@, strict));
                if !good {
                    return false;
                }
                next = next + 1;
            }
            i = i + 1;
        }
        next == values.len()
    }

    /// Whether `values` can be packed as record `id`.
    pub fn accepts(&self, id: usize, values: &Vec<Value>) -> (ok: bool)
        requires
            self.wf(),
            id < self@.entries.len(),
        ensures
            ok == accepts(self@, id as nat, values_view(values@)),
    {
        self.check(id, values, false)
    }

    /// The packed form of `values` as record `id`; none where `id` is no
    /// record or `values` are no values for it.
    pub fn pack_checked(&self, id: usize, values: &Vec<Value>) -> (bytes: Option<Vec<u8>>)
        requires
            self.wf(),
        ensures
            bytes is Some <==> id < self@.entries.len() && accepts(
                self@,
                id as nat,
                values_view(values@),
            ),
            bytes matches Some(b) ==> b@ == spec_pack(self@, id as nat, values_view(values@))
                && b@.len() == self@.entries[id as int].size,
    {
        if id < self.len() && self.accepts(id, values) {
            Some(self.pack(id, values))
        } else {
            None
        }
    }

    /// Whether `values` can be packed as record `id` and come back from the
    /// packed form as they are: every integer fits the width of its field.
    pub fn in_range(&self, id: usize, values: &Vec<Value>) -> (ok: bool)
        requires
            self.wf(),
            id < self@.entries.len(),
        ensures
            ok == in_range(self@, id as nat, values_view(values@)),
            ok ==> accepts(self@, id as nat, values_view(values@)),
    {
        let ok = self.check(id, values, true);
        proof {
            if ok {
                lemma_strict_is_ok(
                    self@,
                    id as nat,
                    self@.entries[id as int].fields.len(),
                    values_view(values@),
                );
            }
        }
        ok
    }
}


/// Whether the values for the first `n` fields are values for them depends
/// on no value behind them.
pub proof fn lemma_values_ok_frame(
    r: RegistryView,
    id: nat,
    n: nat,
    v1: Seq<ValueView>,
    v2: Seq<ValueView>,
    strict: bool,
)
    requires
        forall|i: int| 0 <= i < mat_count(r.entries[id as int].fields, n) ==> v1[i] == v2[i],
    ensures
        values_ok(r, id, n, v1, strict) == values_ok(r, id, n, v2, strict),
    decreases n,
{
    if n > 0 {
        lemma_values_ok_frame(r, id, (n - 1) as nat, v1, v2, strict);
    }
}

/// What the bytes of a field stand for is a value for the field, with every
/// integer within the field's width.
pub proof fn lemma_decode_value_ok(r: RegistryView, id: nat, i: int, bytes: Seq<u8>)
    requires
        r.wf(),
        id < r.entries.len(),
        0 <= i < r.entries[id as int].fields.len(),
        r.entries[id as int].fields[i].materialize,
        bytes.len() == r.entries[id as int].fields[i].size
            - r.entries[id as int].fields[i].alignment,
    ensures
        value_ok(
            r,
            id,
            r.entries[id as int].fields[i],
            decode_value(r, id, r.entries[id as int].fields[i], bytes),
            true,
        ),
    decreases id, 0nat,
{
    let field = r.entries[id as int].fields[i];
    let big = is_big_endian(r, r.entries[id as int].modifier);
    assert(r.entry_wf(id as int));
    assert(r.field_wf(id as int, i));
    lemma_pow256_values();
    crate::bytes::lemma_decode_unsigned_bound(bytes, big);
    crate::bytes::lemma_from_twos_complement_fits(spec_decode_unsigned(bytes, big), bytes.len());
    if bytes.len() <= 8 {
        crate::bytes::lemma_pow256_monotonic(bytes.len(), 8);
    }
    match field.kind {
        FieldKind::Ident(nested) => {
            assert(r.entry_wf(nested as int));
            lemma_unpack_in_range(r, nested as nat, bytes);
        },
        _ => {},
    }
}

/// The values of the first `n` fields in a buffer are values for them, with
/// every integer within its field's width.
pub proof fn lemma_unpack_prefix_ok(r: RegistryView, id: nat, n: nat, bytes: Seq<u8>)
    requires
        r.wf(),
        id < r.entries.len(),
        n <= r.entries[id as int].fields.len(),
        bytes.len() >= r.entries[id as int].size,
    ensures
        unpack_prefix(r, id, n, bytes).len() == mat_count(r.entries[id as int].fields, n),
        values_ok(r, id, n, unpack_prefix(r, id, n, bytes), true),
    decreases id, n,
{
    if n > 0 {
        let fields = r.entries[id as int].fields;
        let field = fields[n - 1];
        let before = unpack_prefix(r, id, (n - 1) as nat, bytes);
        let now = unpack_prefix(r, id, n, bytes);
        assert(r.entry_wf(id as int));
        assert(r.field_wf(id as int, n - 1));
        lemma_unpack_prefix_ok(r, id, (n - 1) as nat, bytes);
        lemma_values_ok_frame(r, id, (n - 1) as nat, before, now, true);
        if field.materialize {
            lemma_decode_value_ok(
                r,
                id,
                n - 1,
                bytes.subrange(field.offset + field.alignment, field.offset + field.size),
            );
        }
    }
}

/// What is unpacked from a buffer of a record's size can be packed again:
/// every byte pattern stands for values of the record, each integer within
/// the width of its field.
pub proof fn lemma_unpack_in_range(r: RegistryView, id: nat, bytes: Seq<u8>)
    requires
        r.wf(),
        id < r.entries.len(),
        bytes.len() >= r.entries[id as int].size,
    ensures
        in_range(r, id, spec_unpack(r, id, bytes)),
    decreases id, r.entries[id as int].fields.len() + 1,
{
    lemma_unpack_prefix_ok(r, id, r.entries[id as int].fields.len(), bytes);
}

} // verus!
