//! From codes to fields: each code becomes one or more slots, and each slot
//! gets its offset, its alignment padding and its size.

use crate::abi::{is_width, Abi};
use crate::parser::{
    parse, spec_parse, Format, FormatChar, FormatCharView, FormatCode,
    FormatCodeView, FormatView, Modifier, ParseError,
};
use vstd::prelude::*;

verus! {

/// The kind of one field. A byte array and a padding carry their length; a
/// nested record carries the index under which its type was registered.
#[derive(Debug, Clone, Copy, PartialEq, Eq, Structural)]
pub enum FieldKind {
    Array(usize),
    Bool,
    Char,
    Double,
    Float,
    Ident(usize),
    Int,
    Long,
    LongLong,
    Pad(usize),
    Short,
    Size,
    UChar,
    UInt,
    ULong,
    ULongLong,
    UShort,
    USize,
}

/// One field before it has a place: its kind, whether it holds a value of
/// the record, how many bytes its value takes in the buffer, and the
/// alignment of its type.
#[derive(Debug, Clone, Copy, PartialEq, Eq, Structural)]
pub struct Slot {
    pub kind: FieldKind,
    pub materialize: bool,
    pub payload: usize,
    pub align: usize,
}

/// One field of a compiled record. `alignment` bytes of padding start at
/// `offset`; the value follows them and ends at `offset + size`.
#[derive(Debug, Clone, Copy, PartialEq, Eq, Structural)]
pub struct Field {
    pub kind: FieldKind,
    pub materialize: bool,
    pub offset: usize,
    pub alignment: usize,
    pub size: usize,
}

/// Why a format could not be compiled.
#[derive(Debug, Clone, Copy, PartialEq, Eq, Structural)]
pub enum CompileError {
    /// The format string does not follow the grammar.
    Parse(ParseError),
    /// The code with this index names a type that is not registered.
    UnknownType { code: usize },
    /// The record has more fields, or more bytes, than a `usize` can count.
    TooLarge,
}

/// A compiled record: its name, its mode, its fields in order and its size.
#[derive(Debug)]
pub struct Compilation {
    name: String,
    modifier: Modifier,
    fields: Vec<Field>,
    size: usize,
    align: usize,
}

/// What a [`Compilation`] stands for in contracts.
pub ghost struct CompilationView {
    pub name: Seq<char>,
    pub modifier: Modifier,
    pub fields: Seq<Field>,
    pub size: usize,
    pub align: usize,
}

impl View for Compilation {
    type V = CompilationView;

    closed spec fn view(&self) -> CompilationView {
        CompilationView {
            name: self.name@,
            modifier: self.modifier,
            fields: self.fields@,
            size: self.size,
            align: self.align,
        }
    }
}

/// The compiled records that a format can name, in the order in which they
/// were registered, and the data model they were compiled for.
#[derive(Debug)]
pub struct Registry {
    abi: Abi,
    entries: Vec<Compilation>,
}

/// What a [`Registry`] stands for in contracts.
pub ghost struct RegistryView {
    pub abi: Abi,
    pub entries: Seq<CompilationView>,
}

impl View for Registry {
    type V = RegistryView;

    closed spec fn view(&self) -> RegistryView {
        RegistryView {
            abi: self.abi,
            entries: Seq::new(self.entries.len() as nat, |i: int| self.entries[i]@),
        }
    }
}

/// The index of the record registered last under `name`.
pub open spec fn find_type(entries: Seq<CompilationView>, name: Seq<char>) -> Option<int>
    decreases entries.len(),
{
    if entries.len() == 0 {
        None
    } else if entries.last().name == name {
        Some(entries.len() - 1)
    } else {
        find_type(entries.drop_last(), name)
    }
}

/// How many bytes a value of this kind takes.
pub open spec fn type_width(r: RegistryView, kind: FieldKind, native: bool) -> usize {
    match kind {
        FieldKind::Array(len) => len,
        FieldKind::Pad(len) => len,
        FieldKind::Bool => 1,
        FieldKind::Char => 1,
        FieldKind::UChar => 1,
        FieldKind::Short => if native {
            r.abi.short_size
        } else {
            2
        },
        FieldKind::UShort => if native {
            r.abi.short_size
        } else {
            2
        },
        FieldKind::Int => if native {
            r.abi.int_size
        } else {
            4
        },
        FieldKind::UInt => if native {
            r.abi.int_size
        } else {
            4
        },
        FieldKind::Long => if native {
            r.abi.long_size
        } else {
            4
        },
        FieldKind::ULong => if native {
            r.abi.long_size
        } else {
            4
        },
        FieldKind::LongLong => if native {
            r.abi.long_long_size
        } else {
            8
        },
        FieldKind::ULongLong => if native {
            r.abi.long_long_size
        } else {
            8
        },
        FieldKind::Size => r.abi.pointer_size,
        FieldKind::USize => r.abi.pointer_size,
        FieldKind::Float => 4,
        FieldKind::Double => 8,
        FieldKind::Ident(id) => if id < r.entries.len() {
            r.entries[id as int].size
        } else {
            0
        },
    }
}

/// The alignment that the platform gives a value of this kind.
pub open spec fn type_align(r: RegistryView, kind: FieldKind, native: bool) -> usize {
    match kind {
        FieldKind::Array(_) => 1,
        FieldKind::Pad(_) => 1,
        FieldKind::Bool => 1,
        FieldKind::Char => 1,
        FieldKind::UChar => 1,
        FieldKind::Float => r.abi.float_align,
        FieldKind::Double => r.abi.double_align,
        FieldKind::Ident(id) => if id < r.entries.len() {
            r.entries[id as int].align
        } else {
            1
        },
        _ => r.abi.spec_int_align(type_width(r, kind, native)),
    }
}

/// The count in front of a code, one where there is none.
pub open spec fn repeat_or_one(repeat: Option<usize>) -> usize {
    match repeat {
        Some(n) => n,
        None => 1,
    }
}

/// The kind of field that a code asks for; none where it names a type that
/// is not registered.
pub open spec fn kind_of(entries: Seq<CompilationView>, code: FormatCodeView) -> Option<
    FieldKind,
> {
    match code.chr {
        FormatCharView::Array => Some(FieldKind::Array(repeat_or_one(code.repeat))),
        FormatCharView::Bool => Some(FieldKind::Bool),
        FormatCharView::Char => Some(FieldKind::Char),
        FormatCharView::Double => Some(FieldKind::Double),
        FormatCharView::Float => Some(FieldKind::Float),
        FormatCharView::Int => Some(FieldKind::Int),
        FormatCharView::Long => Some(FieldKind::Long),
        FormatCharView::LongLong => Some(FieldKind::LongLong),
        FormatCharView::Pad => Some(FieldKind::Pad(repeat_or_one(code.repeat))),
        FormatCharView::Short => Some(FieldKind::Short),
        FormatCharView::Size => Some(FieldKind::Size),
        FormatCharView::UChar => Some(FieldKind::UChar),
        FormatCharView::UInt => Some(FieldKind::UInt),
        FormatCharView::ULong => Some(FieldKind::ULong),
        FormatCharView::ULongLong => Some(FieldKind::ULongLong),
        FormatCharView::UShort => Some(FieldKind::UShort),
        FormatCharView::USize => Some(FieldKind::USize),
        FormatCharView::Ident(name) => match find_type(entries, name) {
            Some(id) => Some(FieldKind::Ident(id as usize)),
            None => None,
        },
    }
}

/// Whether a field of this kind, made by a code with this count, holds a
/// value of the record: a padding never does, a byte array always, and any
/// other unless the count is zero.
pub open spec fn materializes(kind: FieldKind, repeat: Option<usize>) -> bool {
    match kind {
        FieldKind::Pad(_) => false,
        FieldKind::Array(_) => true,
        _ => repeat != Some(0usize),
    }
}

/// The slot that a code with this kind and count makes. A field that holds
/// no value takes no bytes beyond its alignment, but for a padding, which
/// takes its length.
pub open spec fn slot_of(r: RegistryView, kind: FieldKind, repeat: Option<usize>, native: bool)
    -> Slot {
    let materialize = materializes(kind, repeat);
    Slot {
        kind,
        materialize,
        payload: if materialize || kind is Pad {
            type_width(r, kind, native)
        } else {
            0
        },
        align: type_align(r, kind, native),
    }
}

/// How many fields a code makes: one for a byte array or a padding, whose
/// count is a length; else as many as the count says, and one for zero.
pub open spec fn slot_count(kind: FieldKind, repeat: Option<usize>) -> nat {
    match kind {
        FieldKind::Pad(_) => 1,
        FieldKind::Array(_) => 1,
        _ => if repeat_or_one(repeat) == 0 {
            1
        } else {
            repeat_or_one(repeat) as nat
        },
    }
}

/// The slots that the first `n` codes make, in order, or the first error:
/// a code that names an unknown type, or one with which the fields become
/// more than a `usize` can count.
pub open spec fn expand(r: RegistryView, codes: Seq<FormatCodeView>, native: bool, n: nat)
    -> Result<Seq<Slot>, CompileError>
    decreases n,
{
    if n == 0 {
        Ok(Seq::empty())
    } else {
        match expand(r, codes, native, (n - 1) as nat) {
            Err(e) => Err(e),
            Ok(slots) => {
                let code = codes[n - 1];
                match kind_of(r.entries, code) {
                    None => Err(CompileError::UnknownType { code: (n - 1) as usize }),
                    Some(kind) => {
                        let count = slot_count(kind, code.repeat);
                        if slots.len() + count > usize::MAX {
                            Err(CompileError::TooLarge)
                        } else {
                            Ok(
                                slots + Seq::new(
                                    count,
                                    |i: int| slot_of(r, kind, code.repeat, native),
                                ),
                            )
                        }
                    },
                }
            },
        }
    }
}

/// How many bytes of padding bring `offset` up to a multiple of `align`.
#[verifier::opaque]
pub open spec fn alignment_correction(offset: nat, align: nat) -> nat {
    if align == 0 || offset % align == 0 {
        0
    } else {
        (align - offset % align) as nat
    }
}

/// The padding in front of a slot that starts at `offset`: what aligns it
/// in native mode, nothing in the other modes.
pub open spec fn slot_alignment(slot: Slot, native: bool, offset: nat) -> nat {
    if native {
        alignment_correction(offset, slot.align as nat)
    } else {
        0
    }
}

/// The offset at which the first `n` slots end.
pub open spec fn end_offset(slots: Seq<Slot>, native: bool, n: nat) -> nat
    decreases n,
{
    if n == 0 {
        0
    } else {
        let start = end_offset(slots, native, (n - 1) as nat);
        start + slot_alignment(slots[n - 1], native, start) + slots[n - 1].payload as nat
    }
}

/// The field that slot `i` becomes: it starts where the slots before it
/// end, and its size is its padding and its payload.
pub open spec fn resolved(slots: Seq<Slot>, native: bool, i: int) -> Field {
    let start = end_offset(slots, native, i as nat);
    let alignment = slot_alignment(slots[i], native, start);
    Field {
        kind: slots[i].kind,
        materialize: slots[i].materialize,
        offset: start as usize,
        alignment: alignment as usize,
        size: (alignment + slots[i].payload) as usize,
    }
}

/// The first field starts the record: it stands at offset zero and has no
/// padding in front of it, in any mode.
pub proof fn lemma_first_field_unpadded(slots: Seq<Slot>, native: bool)
    requires
        slots.len() > 0,
    ensures
        resolved(slots, native, 0).offset == 0,
        resolved(slots, native, 0).alignment == 0,
{
    reveal(alignment_correction);
    if slots[0].align > 0 {
        vstd::arithmetic::div_mod::lemma_small_mod(0, slots[0].align as nat);
    }
}

/// The fields that the slots become.
pub open spec fn layout(slots: Seq<Slot>, native: bool) -> Seq<Field> {
    Seq::new(slots.len(), |i: int| resolved(slots, native, i))
}

/// The alignment of the record's value: the largest alignment among the
/// first `n` slots that hold a value, and one where there is none.
pub open spec fn value_align(slots: Seq<Slot>, n: nat) -> usize
    decreases n,
{
    if n == 0 {
        1
    } else {
        let before = value_align(slots, (n - 1) as nat);
        if slots[n - 1].materialize && slots[n - 1].align > before {
            slots[n - 1].align
        } else {
            before
        }
    }
}

/// The mode of a format: native where the string names none.
pub open spec fn mode_of(format: FormatView) -> Modifier {
    match format.modifier {
        Some(m) => m,
        None => Modifier::Native,
    }
}

/// What compiling a parsed format under a name gives: the record, or why
/// there is none.
pub open spec fn spec_compile(r: RegistryView, name: Seq<char>, format: FormatView) -> Result<
    CompilationView,
    CompileError,
> {
    let modifier = mode_of(format);
    let native = modifier.spec_native_types();
    match expand(r, format.codes, native, format.codes.len()) {
        Err(e) => Err(e),
        Ok(slots) => {
            if end_offset(slots, native, slots.len()) > usize::MAX {
                Err(CompileError::TooLarge)
            } else {
                Ok(
                    CompilationView {
                        name,
                        modifier,
                        fields: layout(slots, native),
                        size: end_offset(slots, native, slots.len()) as usize,
                        align: value_align(slots, slots.len()),
                    },
                )
            }
        },
    }
}

/// A longer prefix of the slots ends no earlier.
pub proof fn lemma_end_offset_monotonic(slots: Seq<Slot>, native: bool, a: nat, b: nat)
    requires
        a <= b,
    ensures
        end_offset(slots, native, a) <= end_offset(slots, native, b),
    decreases b,
{
    if a < b {
        lemma_end_offset_monotonic(slots, native, a, (b - 1) as nat);
    }
}

/// The end of a prefix does not depend on what follows it.
pub proof fn lemma_end_offset_prefix(s1: Seq<Slot>, s2: Seq<Slot>, native: bool, n: nat)
    requires
        n <= s1.len(),
        n <= s2.len(),
        forall|i: int| 0 <= i < n ==> s1[i] == s2[i],
    ensures
        end_offset(s1, native, n) == end_offset(s2, native, n),
    decreases n,
{
    if n > 0 {
        lemma_end_offset_prefix(s1, s2, native, (n - 1) as nat);
    }
}

/// The padding is less than the alignment, and brings the offset up to a
/// multiple of it.
pub proof fn lemma_alignment_correction(offset: nat, align: nat)
    requires
        align > 0,
    ensures
        alignment_correction(offset, align) < align,
        (offset + alignment_correction(offset, align)) % align == 0,
{
    reveal(alignment_correction);
    let c = alignment_correction(offset, align);
    if offset % align != 0 {
        vstd::arithmetic::div_mod::lemma_fundamental_div_mod(offset as int, align as int);
        let q = offset as int / align as int;
        assert(offset + c == align * (q + 1)) by (nonlinear_arith)
            requires
                offset == align * q + offset % align,
                c == align - offset % align,
        ;
        vstd::arithmetic::div_mod::lemma_mod_multiples_basic(q + 1, align as int);
    }
}

/// How many bytes of padding bring `offset` up to a multiple of `align`.
pub fn align(offset: usize, boundary: usize) -> (correction: usize)
    requires
        boundary > 0,
    ensures
        correction == alignment_correction(offset as nat, boundary as nat),
{
    proof {
        reveal(alignment_correction);
    }
    let rest: usize = offset % boundary;
    if rest == 0 {
        0
    } else {
        boundary - rest
    }
}

impl Registry {
    /// The data model is one that records can be laid out by, and every
    /// record is laid out without gaps and refers to earlier records only.
    pub closed spec fn wf(&self) -> bool {
        self@.wf()
    }

    /// A well-formed registry has a well-formed view.
    pub proof fn lemma_wf_view(&self)
        requires
            self.wf(),
        ensures
            self@.wf(),
    {
    }

    /// An empty registry for the data model `abi`; none where `abi` is not
    /// valid.
    pub fn new(abi: Abi) -> (registry: Option<Registry>)
        ensures
            registry is Some <==> abi.wf(),
            registry matches Some(r) ==> r.wf() && r@.abi == abi && r@.entries.len() == 0,
    {
        if abi.is_valid() {
            Some(Registry { abi, entries: Vec::new() })
        } else {
            None
        }
    }

    /// How many records are registered.
    pub fn len(&self) -> (n: usize)
        ensures
            n == self@.entries.len(),
    {
        self.entries.len()
    }

    /// The index of the record registered last under `name`.
    pub fn find(&self, name: &String) -> (id: Option<usize>)
        ensures
            id matches Some(i) ==> find_type(self@.entries, name@) == Some(i as int) && i
                < self@.entries.len(),
            id is None ==> find_type(self@.entries, name@) is None,
    {
        let ghost entries = self@.entries;
        let mut i: usize = self.entries.len();
        assert(entries.take(i as int) =~= entries);
        while i > 0
            invariant
                i <= self.entries.len(),
                entries == self@.entries,
                find_type(entries, name@) == find_type(entries.take(i as int), name@),
            decreases i,
        {
            i = i - 1;
            proof {
                let upto = entries.take(i + 1);
                assert(upto.last() == entries[i as int]);
                assert(upto.drop_last() =~= entries.take(i as int));
            }
            if self.entries[i].name == *name {
                return Some(i);
            }
        }
        proof {
            assert(entries.take(0).len() == 0);
        }
        None
    }
}

impl RegistryView {
    /// Field `i` of record `id` is laid out behind the fields before it,
    /// its padding is what aligns it in native mode and nothing in the
    /// other modes, and its payload is as wide as a value of its kind.
    pub open spec fn field_wf(self, id: int, i: int) -> bool {
        let entry = self.entries[id];
        let field = entry.fields[i];
        let native = entry.modifier.spec_native_types();
        let payload = field.size - field.alignment;
        &&& field.alignment <= field.size
        &&& field.alignment == if native {
            alignment_correction(field.offset as nat, type_align(self, field.kind, native) as nat)
        } else {
            0
        }
        &&& field.offset + field.size <= entry.size
        &&& field.offset == if i == 0 {
            0
        } else {
            entry.fields[i - 1].offset + entry.fields[i - 1].size
        }
        &&& field.kind matches FieldKind::Ident(nested) ==> nested < id
        &&& field.kind is Pad ==> !field.materialize
        &&& field.kind is Array ==> field.materialize
        &&& if field.materialize || field.kind is Pad {
            payload == type_width(self, field.kind, native)
        } else {
            payload == 0
        }
    }

    /// The largest alignment among the first `n` fields of record `id` that
    /// hold a value, and one where there is none.
    pub open spec fn fields_align(self, id: int, n: nat) -> usize
        decreases n,
    {
        if n == 0 {
            1
        } else {
            let entry = self.entries[id];
            let before = self.fields_align(id, (n - 1) as nat);
            let field = entry.fields[n - 1];
            let align = type_align(self, field.kind, entry.modifier.spec_native_types());
            if field.materialize && align > before {
                align
            } else {
                before
            }
        }
    }

    /// Record `id` is aligned as its values are, every field of it is in
    /// its place, and its size is where its last field ends.
    pub open spec fn entry_wf(self, id: int) -> bool {
        let entry = self.entries[id];
        &&& is_width(entry.align)
        &&& entry.align == self.fields_align(id, entry.fields.len())
        &&& forall|i: int| 0 <= i < entry.fields.len() ==> #[trigger] self.field_wf(id, i)
        &&& entry.size == if entry.fields.len() == 0 {
            0
        } else {
            entry.fields.last().offset + entry.fields.last().size
        }
    }

    /// The data model is valid, the records can be counted by a `usize`, and
    /// every record is well formed.
    pub open spec fn wf(self) -> bool {
        &&& self.abi.wf()
        &&& self.entries.len() <= usize::MAX
        &&& forall|id: int| 0 <= id < self.entries.len() ==> #[trigger] self.entry_wf(id)
    }
}


/// What holds of every slot that a registry's codes make: it refers to a
/// registered record, a padding holds no value and a byte array holds one,
/// and its payload and alignment are those of its kind.
pub open spec fn slot_ok(r: RegistryView, slot: Slot, native: bool) -> bool {
    &&& slot.kind matches FieldKind::Ident(nested) ==> nested < r.entries.len()
    &&& slot.kind is Pad ==> !slot.materialize
    &&& slot.kind is Array ==> slot.materialize
    &&& slot.payload == if slot.materialize || slot.kind is Pad {
        type_width(r, slot.kind, native)
    } else {
        0
    }
    &&& slot.align == type_align(r, slot.kind, native)
}

/// The index under which a name is found is that of a record with that
/// name.
pub proof fn lemma_find_type_bound(entries: Seq<CompilationView>, name: Seq<char>)
    ensures
        find_type(entries, name) matches Some(id) ==> 0 <= id < entries.len() && entries[id].name
            == name,
    decreases entries.len(),
{
    if entries.len() > 0 && entries.last().name != name {
        lemma_find_type_bound(entries.drop_last(), name);
    }
}

/// Once a prefix of the codes fails, every longer prefix fails alike.
pub proof fn lemma_expand_error_sticks(
    r: RegistryView,
    codes: Seq<FormatCodeView>,
    native: bool,
    n: nat,
    m: nat,
)
    requires
        n <= m,
        expand(r, codes, native, n) is Err,
    ensures
        expand(r, codes, native, m) == expand(r, codes, native, n),
    decreases m,
{
    if n < m {
        lemma_expand_error_sticks(r, codes, native, n, (m - 1) as nat);
    }
}

/// The slots that codes make can be counted by a `usize`, and each is what
/// [`slot_ok`] says.
pub proof fn lemma_expand_slots_ok(
    r: RegistryView,
    codes: Seq<FormatCodeView>,
    native: bool,
    n: nat,
)
    ensures
        expand(r, codes, native, n) matches Ok(slots) ==> slots.len() <= usize::MAX && forall|
            i: int,
        |
            0 <= i < slots.len() ==> slot_ok(r, #[trigger] slots[i], native),
    decreases n,
{
    if n > 0 {
        lemma_expand_slots_ok(r, codes, native, (n - 1) as nat);
        if let Some(kind) = kind_of(r.entries, codes[n - 1]) {
            if let FormatCharView::Ident(name) = codes[n - 1].chr {
                lemma_find_type_bound(r.entries, name);
            }
        }
    }
}

/// The alignment of a record's value is a valid alignment where those of
/// its slots are.
pub proof fn lemma_value_align_is_width(slots: Seq<Slot>, n: nat)
    requires
        n <= slots.len(),
        forall|i: int| 0 <= i < slots.len() ==> is_width(#[trigger] slots[i].align),
    ensures
        is_width(value_align(slots, n)),
    decreases n,
{
    if n > 0 {
        lemma_value_align_is_width(slots, (n - 1) as nat);
    }
}

/// The width and the alignment of a kind do not change when records are
/// registered behind those that the kind refers to.
pub proof fn lemma_types_frame(r: RegistryView, after: RegistryView, kind: FieldKind, native: bool)
    requires
        after.abi == r.abi,
        r.entries.len() <= after.entries.len(),
        forall|j: int| 0 <= j < r.entries.len() ==> after.entries[j] == r.entries[j],
        kind matches FieldKind::Ident(nested) ==> nested < r.entries.len(),
    ensures
        type_width(after, kind, native) == type_width(r, kind, native),
        type_align(after, kind, native) == type_align(r, kind, native),
{
}

/// A field that is in its place stays so when records are registered
/// behind its record.
pub proof fn lemma_field_wf_frame(r: RegistryView, after: RegistryView, id: int, i: int)
    requires
        after.abi == r.abi,
        r.entries.len() <= after.entries.len(),
        forall|j: int| 0 <= j < r.entries.len() ==> after.entries[j] == r.entries[j],
        0 <= id < r.entries.len(),
        0 <= i < r.entries[id].fields.len(),
        r.field_wf(id, i),
    ensures
        after.field_wf(id, i),
{
    let entry = r.entries[id];
    lemma_types_frame(r, after, entry.fields[i].kind, entry.modifier.spec_native_types());
}

/// The alignment of a record's value stays the same when records are
/// registered behind the record.
pub proof fn lemma_fields_align_frame(r: RegistryView, after: RegistryView, id: int, n: nat)
    requires
        after.abi == r.abi,
        r.entries.len() <= after.entries.len(),
        forall|j: int| 0 <= j < r.entries.len() ==> after.entries[j] == r.entries[j],
        0 <= id < r.entries.len(),
        n <= r.entries[id].fields.len(),
        forall|i: int| 0 <= i < r.entries[id].fields.len() ==> #[trigger] r.field_wf(id, i),
    ensures
        after.fields_align(id, n) == r.fields_align(id, n),
    decreases n,
{
    if n > 0 {
        let entry = r.entries[id];
        assert(r.field_wf(id, n - 1));
        lemma_fields_align_frame(r, after, id, (n - 1) as nat);
        lemma_types_frame(r, after, entry.fields[n - 1].kind, entry.modifier.spec_native_types());
    }
}

/// The alignment of the value of a record that slots become is the largest
/// alignment among the slots that hold a value.
pub proof fn lemma_fields_align_of_slots(
    r: RegistryView,
    after: RegistryView,
    slots: Seq<Slot>,
    native: bool,
    n: nat,
)
    requires
        after.abi == r.abi,
        after.entries.len() == r.entries.len() + 1,
        forall|j: int| 0 <= j < r.entries.len() ==> after.entries[j] == r.entries[j],
        n <= slots.len(),
        forall|i: int| 0 <= i < slots.len() ==> slot_ok(r, #[trigger] slots[i], native),
        after.entries[r.entries.len() as int].fields == layout(slots, native),
        after.entries[r.entries.len() as int].modifier.spec_native_types() == native,
    ensures
        after.fields_align(r.entries.len() as int, n) == value_align(slots, n),
    decreases n,
{
    if n > 0 {
        assert(slot_ok(r, slots[n - 1], native));
        lemma_fields_align_of_slots(r, after, slots, native, (n - 1) as nat);
        lemma_types_frame(r, after, slots[n - 1].kind, native);
    }
}

/// The field that a slot becomes is in its place.
pub proof fn lemma_resolved_field_wf(
    r: RegistryView,
    after: RegistryView,
    slots: Seq<Slot>,
    native: bool,
    i: int,
)
    requires
        after.abi == r.abi,
        after.entries.len() == r.entries.len() + 1,
        forall|j: int| 0 <= j < r.entries.len() ==> after.entries[j] == r.entries[j],
        0 <= i < slots.len(),
        slot_ok(r, slots[i], native),
        end_offset(slots, native, slots.len()) <= usize::MAX,
        after.entries[r.entries.len() as int].fields == layout(slots, native),
        after.entries[r.entries.len() as int].size == end_offset(slots, native, slots.len()),
        after.entries[r.entries.len() as int].modifier.spec_native_types() == native,
    ensures
        after.field_wf(r.entries.len() as int, i),
{
    let id = r.entries.len() as int;
    let field = resolved(slots, native, i);
    lemma_types_frame(r, after, slots[i].kind, native);
    lemma_end_offset_monotonic(slots, native, i as nat, (i + 1) as nat);
    lemma_end_offset_monotonic(slots, native, (i + 1) as nat, slots.len());
    if i > 0 {
        lemma_end_offset_monotonic(slots, native, (i - 1) as nat, i as nat);
    }
    let start = end_offset(slots, native, i as nat);
    let padding = slot_alignment(slots[i], native, start);
    assert(end_offset(slots, native, (i + 1) as nat) == start + padding + slots[i].payload);
    assert(field.offset == start);
    assert(field.alignment == padding);
    assert(field.size == padding + slots[i].payload);
    assert(after.entries[id].fields[i] == field);
}

/// A record compiled against a well-formed registry keeps it well formed.
pub proof fn lemma_compile_keeps_wf(r: RegistryView, name: Seq<char>, format: FormatView)
    requires
        r.wf(),
        r.entries.len() < usize::MAX,
        spec_compile(r, name, format) is Ok,
    ensures
        (RegistryView {
            abi: r.abi,
            entries: r.entries.push(spec_compile(r, name, format)->Ok_0),
        }).wf(),
{
    let entry = spec_compile(r, name, format)->Ok_0;
    let after = RegistryView { abi: r.abi, entries: r.entries.push(entry) };
    let native = mode_of(format).spec_native_types();
    let slots = expand(r, format.codes, native, format.codes.len())->Ok_0;
    let id = r.entries.len() as int;
    lemma_expand_slots_ok(r, format.codes, native, format.codes.len());
    assert forall|old_id: int| 0 <= old_id < r.entries.len() implies #[trigger] after.entry_wf(
        old_id,
    ) by {
        assert(r.entry_wf(old_id));
        let e = r.entries[old_id];
        assert forall|i: int| 0 <= i < e.fields.len() implies #[trigger] after.field_wf(
            old_id,
            i,
        ) by {
            assert(r.field_wf(old_id, i));
            lemma_field_wf_frame(r, after, old_id, i);
        }
        lemma_fields_align_frame(r, after, old_id, e.fields.len());
    }
    assert forall|i: int| 0 <= i < slots.len() implies is_width(#[trigger] slots[i].align) by {
        assert(slot_ok(r, slots[i], native));
        if let FieldKind::Ident(nested) = slots[i].kind {
            assert(r.entry_wf(nested as int));
        }
    }
    lemma_value_align_is_width(slots, slots.len());
    assert forall|i: int| 0 <= i < entry.fields.len() implies #[trigger] after.field_wf(
        id,
        i,
    ) by {
        assert(slot_ok(r, slots[i], native));
        lemma_resolved_field_wf(r, after, slots, native, i);
    }
    lemma_fields_align_of_slots(r, after, slots, native, slots.len());
    assert(after.entry_wf(id)) by {
        if slots.len() > 0 {
            let last = slots.len() - 1;
            lemma_end_offset_monotonic(slots, native, last as nat, slots.len());
        }
    }
}

fn count_for(kind: FieldKind, repeat: Option<usize>) -> (count: usize)
    ensures
        count == slot_count(kind, repeat),
{
    match kind {
        FieldKind::Pad(_) => 1,
        FieldKind::Array(_) => 1,
        _ => match repeat {
            Some(n) => if n == 0 {
                1
            } else {
                n
            },
            None => 1,
        },
    }
}

fn materialize_for(kind: FieldKind, repeat: Option<usize>) -> (m: bool)
    ensures
        m == materializes(kind, repeat),
{
    match kind {
        FieldKind::Pad(_) => false,
        FieldKind::Array(_) => true,
        _ => match repeat {
            Some(n) => n != 0,
            None => true,
        },
    }
}

impl Registry {
    /// The data model that the records are compiled for.
    pub fn abi(&self) -> (abi: Abi)
        ensures
            abi == self@.abi,
    {
        self.abi
    }

    /// How many bytes a value of this kind takes.
    pub fn type_width(&self, kind: FieldKind, native: bool) -> (width: usize)
        ensures
            width == type_width(self@, kind, native),
    {
        match kind {
            FieldKind::Array(len) => len,
            FieldKind::Pad(len) => len,
            FieldKind::Bool => 1,
            FieldKind::Char => 1,
            FieldKind::UChar => 1,
            FieldKind::Short | FieldKind::UShort => if native {
                self.abi.short_size
            } else {
                2
            },
            FieldKind::Int | FieldKind::UInt => if native {
                self.abi.int_size
            } else {
                4
            },
            FieldKind::Long | FieldKind::ULong => if native {
                self.abi.long_size
            } else {
                4
            },
            FieldKind::LongLong | FieldKind::ULongLong => if native {
                self.abi.long_long_size
            } else {
                8
            },
            FieldKind::Size | FieldKind::USize => self.abi.pointer_size,
            FieldKind::Float => 4,
            FieldKind::Double => 8,
            FieldKind::Ident(id) => if id < self.entries.len() {
                self.entries[id].size
            } else {
                0
            },
        }
    }

    /// The alignment that the platform gives a value of this kind.
    pub fn type_align(&self, kind: FieldKind, native: bool) -> (align: usize)
        ensures
            align == type_align(self@, kind, native),
    {
        match kind {
            FieldKind::Array(_) => 1,
            FieldKind::Pad(_) => 1,
            FieldKind::Bool => 1,
            FieldKind::Char => 1,
            FieldKind::UChar => 1,
            FieldKind::Float => self.abi.float_align,
            FieldKind::Double => self.abi.double_align,
            FieldKind::Ident(id) => if id < self.entries.len() {
                self.entries[id].align
            } else {
                1
            },
            _ => self.abi.int_align(self.type_width(kind, native)),
        }
    }

    /// The kind of field that a code asks for; none where it names a type
    /// that is not registered.
    pub fn kind_for(&self, code: &FormatCode) -> (kind: Option<FieldKind>)
        ensures
            kind == kind_of(self@.entries, code@),
    {
        let repeat: usize = match code.repeat {
            Some(n) => n,
            None => 1,
        };
        match &code.chr {
            FormatChar::Array => Some(FieldKind::Array(repeat)),
            FormatChar::Bool => Some(FieldKind::Bool),
            FormatChar::Char => Some(FieldKind::Char),
            FormatChar::Double => Some(FieldKind::Double),
            FormatChar::Float => Some(FieldKind::Float),
            FormatChar::Int => Some(FieldKind::Int),
            FormatChar::Long => Some(FieldKind::Long),
            FormatChar::LongLong => Some(FieldKind::LongLong),
            FormatChar::Pad => Some(FieldKind::Pad(repeat)),
            FormatChar::Short => Some(FieldKind::Short),
            FormatChar::Size => Some(FieldKind::Size),
            FormatChar::UChar => Some(FieldKind::UChar),
            FormatChar::UInt => Some(FieldKind::UInt),
            FormatChar::ULong => Some(FieldKind::ULong),
            FormatChar::ULongLong => Some(FieldKind::ULongLong),
            FormatChar::UShort => Some(FieldKind::UShort),
            FormatChar::USize => Some(FieldKind::USize),
            FormatChar::Ident(name) => match self.find(name) {
                Some(id) => Some(FieldKind::Ident(id)),
                None => None,
            },
        }
    }

    /// The slot that a code with this kind and count makes.
    pub fn slot_for(&self, kind: FieldKind, repeat: Option<usize>, native: bool) -> (slot: Slot)
        ensures
            slot == slot_of(self@, kind, repeat, native),
    {
        let materialize = materialize_for(kind, repeat);
        let is_pad = match kind {
            FieldKind::Pad(_) => true,
            _ => false,
        };
        let payload: usize = if materialize || is_pad {
            self.type_width(kind, native)
        } else {
            0
        };
        Slot { kind, materialize, payload, align: self.type_align(kind, native) }
    }

    /// The slots that the codes of a format make, in order.
    pub fn expand(&self, format: &Format) -> (res: Result<Vec<Slot>, CompileError>)
        ensures
            res matches Ok(slots) ==> expand(
                self@,
                format@.codes,
                mode_of(format@).spec_native_types(),
                format@.codes.len(),
            ) == Ok::<Seq<Slot>, CompileError>(slots@),
            res matches Err(e) ==> expand(
                self@,
                format@.codes,
                mode_of(format@).spec_native_types(),
                format@.codes.len(),
            ) == Err::<Seq<Slot>, CompileError>(e),
    {
        let modifier = match format.modifier {
            Some(m) => m,
            None => Modifier::Native,
        };
        let native = modifier.native_types();
        let ghost r = self@;
        let ghost codes = format@.codes;
        let mut slots: Vec<Slot> = Vec::new();
        let mut k: usize = 0;
        while k < format.codes.len()
            invariant
                k <= format.codes.len(),
                r == self@,
                codes == format@.codes,
                codes.len() == format.codes.len(),
                native == mode_of(format@).spec_native_types(),
                expand(r, codes, native, k as nat) == Ok::<Seq<Slot>, CompileError>(slots@),
            decreases format.codes.len() - k,
        {
            let code = &format.codes[k];
            assert(codes[k as int] == code@);
            match self.kind_for(code) {
                None => {
                    proof {
                        lemma_expand_error_sticks(r, codes, native, (k + 1) as nat, codes.len());
                    }
                    return Err(CompileError::UnknownType { code: k });
                },
                Some(kind) => {
                    let count: usize = count_for(kind, code.repeat);
                    if count > usize::MAX - slots.len() {
                        proof {
                            lemma_expand_error_sticks(
                                r,
                                codes,
                                native,
                                (k + 1) as nat,
                                codes.len(),
                            );
                        }
                        return Err(CompileError::TooLarge);
                    }
                    let slot = self.slot_for(kind, code.repeat, native);
                    let ghost base = slots@;
                    let mut j: usize = 0;
                    while j < count
                        invariant
                            j <= count,
                            base.len() + count <= usize::MAX,
                            slots@ == base + Seq::new(j as nat, |i: int| slot),
                        decreases count - j,
                    {
                        slots.push(slot);
                        j = j + 1;
                        assert(slots@ =~= base + Seq::new(j as nat, |i: int| slot));
                    }
                },
            }
            k = k + 1;
        }
        Ok(slots)
    }
}

/// The fields that the slots become, and the size of the record; none where
/// the size is more than a `usize` can hold.
pub fn resolve(slots: &Vec<Slot>, native: bool) -> (res: Option<(Vec<Field>, usize)>)
    ensures
        res matches Some((fields, size)) ==> fields@ == layout(slots@, native) && size
            == end_offset(slots@, native, slots@.len()),
        res is None ==> end_offset(slots@, native, slots@.len()) > usize::MAX,
{
    let mut fields: Vec<Field> = Vec::new();
    let mut offset: usize = 0;
    let mut i: usize = 0;
    while i < slots.len()
        invariant
            i <= slots.len(),
            fields.len() == i,
            offset == end_offset(slots@, native, i as nat),
            forall|j: int| 0 <= j < i ==> fields[j] == resolved(slots@, native, j),
        decreases slots.len() - i,
    {
        let slot = slots[i];
        let alignment: usize = if native && slot.align > 0 {
            align(offset, slot.align)
        } else {
            0
        };
        proof {
            reveal(alignment_correction);
            lemma_end_offset_monotonic(slots@, native, (i + 1) as nat, slots@.len());
        }
        if alignment > usize::MAX - offset {
            return None;
        }
        if slot.payload > usize::MAX - offset - alignment {
            return None;
        }
        fields.push(
            Field {
                kind: slot.kind,
                materialize: slot.materialize,
                offset,
                alignment,
                size: alignment + slot.payload,
            },
        );
        offset = offset + alignment + slot.payload;
        i = i + 1;
    }
    assert(fields@ =~= layout(slots@, native));
    Some((fields, offset))
}

/// The alignment of the record's value: the largest among the slots that
/// hold a value.
pub fn value_alignment(slots: &Vec<Slot>) -> (align: usize)
    ensures
        align == value_align(slots@, slots@.len()),
{
    let mut align: usize = 1;
    let mut i: usize = 0;
    while i < slots.len()
        invariant
            i <= slots.len(),
            align == value_align(slots@, i as nat),
        decreases slots.len() - i,
    {
        if slots[i].materialize && slots[i].align > align {
            align = slots[i].align;
        }
        i = i + 1;
    }
    align
}

impl Compilation {
    /// Compiles a parsed format under a name: expands its codes into fields
    /// and gives each its place. `registry` holds the records that the
    /// format may name.
    pub fn new(name: &str, format: &Format, registry: &Registry) -> (res: Result<
        Compilation,
        CompileError,
    >)
        ensures
            res matches Ok(c) ==> spec_compile(registry@, name@, format@) == Ok::<
                CompilationView,
                CompileError,
            >(c@),
            res matches Err(e) ==> spec_compile(registry@, name@, format@) == Err::<
                CompilationView,
                CompileError,
            >(e),
    {
        let modifier = match format.modifier {
            Some(m) => m,
            None => Modifier::Native,
        };
        let native = modifier.native_types();
        match registry.expand(format) {
            Err(e) => Err(e),
            Ok(slots) => match resolve(&slots, native) {
                None => Err(CompileError::TooLarge),
                Some((fields, size)) => {
                    let align = value_alignment(&slots);
                    Ok(Compilation { name: name.to_owned(), modifier, fields, size, align })
                },
            },
        }
    }

    /// The name under which the record was compiled.
    pub fn name(&self) -> (name: &String)
        ensures
            name@ == self@.name,
    {
        &self.name
    }

    /// The mode of the record's format.
    pub fn modifier(&self) -> (modifier: Modifier)
        ensures
            modifier == self@.modifier,
    {
        self.modifier
    }

    /// The fields of the record, in order.
    pub fn fields(&self) -> (fields: &Vec<Field>)
        ensures
            fields@ == self@.fields,
    {
        &self.fields
    }

    /// The size of the packed record in bytes.
    pub fn size(&self) -> (size: usize)
        ensures
            size == self@.size,
    {
        self.size
    }

    /// The alignment of the record's value, where it is nested in a record
    /// of native mode.
    pub fn alignment(&self) -> (align: usize)
        ensures
            align == self@.align,
    {
        self.align
    }
}

/// What compiling a format string under a name gives.
pub open spec fn spec_compile_str(r: RegistryView, name: Seq<char>, fmt: Seq<char>) -> Result<
    CompilationView,
    CompileError,
> {
    match spec_parse(fmt) {
        Err(e) => Err(CompileError::Parse(e)),
        Ok(format) => spec_compile(r, name, format),
    }
}

impl Registry {
    /// The record with index `id`.
    pub fn get(&self, id: usize) -> (c: &Compilation)
        requires
            id < self@.entries.len(),
        ensures
            c@ == self@.entries[id as int],
    {
        &self.entries[id]
    }

    /// Compiles a parsed format under a name and registers the record. The
    /// result is the record's index, which is the number of records that
    /// were registered before it.
    pub fn add(&mut self, name: &str, format: &Format) -> (res: Result<usize, CompileError>)
        requires
            old(self).wf(),
        ensures
            final(self).wf(),
            final(self)@.abi == old(self)@.abi,
            match spec_compile(old(self)@, name@, format@) {
                Ok(c) => res == Ok::<usize, CompileError>(old(self)@.entries.len() as usize)
                    && final(self)@.entries == old(self)@.entries.push(c),
                Err(e) => res == Err::<usize, CompileError>(e) && final(self)@ == old(self)@,
            },
    {
        match Compilation::new(name, format, self) {
            Err(e) => Err(e),
            Ok(c) => {
                let id: usize = self.entries.len();
                self.entries.push(c);
                proof {
                    assert(self@.entries =~= old(self)@.entries.push(c@));
                    lemma_compile_keeps_wf(old(self)@, name@, format@);
                }
                Ok(id)
            },
        }
    }

    /// Compiles a format string under a name and registers the record.
    pub fn compile(&mut self, name: &str, fmt: &str) -> (res: Result<usize, CompileError>)
        requires
            old(self).wf(),
        ensures
            final(self).wf(),
            final(self)@.abi == old(self)@.abi,
            match spec_compile_str(old(self)@, name@, fmt@) {
                Ok(c) => res == Ok::<usize, CompileError>(old(self)@.entries.len() as usize)
                    && final(self)@.entries == old(self)@.entries.push(c),
                Err(e) => res == Err::<usize, CompileError>(e) && final(self)@ == old(self)@,
            },
    {
        match parse(fmt) {
            Err(e) => Err(CompileError::Parse(e)),
            Ok(format) => self.add(name, &format),
        }
    }
}


/// Padding does not change when the offset moves by a multiple of the
/// alignment.
pub proof fn lemma_alignment_shift(shift: nat, offset: nat, align: nat)
    requires
        align > 0,
        shift % align == 0,
    ensures
        alignment_correction(shift + offset, align) == alignment_correction(offset, align),
{
    reveal(alignment_correction);
    vstd::arithmetic::div_mod::lemma_add_mod_noop(shift as int, offset as int, align as int);
    vstd::arithmetic::div_mod::lemma_mod_twice(offset as int, align as int);
}

/// Slots laid out behind others end where they would end alone, moved by
/// the size of the others, where the others' size is a multiple of every
/// alignment that is applied to them.
pub proof fn lemma_end_offset_concat(a: Seq<Slot>, b: Seq<Slot>, native: bool, k: nat)
    requires
        k <= b.len(),
        native ==> forall|i: int|
            0 <= i < b.len() ==> (#[trigger] b[i]).align > 0 && end_offset(a, native, a.len())
                % (b[i].align as nat) == 0,
    ensures
        end_offset(a + b, native, a.len() + k) == end_offset(a, native, a.len()) + end_offset(
            b,
            native,
            k,
        ),
    decreases k,
{
    let both = a + b;
    if k == 0 {
        lemma_end_offset_prefix(both, a, native, a.len());
    } else {
        lemma_end_offset_concat(a, b, native, (k - 1) as nat);
        assert(both[a.len() + k - 1] == b[k - 1]);
        if native {
            lemma_alignment_shift(
                end_offset(a, native, a.len()),
                end_offset(b, native, (k - 1) as nat),
                b[k - 1].align as nat,
            );
        }
    }
}

/// The slots of two runs of codes, one behind the other, are the slots of
/// the first run and then those of the second.
pub proof fn lemma_expand_concat(
    r: RegistryView,
    a: Seq<FormatCodeView>,
    b: Seq<FormatCodeView>,
    native: bool,
    k: nat,
)
    requires
        k <= b.len(),
        expand(r, a, native, a.len()) is Ok,
        expand(r, b, native, k) is Ok,
        expand(r, a + b, native, a.len() + k) is Ok,
    ensures
        expand(r, a + b, native, a.len() + k)->Ok_0 == expand(r, a, native, a.len())->Ok_0 + expand(
            r,
            b,
            native,
            k,
        )->Ok_0,
    decreases k,
{
    let both = a + b;
    if k == 0 {
        lemma_expand_prefix(r, both, a, native, a.len());
        assert(expand(r, a, native, a.len())->Ok_0 + Seq::<Slot>::empty() =~= expand(
            r,
            a,
            native,
            a.len(),
        )->Ok_0);
    } else {
        assert(both[a.len() + k - 1] == b[k - 1]);
        lemma_expand_concat(r, a, b, native, (k - 1) as nat);
        let sa = expand(r, a, native, a.len())->Ok_0;
        let sb = expand(r, b, native, (k - 1) as nat)->Ok_0;
        let code = b[k - 1];
        let kind = kind_of(r.entries, code)->Some_0;
        let run = Seq::new(
            slot_count(kind, code.repeat),
            |i: int| slot_of(r, kind, code.repeat, native),
        );
        assert((sa + sb) + run =~= sa + (sb + run));
    }
}

/// The slots of a prefix of the codes do not depend on what follows it.
pub proof fn lemma_expand_prefix(
    r: RegistryView,
    c1: Seq<FormatCodeView>,
    c2: Seq<FormatCodeView>,
    native: bool,
    n: nat,
)
    requires
        n <= c1.len(),
        n <= c2.len(),
        forall|i: int| 0 <= i < n ==> c1[i] == c2[i],
    ensures
        expand(r, c1, native, n) == expand(r, c2, native, n),
    decreases n,
{
    if n > 0 {
        lemma_expand_prefix(r, c1, c2, native, (n - 1) as nat);
    }
}

/// The size of a record whose codes are those of one format and then those
/// of another, in the same mode, is the sum of the two sizes, where no
/// alignment stands between them: in a mode without alignment always, and
/// in native mode where the first size is a multiple of the alignment of
/// every field of the second.
pub proof fn lemma_size_composition(
    r: RegistryView,
    front: FormatView,
    back: FormatView,
    both: FormatView,
    front_name: Seq<char>,
    back_name: Seq<char>,
    both_name: Seq<char>,
)
    requires
        r.wf(),
        mode_of(front) == mode_of(back),
        mode_of(both) == mode_of(front),
        both.codes == front.codes + back.codes,
        spec_compile(r, front_name, front) is Ok,
        spec_compile(r, back_name, back) is Ok,
        spec_compile(r, both_name, both) is Ok,
        mode_of(front).spec_native_types() ==> forall|i: int|
            0 <= i < spec_compile(r, back_name, back)->Ok_0.fields.len() ==> spec_compile(r, front_name, front)->Ok_0.size as nat % (type_align(
                r,
                (#[trigger] spec_compile(r, back_name, back)->Ok_0.fields[i]).kind,
                true,
            ) as nat) == 0,
    ensures
        spec_compile(r, both_name, both)->Ok_0.size == spec_compile(r, front_name, front)->Ok_0.size + spec_compile(r, back_name, back)->Ok_0.size,
{
    let native = mode_of(front).spec_native_types();
    let a = front.codes;
    let b = back.codes;
    let sa = expand(r, a, native, a.len())->Ok_0;
    let sb = expand(r, b, native, b.len())->Ok_0;
    assert((a + b).len() == a.len() + b.len());
    lemma_expand_concat(r, a, b, native, b.len());
    lemma_expand_slots_ok(r, b, native, b.len());
    if native {
        assert forall|i: int| 0 <= i < sb.len() implies (#[trigger] sb[i]).align > 0 && end_offset(
            sa,
            native,
            sa.len(),
        ) % (sb[i].align as nat) == 0 by {
            assert(slot_ok(r, sb[i], native));
            let field = spec_compile(r, back_name, back)->Ok_0.fields[i];
            assert(field.kind == sb[i].kind);
            if let FieldKind::Ident(nested) = sb[i].kind {
                assert(r.entry_wf(nested as int));
            }
        }
    }
    lemma_end_offset_concat(sa, sb, native, sb.len());
}


/// The sum of the sizes of the first `n` fields.
pub open spec fn sizes_sum(fields: Seq<Field>, n: nat) -> nat
    decreases n,
{
    if n == 0 {
        0
    } else {
        sizes_sum(fields, (n - 1) as nat) + fields[n - 1].size as nat
    }
}

/// The first `n` fields of a record end at the sum of their sizes.
pub proof fn lemma_offset_is_sum(r: RegistryView, id: int, n: nat)
    requires
        r.wf(),
        0 <= id < r.entries.len(),
        n <= r.entries[id].fields.len(),
    ensures
        sizes_sum(r.entries[id].fields, n) == if n == 0 {
            0
        } else {
            r.entries[id].fields[n - 1].offset + r.entries[id].fields[n - 1].size
        },
    decreases n,
{
    if n > 0 {
        assert(r.entry_wf(id));
        assert(r.field_wf(id, n - 1));
        lemma_offset_is_sum(r, id, (n - 1) as nat);
    }
}

/// The size of a record is the sum of the sizes of its fields, each made
/// of its padding and its payload: there is no other gap.
pub proof fn lemma_size_is_sum(r: RegistryView, id: int)
    requires
        r.wf(),
        0 <= id < r.entries.len(),
    ensures
        r.entries[id].size == sizes_sum(r.entries[id].fields, r.entries[id].fields.len()),
{
    assert(r.entry_wf(id));
    lemma_offset_is_sum(r, id, r.entries[id].fields.len());
}

} // verus!
