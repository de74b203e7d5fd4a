//! Laws of the sizes of records, stated over format strings.

use crate::grammar::{
    is_mode_prefix, is_name, lemma_parse_concat, lemma_parse_twice, mode_of_prefix,
    starts_without_mode, twice,
};
use crate::layout::{
    alignment_correction, end_offset, expand, find_type, kind_of, lemma_find_type_bound,
    lemma_size_composition, mode_of, slot_count, slot_of, spec_compile_str,
    type_align, CompileError, FieldKind, RegistryView, Slot,
};
use crate::parser::{spec_parse, FormatCharView, FormatCodeView, FormatView};
use vstd::prelude::*;

verus! {

/// The size of a record whose format string holds the codes of one string
/// and then the codes of another, behind the mode character that the two
/// share, is the sum of the sizes of the two: always in a mode without
/// alignment, and in native mode where the first size is a multiple of the
/// alignment of every field of the second.
pub proof fn lemma_size_of_concatenation(
    r: RegistryView,
    p: Seq<char>,
    a: Seq<char>,
    b: Seq<char>,
    front_name: Seq<char>,
    back_name: Seq<char>,
    both_name: Seq<char>,
)
    requires
        r.wf(),
        is_mode_prefix(p),
        p.len() == 0 ==> starts_without_mode(a) && starts_without_mode(b),
        spec_compile_str(r, front_name, p + a) is Ok,
        spec_compile_str(r, back_name, p + b) is Ok,
        spec_compile_str(r, both_name, p + a + b) is Ok,
        spec_compile_str(r, front_name, p + a)->Ok_0.modifier.spec_native_types() ==> forall|
            i: int,
        |
            0 <= i < spec_compile_str(r, back_name, p + b)->Ok_0.fields.len()
                ==> spec_compile_str(r, front_name, p + a)->Ok_0.size as nat % (type_align(
                r,
                (#[trigger] spec_compile_str(r, back_name, p + b)->Ok_0.fields[i]).kind,
                true,
            ) as nat) == 0,
    ensures
        spec_compile_str(r, both_name, p + a + b)->Ok_0.size == spec_compile_str(
            r,
            front_name,
            p + a,
        )->Ok_0.size + spec_compile_str(r, back_name, p + b)->Ok_0.size,
{
    lemma_parse_concat(p, a, b);
    let front = spec_parse(p + a)->Ok_0;
    let back = spec_parse(p + b)->Ok_0;
    let both = spec_parse(p + a + b)->Ok_0;
    lemma_size_composition(r, front, back, both, front_name, back_name, both_name);
}

/// A record of two records of one type is twice as large as one of them:
/// always in a mode without alignment, and in native mode where the size
/// of the type is a multiple of its alignment.
pub proof fn lemma_nested_multiplication(
    r: RegistryView,
    p: Seq<char>,
    name: Seq<char>,
    outer_name: Seq<char>,
)
    requires
        r.wf(),
        is_mode_prefix(p),
        is_name(name),
        find_type(r.entries, name) is Some,
        2 * r.entries[find_type(r.entries, name)->Some_0].size <= usize::MAX,
        (mode_of_prefix(p) is None || mode_of_prefix(p)->Some_0.spec_native_types())
            ==> r.entries[find_type(r.entries, name)->Some_0].size as nat % (
        r.entries[find_type(r.entries, name)->Some_0].align as nat) == 0,
    ensures
        spec_compile_str(r, outer_name, p + twice(name)) is Ok,
        spec_compile_str(r, outer_name, p + twice(name))->Ok_0.size == 2
            * r.entries[find_type(r.entries, name)->Some_0].size,
{
    let id = find_type(r.entries, name)->Some_0;
    lemma_find_type_bound(r.entries, name);
    lemma_parse_twice(p, name);
    let code = FormatCodeView { repeat: Some(2usize), chr: FormatCharView::Ident(name) };
    let format = FormatView { modifier: mode_of_prefix(p), codes: seq![code] };
    let native = mode_of(format).spec_native_types();
    let kind = FieldKind::Ident(id as usize);
    let slot = slot_of(r, kind, Some(2usize), native);
    let slots = Seq::<Slot>::empty() + Seq::new(2, |i: int| slot);
    assert(r.entry_wf(id));
    assert(expand(r, format.codes, native, 0) == Ok::<Seq<Slot>, CompileError>(Seq::empty()));
    assert(kind_of(r.entries, code) == Some(kind));
    assert(slot_count(kind, code.repeat) == 2);
    assert(expand(r, format.codes, native, 1) == Ok::<Seq<Slot>, CompileError>(slots));
    assert(slots.len() == 2);
    assert(slots[0] == slot && slots[1] == slot);
    assert(slot.payload == r.entries[id].size);
    assert(slot.align == r.entries[id].align);
    assert(end_offset(slots, native, 0) == 0);
    assert(alignment_correction(0, slot.align as nat) == 0) by {
        reveal(alignment_correction);
    }
    assert(native ==> alignment_correction(slot.payload as nat, slot.align as nat) == 0) by {
        reveal(alignment_correction);
    }
    assert(end_offset(slots, native, 1) == slot.payload);
    assert(end_offset(slots, native, 2) == 2 * slot.payload);
}

} // verus!
