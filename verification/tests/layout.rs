use restruct::abi::Abi;
use restruct::layout::{
    align, resolve, value_alignment, CompileError, Field, FieldKind, Registry, Slot,
};
use restruct::parser::{parse, FormatChar, FormatCode, Modifier, ParseError};
use restruct::Struct;

fn host() -> Registry {
    Registry::new(Abi::host().unwrap()).unwrap()
}

fn size_on(abi: Abi, fmt: &str) -> usize {
    let mut registry = Registry::new(abi).unwrap();
    let id = registry.compile("Foo", fmt).unwrap();
    registry.get(id).size()
}

fn size(fmt: &str) -> usize {
    size_on(Abi::host().unwrap(), fmt)
}

fn i386() -> Abi {
    Abi {
        big_endian: false,
        short_size: 2,
        int_size: 4,
        long_size: 4,
        long_long_size: 8,
        pointer_size: 4,
        align2: 2,
        align4: 4,
        align8: 4,
        float_align: 4,
        double_align: 4,
    }
}

#[test]
fn simple_sizes() {
    assert_eq!(size("i") * 3, size("3i"));
}

#[test]
fn default_type_names() {
    type _X = <restruct::layout::Compilation as Struct>::Packed;
    type _Y = <restruct::layout::Compilation as Struct>::Unpacked;
    let mut registry = host();
    let id = registry.compile("Foo", "").unwrap();
    assert_eq!(registry.get(id).name(), "Foo");
}

#[test]
fn std_aligned_on_zeroed_type() {
    let foo = size("@b0q");
    let bar = size("=b0q");
    assert_eq!(bar, 1);
    if foo <= bar {
        unreachable!();
    }
}

#[test]
fn zeroed_type_in_front() {
    assert_eq!(size("0ib"), size("b"));
}

#[test]
fn zero_repeat_aligns_the_tail_in_native_mode_only() {
    assert_eq!(size_on(Abi::lp64(), "b0q"), 8);
    assert_eq!(size_on(Abi::lp64(), "@b0q"), 8);
    assert_eq!(size_on(Abi::lp64(), "=b0q"), 1);
    assert_eq!(size_on(Abi::lp64(), "<b0q"), 1);
    assert_eq!(size_on(Abi::lp64(), ">b0q"), 1);
    assert_eq!(size_on(Abi::lp64(), "!b0q"), 1);
    assert_eq!(size_on(i386(), "b0q"), 4);
}

#[test]
fn empty_format_has_no_fields_and_no_size() {
    let mut registry = host();
    let id = registry.compile("Empty", "").unwrap();
    assert_eq!(registry.get(id).size(), 0);
    assert!(registry.get(id).fields().is_empty());
    assert_eq!(registry.get(id).modifier(), Modifier::Native);
}

#[test]
fn standard_sizes_are_fixed() {
    for modifier in ["=", "<", ">", "!"] {
        let cases = [
            ("b", 1),
            ("B", 1),
            ("?", 1),
            ("h", 2),
            ("H", 2),
            ("i", 4),
            ("I", 4),
            ("l", 4),
            ("L", 4),
            ("q", 8),
            ("Q", 8),
            ("f", 4),
            ("d", 8),
            ("x", 1),
            ("s", 1),
            ("5s", 5),
            ("5x", 5),
            ("0s", 0),
            ("0x", 0),
        ];
        for (code, expected) in cases {
            assert_eq!(size_on(Abi::lp64(), &format!("{}{}", modifier, code)), expected);
            assert_eq!(size_on(i386(), &format!("{}{}", modifier, code)), expected);
        }
        assert_eq!(size_on(Abi::lp64(), &format!("{}n", modifier)), 8);
        assert_eq!(size_on(Abi::lp64(), &format!("{}N", modifier)), 8);
        assert_eq!(size_on(i386(), &format!("{}n", modifier)), 4);
    }
}

#[test]
fn native_sizes_follow_the_data_model() {
    assert_eq!(size_on(Abi::lp64(), "l"), 8);
    assert_eq!(size_on(Abi::lp64(), "@L"), 8);
    assert_eq!(size_on(i386(), "l"), 4);
    assert_eq!(size_on(Abi::lp64(), "h"), 2);
    assert_eq!(size_on(Abi::lp64(), "i"), 4);
    assert_eq!(size_on(Abi::lp64(), "q"), 8);
    for (signed, unsigned) in [("b", "B"), ("h", "H"), ("i", "I"), ("l", "L"), ("q", "Q")] {
        assert_eq!(size(signed), size(unsigned));
        assert_eq!(size(&format!("@{}", signed)), size(&format!("@{}", unsigned)));
    }
    for modifier in ["", "=", "<", ">", "@", "!"] {
        assert!(size(&format!("{}h", modifier)) <= size(&format!("{}i", modifier)));
        assert!(size(&format!("{}i", modifier)) <= size(&format!("{}l", modifier)));
        assert!(size(&format!("{}l", modifier)) <= size(&format!("{}q", modifier)));
        assert_eq!(size(&format!("{}b", modifier)), 1);
        assert!(size(&format!("{}l", modifier)) >= 4);
        assert!(size(&format!("{}q", modifier)) >= 8);
    }
}

#[test]
fn fields_get_offset_alignment_and_size() {
    let mut registry = Registry::new(Abi::lp64()).unwrap();
    let id = registry.compile("Foo", "@bL0h3xb").unwrap();
    let fields: Vec<Field> = registry.get(id).fields().clone();
    assert_eq!(
        fields,
        vec![
            Field { kind: FieldKind::Char, materialize: true, offset: 0, alignment: 0, size: 1 },
            Field { kind: FieldKind::ULong, materialize: true, offset: 1, alignment: 7, size: 15 },
            Field { kind: FieldKind::Short, materialize: false, offset: 16, alignment: 0, size: 0 },
            Field { kind: FieldKind::Pad(3), materialize: false, offset: 16, alignment: 0, size: 3 },
            Field { kind: FieldKind::Char, materialize: true, offset: 19, alignment: 0, size: 1 },
        ]
    );
    assert_eq!(registry.get(id).size(), 20);

    let id = registry.compile("Bar", "<bL0h3xb").unwrap();
    let fields: Vec<Field> = registry.get(id).fields().clone();
    assert_eq!(
        fields,
        vec![
            Field { kind: FieldKind::Char, materialize: true, offset: 0, alignment: 0, size: 1 },
            Field { kind: FieldKind::ULong, materialize: true, offset: 1, alignment: 0, size: 4 },
            Field { kind: FieldKind::Short, materialize: false, offset: 5, alignment: 0, size: 0 },
            Field { kind: FieldKind::Pad(3), materialize: false, offset: 5, alignment: 0, size: 3 },
            Field { kind: FieldKind::Char, materialize: true, offset: 8, alignment: 0, size: 1 },
        ]
    );
    assert_eq!(registry.get(id).size(), 9);
}

#[test]
fn repeat_counts_expand_into_fields() {
    let mut registry = host();
    let id = registry.compile("Foo", "<3i0h2?4s7x").unwrap();
    let kinds: Vec<(FieldKind, bool)> =
        registry.get(id).fields().iter().map(|f| (f.kind, f.materialize)).collect();
    assert_eq!(
        kinds,
        vec![
            (FieldKind::Int, true),
            (FieldKind::Int, true),
            (FieldKind::Int, true),
            (FieldKind::Short, false),
            (FieldKind::Bool, true),
            (FieldKind::Bool, true),
            (FieldKind::Array(4), true),
            (FieldKind::Pad(7), false),
        ]
    );
    assert_eq!(registry.get(id).size(), 12 + 0 + 2 + 4 + 7);
}

#[test]
fn a_byte_array_of_no_length_holds_a_value() {
    let mut registry = host();
    let id = registry.compile("Foo", "<0s").unwrap();
    assert_eq!(
        registry.get(id).fields().clone(),
        vec![Field { kind: FieldKind::Array(0), materialize: true, offset: 0, alignment: 0, size: 0 }]
    );
    assert_eq!(registry.get(id).size(), 0);
}

#[test]
fn size_of_a_concatenation_is_the_sum() {
    for modifier in ["=", "<", ">", "!"] {
        let a = size(&format!("{}b3h", modifier));
        let b = size(&format!("{}q?5s", modifier));
        let both = size(&format!("{}b3hq?5s", modifier));
        assert_eq!(both, a + b);
    }
    assert_eq!(size_on(Abi::lp64(), "@qi"), 12);
    assert_eq!(size_on(Abi::lp64(), "@hb"), 3);
    assert_eq!(size_on(Abi::lp64(), "@qihb"), 12 + 3);
    assert_eq!(size_on(Abi::lp64(), "@bq"), 16);
}

#[test]
fn a_nested_record_takes_its_size() {
    let mut registry = host();
    let foo = registry.compile("Foo", "=i3s").unwrap();
    let bar = registry.compile("Bar", "=2`Foo`").unwrap();
    assert_eq!(registry.get(foo).size(), 7);
    assert_eq!(registry.get(bar).size(), 14);
    assert_eq!(
        registry.get(bar).fields().clone(),
        vec![
            Field { kind: FieldKind::Ident(foo), materialize: true, offset: 0, alignment: 0, size: 7 },
            Field { kind: FieldKind::Ident(foo), materialize: true, offset: 7, alignment: 0, size: 7 },
        ]
    );
}

#[test]
fn a_nested_record_is_aligned_as_its_values_are() {
    let mut registry = Registry::new(Abi::lp64()).unwrap();
    let foo = registry.compile("Foo", "@bq").unwrap();
    let bar = registry.compile("Bar", "@b`Foo`").unwrap();
    assert_eq!(registry.get(foo).size(), 16);
    assert_eq!(registry.get(bar).size(), 8 + 16);
    let bytes = registry.compile("Bytes", "@3s").unwrap();
    let baz = registry.compile("Baz", "@b`Bytes`").unwrap();
    assert_eq!(registry.get(bytes).size(), 3);
    assert_eq!(registry.get(baz).size(), 4);
}

#[test]
fn the_latest_record_of_a_name_is_the_one_found() {
    let mut registry = host();
    let first = registry.compile("Foo", "<b").unwrap();
    let second = registry.compile("Foo", "<q").unwrap();
    assert_eq!((first, second), (0, 1));
    assert_eq!(registry.find(&"Foo".to_owned()), Some(1));
    assert_eq!(registry.find(&"Bar".to_owned()), None);
    let outer = registry.compile("Outer", "<`Foo`").unwrap();
    assert_eq!(registry.get(outer).size(), 8);
    assert_eq!(registry.len(), 3);
}

#[test]
fn compile_errors() {
    let mut registry = host();
    assert_eq!(
        registry.compile("Foo", "<i`Bar`"),
        Err(CompileError::UnknownType { code: 1 })
    );
    assert_eq!(
        registry.compile("Foo", "<i`Foo`"),
        Err(CompileError::UnknownType { code: 1 })
    );
    assert_eq!(
        registry.compile("Foo", "<iv"),
        Err(CompileError::Parse(ParseError::UnknownCharacter { position: 2 }))
    );
    let huge = format!("<{}s{}s", usize::MAX, 1);
    assert_eq!(registry.compile("Foo", &huge), Err(CompileError::TooLarge));
    let huge = format!("<{}x", usize::MAX);
    let id = registry.compile("Foo", &huge).unwrap();
    assert_eq!(registry.get(id).size(), usize::MAX);
    assert_eq!(registry.len(), 1);
}

#[test]
fn a_parsed_format_can_be_added() {
    let mut registry = host();
    let format = parse(">hhl").unwrap();
    let id = registry.add("Foo", &format).unwrap();
    assert_eq!(registry.get(id).size(), 8);
    assert_eq!(registry.get(id).modifier(), Modifier::BigEndian);
}

#[test]
fn an_invalid_data_model_gives_no_registry() {
    let mut abi = Abi::lp64();
    assert!(abi.is_valid());
    abi.long_size = 3;
    assert!(!abi.is_valid());
    assert!(Registry::new(abi).is_none());
    let mut abi = Abi::lp64();
    abi.align8 = 0;
    assert!(Registry::new(abi).is_none());
    assert_eq!(Abi::lp64().int_align(1), 1);
    assert_eq!(Abi::lp64().int_align(2), 2);
    assert_eq!(Abi::lp64().int_align(4), 4);
    assert_eq!(Abi::lp64().int_align(8), 8);
    assert_eq!(i386().int_align(8), 4);
}

#[test]
fn the_host_data_model_is_valid() {
    let abi = Abi::host().unwrap();
    assert!(abi.is_valid());
    assert_eq!(abi.big_endian, u16::from_ne_bytes([0, 1]) == 1);
    assert_eq!(abi.pointer_size, std::mem::size_of::<usize>());
    assert_eq!(abi.short_size, std::mem::size_of::<libc::c_short>());
    assert_eq!(abi.int_size, std::mem::size_of::<libc::c_int>());
    assert_eq!(abi.long_size, std::mem::size_of::<libc::c_long>());
    assert_eq!(abi.long_long_size, std::mem::size_of::<libc::c_longlong>());
    assert_eq!(abi.align2, std::mem::align_of::<u16>());
    assert_eq!(abi.align4, std::mem::align_of::<u32>());
    assert_eq!(abi.align8, std::mem::align_of::<u64>());
    assert_eq!(abi.float_align, abi.align4);
    assert_eq!(abi.double_align, abi.align8);
}

#[test]
fn padding_brings_an_offset_up_to_its_boundary() {
    assert_eq!(align(0, 8), 0);
    assert_eq!(align(1, 8), 7);
    assert_eq!(align(7, 8), 1);
    assert_eq!(align(8, 8), 0);
    assert_eq!(align(9, 4), 3);
    assert_eq!(align(5, 1), 0);
    assert_eq!(align(usize::MAX, 2), 1);
}

#[test]
fn codes_become_kinds_and_slots() {
    let mut registry = Registry::new(Abi::lp64()).unwrap();
    let foo = registry.compile("Foo", "<hq").unwrap();
    let code = |repeat, chr| FormatCode { repeat, chr };
    assert_eq!(registry.kind_for(&code(None, FormatChar::Array)), Some(FieldKind::Array(1)));
    assert_eq!(registry.kind_for(&code(Some(0), FormatChar::Array)), Some(FieldKind::Array(0)));
    assert_eq!(registry.kind_for(&code(Some(9), FormatChar::Pad)), Some(FieldKind::Pad(9)));
    assert_eq!(registry.kind_for(&code(Some(9), FormatChar::Int)), Some(FieldKind::Int));
    assert_eq!(
        registry.kind_for(&code(Some(2), FormatChar::Ident("Foo".to_owned()))),
        Some(FieldKind::Ident(foo))
    );
    assert_eq!(registry.kind_for(&code(None, FormatChar::Ident("Bar".to_owned()))), None);

    assert_eq!(registry.type_width(FieldKind::Long, true), 8);
    assert_eq!(registry.type_width(FieldKind::Long, false), 4);
    assert_eq!(registry.type_width(FieldKind::Ident(foo), true), 10);
    assert_eq!(registry.type_width(FieldKind::Ident(foo + 1), true), 0);
    assert_eq!(registry.type_align(FieldKind::Long, true), 8);
    assert_eq!(registry.type_align(FieldKind::Long, false), 4);
    assert_eq!(registry.type_align(FieldKind::Double, true), 8);
    assert_eq!(registry.type_align(FieldKind::Float, true), 4);
    assert_eq!(registry.type_align(FieldKind::Array(16), true), 1);
    assert_eq!(registry.type_align(FieldKind::Ident(foo), true), 8);
    assert_eq!(registry.type_align(FieldKind::Ident(foo + 1), true), 1);
    assert_eq!(registry.get(foo).alignment(), 8);
    assert_eq!(registry.abi(), Abi::lp64());

    assert_eq!(
        registry.slot_for(FieldKind::Int, Some(0), true),
        Slot { kind: FieldKind::Int, materialize: false, payload: 0, align: 4 }
    );
    assert_eq!(
        registry.slot_for(FieldKind::Int, None, true),
        Slot { kind: FieldKind::Int, materialize: true, payload: 4, align: 4 }
    );
    assert_eq!(
        registry.slot_for(FieldKind::Pad(5), Some(5), true),
        Slot { kind: FieldKind::Pad(5), materialize: false, payload: 5, align: 1 }
    );
    assert_eq!(
        registry.slot_for(FieldKind::Array(0), Some(0), false),
        Slot { kind: FieldKind::Array(0), materialize: true, payload: 0, align: 1 }
    );
}

#[test]
fn slots_are_laid_out_one_behind_the_other() {
    let registry = Registry::new(Abi::lp64()).unwrap();
    let slots = registry.expand(&parse("b0qh").unwrap()).unwrap();
    assert_eq!(
        slots,
        vec![
            Slot { kind: FieldKind::Char, materialize: true, payload: 1, align: 1 },
            Slot { kind: FieldKind::LongLong, materialize: false, payload: 0, align: 8 },
            Slot { kind: FieldKind::Short, materialize: true, payload: 2, align: 2 },
        ]
    );
    assert_eq!(value_alignment(&slots), 2);
    assert_eq!(value_alignment(&vec![]), 1);
    let (fields, size) = resolve(&slots, true).unwrap();
    assert_eq!(size, 10);
    assert_eq!(
        fields.iter().map(|f| (f.offset, f.alignment, f.size)).collect::<Vec<_>>(),
        vec![(0, 0, 1), (1, 7, 7), (8, 0, 2)]
    );
    let (fields, size) = resolve(&slots, false).unwrap();
    assert_eq!(size, 3);
    assert_eq!(
        fields.iter().map(|f| (f.offset, f.alignment, f.size)).collect::<Vec<_>>(),
        vec![(0, 0, 1), (1, 0, 0), (1, 0, 2)]
    );
    assert_eq!(resolve(&vec![], true), Some((vec![], 0)));
    let big = Slot { kind: FieldKind::Pad(usize::MAX), materialize: false, payload: usize::MAX, align: 1 };
    let one = Slot { kind: FieldKind::Bool, materialize: true, payload: 1, align: 1 };
    assert_eq!(resolve(&vec![big, one], false), None);
    assert_eq!(
        registry.expand(&parse("i`Nope`").unwrap()),
        Err(CompileError::UnknownType { code: 1 })
    );
}

#[test]
fn a_c_struct_is_laid_out_as_the_compiler_does() {
    let mut registry = Registry::new(Abi::lp64()).unwrap();
    let id = registry.compile("Turtle", "@bhlbibqBHLbIbQ3s").unwrap();
    let places: Vec<(usize, usize)> = registry
        .get(id)
        .fields()
        .iter()
        .map(|f| (f.offset + f.alignment, f.size - f.alignment))
        .collect();
    assert_eq!(
        places,
        vec![
            (0, 1),
            (2, 2),
            (8, 8),
            (16, 1),
            (20, 4),
            (24, 1),
            (32, 8),
            (40, 1),
            (42, 2),
            (48, 8),
            (56, 1),
            (60, 4),
            (64, 1),
            (72, 8),
            (80, 3),
        ]
    );
    assert_eq!(registry.get(id).size(), 83);

    let lower = registry.compile("LowerTurtle", "bQh").unwrap();
    let lowest = registry.compile("LowestTurtle", "i2`LowerTurtle`").unwrap();
    assert_eq!(registry.get(lower).size(), 18);
    assert_eq!(registry.get(lower).alignment(), 8);
    let places: Vec<(usize, usize)> = registry
        .get(lowest)
        .fields()
        .iter()
        .map(|f| (f.offset + f.alignment, f.size - f.alignment))
        .collect();
    assert_eq!(places, vec![(0, 4), (8, 18), (32, 18)]);
    assert_eq!(registry.get(lowest).size(), 50);
}
