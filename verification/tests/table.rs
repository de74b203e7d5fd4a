use restruct::abi::Abi;
use restruct::layout::{FieldKind, Registry};
use restruct::table::FieldEntry;

fn entry(tipe: &str, offset: usize, alignment: usize, size: usize) -> FieldEntry {
    FieldEntry { tipe: tipe.to_owned(), offset, alignment, size }
}

#[test]
fn the_table_has_a_line_for_every_field() {
    let mut registry = Registry::new(Abi::lp64()).unwrap();
    let inner = registry.compile("Inner", "<hb").unwrap();
    let id = registry.compile("Foo", "@bL0h3x`Inner`12s?").unwrap();
    assert_eq!(
        registry.fields_array(id),
        vec![
            entry("char", 0, 0, 1),
            entry("unsigned long", 1, 7, 15),
            entry("short", 16, 0, 0),
            entry("[u8; 3]", 16, 0, 3),
            entry("Inner", 19, 1, 4),
            entry("[u8; 12]", 23, 0, 12),
            entry("bool", 35, 0, 1),
        ]
    );
    assert_eq!(
        registry.fields_array(inner),
        vec![entry("i16", 0, 0, 2), entry("i8", 2, 0, 1)]
    );
    let empty = registry.compile("Empty", "").unwrap();
    assert!(registry.fields_array(empty).is_empty());
}

#[test]
fn every_kind_has_a_name_in_each_mode() {
    let registry = Registry::new(Abi::lp64()).unwrap();
    let cases = [
        (FieldKind::Char, "i8", "char"),
        (FieldKind::UChar, "u8", "unsigned char"),
        (FieldKind::Short, "i16", "short"),
        (FieldKind::UShort, "u16", "unsigned short"),
        (FieldKind::Int, "i32", "int"),
        (FieldKind::UInt, "u32", "unsigned int"),
        (FieldKind::Long, "i32", "long"),
        (FieldKind::ULong, "u32", "unsigned long"),
        (FieldKind::LongLong, "i64", "long long"),
        (FieldKind::ULongLong, "u64", "unsigned long long"),
        (FieldKind::Size, "isize", "ssize_t"),
        (FieldKind::USize, "usize", "size_t"),
        (FieldKind::Float, "float", "float"),
        (FieldKind::Double, "double", "double"),
        (FieldKind::Bool, "bool", "bool"),
        (FieldKind::Array(0), "[u8; 0]", "[u8; 0]"),
        (FieldKind::Array(10), "[u8; 10]", "[u8; 10]"),
        (FieldKind::Pad(4096), "[u8; 4096]", "[u8; 4096]"),
        (FieldKind::Ident(7), "", ""),
    ];
    for (kind, standard, native) in cases {
        assert_eq!(registry.tipe(kind, false), standard);
        assert_eq!(registry.tipe(kind, true), native);
    }
    let max = format!("[u8; {}]", usize::MAX);
    assert_eq!(registry.tipe(FieldKind::Array(usize::MAX), false), max);
}

#[test]
fn decimal_digits_are_appended() {
    let mut out = String::from("n=");
    restruct::digits::push_decimal(&mut out, 0);
    restruct::digits::push_decimal(&mut out, 9);
    restruct::digits::push_decimal(&mut out, 10);
    restruct::digits::push_decimal(&mut out, 1234567890);
    assert_eq!(out, "n=09101234567890");
}
