use restruct::abi::Abi;
use restruct::derive::{AttrError, Derive, DeriveError, Lit, Meta};
use restruct::layout::{CompileError, Registry};
use restruct::parser::ParseError;

fn fmt(piece: &str) -> Meta {
    Meta::NameValue("fmt".to_owned(), Lit::Str(piece.to_owned()))
}

fn host() -> Registry {
    Registry::new(Abi::host().unwrap()).unwrap()
}

#[test]
fn concatenate_fmt() {
    let mut registry = host();
    let id = restruct::derive::derive(&mut registry, "Foo", &vec![fmt("<"), fmt("2"), fmt("i")]).unwrap();
    assert_eq!(registry.get(id).size(), 8);
}

#[test]
fn simple_fmt() {
    let mut registry = host();
    let id = restruct::derive::derive(&mut registry, "Foo", &vec![fmt(">B")]).unwrap();
    assert_eq!(registry.get(id).name(), "Foo");
    assert_eq!(registry.get(id).size(), 1);
}

#[test]
fn attributes_are_read_in_order() {
    let d = Derive::new(
        "Foobar",
        &vec![
            fmt(">"),
            Meta::Other,
            fmt("2h"),
            Meta::Word("debug_output".to_owned()),
            Meta::Word("repr".to_owned()),
            fmt("10x"),
            Meta::NameValue("doc".to_owned(), Lit::Str("ignored".to_owned())),
            Meta::NameValue("debug_output".to_owned(), Lit::Bool(false)),
            fmt("3i"),
        ],
    )
    .unwrap();
    assert_eq!(
        d,
        Derive { name: "Foobar".to_owned(), format: ">2h10x3i".to_owned(), debug_output: false }
    );
    let d = Derive::new("Foo", &vec![Meta::Word("debug_output".to_owned())]).unwrap();
    assert!(d.debug_output);
    assert_eq!(d.format, "");
    let d = Derive::new("Foo", &vec![]).unwrap();
    assert!(!d.debug_output);
    let d = Derive::new(
        "Foo",
        &vec![Meta::NameValue("debug_output".to_owned(), Lit::Bool(true))],
    )
    .unwrap();
    assert!(d.debug_output);
}

#[test]
fn a_literal_of_the_wrong_type_is_refused() {
    assert_eq!(
        Derive::new("Foo", &vec![Meta::NameValue("fmt".to_owned(), Lit::Bool(true))]),
        Err(AttrError::FmtNotString { attr: 0 })
    );
    assert_eq!(
        Derive::new(
            "Foo",
            &vec![fmt("iii"), Meta::NameValue("debug_output".to_owned(), Lit::Other)]
        ),
        Err(AttrError::DebugOutputNotBool { attr: 1 })
    );
    let mut registry = host();
    assert_eq!(
        restruct::derive::derive(&mut registry, "Foo", &vec![Meta::NameValue("fmt".to_owned(), Lit::Other)]),
        Err(DeriveError::Attr(AttrError::FmtNotString { attr: 0 }))
    );
    assert_eq!(
        restruct::derive::derive(&mut registry, "Foo", &vec![fmt("<"), fmt("<")]),
        Err(DeriveError::Compile(CompileError::Parse(ParseError::MisplacedModifier {
            position: 1
        })))
    );
    assert_eq!(registry.len(), 0);
}
