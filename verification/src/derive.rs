//! From the attributes of a type to its record: the `fmt` attributes give
//! the format string in pieces, `debug_output` asks for a dump.

use crate::layout::{spec_compile_str, CompilationView, CompileError, Registry, RegistryView};
use vstd::prelude::*;
use vstd::string::*;

verus! {

/// The literal on the right of an attribute.
#[derive(Debug, PartialEq, Eq)]
pub enum Lit {
    Str(String),
    Bool(bool),
    /// A literal of any other type.
    Other,
}

/// What a [`Lit`] stands for in contracts.
pub ghost enum LitView {
    Str(Seq<char>),
    Bool(bool),
    Other,
}

impl View for Lit {
    type V = LitView;

    open spec fn view(&self) -> LitView {
        match self {
            Lit::Str(s) => LitView::Str(s@),
            Lit::Bool(b) => LitView::Bool(*b),
            Lit::Other => LitView::Other,
        }
    }
}

/// One attribute of a type, as far as deriving a record reads it.
#[derive(Debug, PartialEq, Eq)]
pub enum Meta {
    /// A bare name, as in `#[debug_output]`.
    Word(String),
    /// A name and a literal, as in `#[fmt = "<2i"]`.
    NameValue(String, Lit),
    /// An attribute of any other form.
    Other,
}

/// What a [`Meta`] stands for in contracts.
pub ghost enum MetaView {
    Word(Seq<char>),
    NameValue(Seq<char>, LitView),
    Other,
}

impl View for Meta {
    type V = MetaView;

    open spec fn view(&self) -> MetaView {
        match self {
            Meta::Word(name) => MetaView::Word(name@),
            Meta::NameValue(name, lit) => MetaView::NameValue(name@, lit@),
            Meta::Other => MetaView::Other,
        }
    }
}

/// The views of a sequence of attributes, in order.
pub open spec fn metas_view(attrs: Seq<Meta>) -> Seq<MetaView> {
    Seq::new(attrs.len(), |i: int| attrs[i]@)
}

/// Why the attributes of a type were refused. `attr` is the index of the
/// attribute.
#[derive(Debug, Clone, Copy, PartialEq, Eq, Structural)]
pub enum AttrError {
    /// A `fmt` attribute whose literal is no string.
    FmtNotString { attr: usize },
    /// A `debug_output` attribute whose literal is no boolean.
    DebugOutputNotBool { attr: usize },
}

/// Why no record was derived.
#[derive(Debug, Clone, Copy, PartialEq, Eq, Structural)]
pub enum DeriveError {
    Attr(AttrError),
    Compile(CompileError),
}

/// What the attributes of a type ask for: the name of the type, the format
/// string, and whether to dump what was derived.
#[derive(Debug, PartialEq, Eq)]
pub struct Derive {
    pub name: String,
    pub format: String,
    pub debug_output: bool,
}

/// What the first `n` attributes give: the pieces of all `fmt` attributes
/// joined in order, and the last word on `debug_output`; or the first
/// attribute whose literal has the wrong type.
pub open spec fn gather(attrs: Seq<MetaView>, n: nat) -> Result<(Seq<char>, bool), AttrError>
    decreases n,
{
    if n == 0 {
        Ok((Seq::empty(), false))
    } else {
        match gather(attrs, (n - 1) as nat) {
            Err(e) => Err(e),
            Ok((format, debug)) => match attrs[n - 1] {
                MetaView::NameValue(name, lit) => if name == "fmt"@ {
                    match lit {
                        LitView::Str(piece) => Ok((format + piece, debug)),
                        _ => Err(AttrError::FmtNotString { attr: (n - 1) as usize }),
                    }
                } else if name == "debug_output"@ {
                    match lit {
                        LitView::Bool(b) => Ok((format, b)),
                        _ => Err(AttrError::DebugOutputNotBool { attr: (n - 1) as usize }),
                    }
                } else {
                    Ok((format, debug))
                },
                MetaView::Word(name) => if name == "debug_output"@ {
                    Ok((format, true))
                } else {
                    Ok((format, debug))
                },
                MetaView::Other => Ok((format, debug)),
            },
        }
    }
}

/// Once a prefix of the attributes is refused, every longer prefix is
/// refused alike.
pub proof fn lemma_gather_error_sticks(attrs: Seq<MetaView>, n: nat, m: nat)
    requires
        n <= m,
        gather(attrs, n) is Err,
    ensures
        gather(attrs, m) == gather(attrs, n),
    decreases m,
{
    if n < m {
        lemma_gather_error_sticks(attrs, n, (m - 1) as nat);
    }
}

impl Derive {
    /// Reads the attributes of the type `name`.
    pub fn new(name: &str, attrs: &Vec<Meta>) -> (res: Result<Derive, AttrError>)
        ensures
            match gather(metas_view(attrs@), attrs@.len()) {
                Ok((format, debug)) => res matches Ok(d) && d.name@ == name@ && d.format@
                    == format && d.debug_output == debug,
                Err(e) => res == Err::<Derive, AttrError>(e),
            },
    {
        let fmt_name = String::from_str("fmt");
        let debug_name = String::from_str("debug_output");
        let mut format = String::new();
        let mut debug_output = false;
        let ghost metas = metas_view(attrs@);
        let mut i: usize = 0;
        while i < attrs.len()
            invariant
                i <= attrs.len(),
                metas == metas_view(attrs@),
                fmt_name@ == "fmt"@,
                debug_name@ == "debug_output"@,
                gather(metas, i as nat) == Ok::<(Seq<char>, bool), AttrError>(
                    (format@, debug_output),
                ),
            decreases attrs.len() - i,
        {
            assert(metas[i as int] == attrs[i as int]@);
            proof {
                if gather(metas, (i + 1) as nat) is Err {
                    lemma_gather_error_sticks(metas, (i + 1) as nat, attrs@.len());
                }
            }
            match &attrs[i] {
                Meta::NameValue(name, lit) => {
                    if *name == fmt_name {
                        match lit {
                            Lit::Str(piece) => {
                                format.append(piece.as_str());
                            },
                            _ => {
                                return Err(AttrError::FmtNotString { attr: i });
                            },
                        }
                    } else if *name == debug_name {
                        match lit {
                            Lit::Bool(b) => {
                                debug_output = *b;
                            },
                            _ => {
                                return Err(AttrError::DebugOutputNotBool { attr: i });
                            },
                        }
                    }
                },
                Meta::Word(name) => {
                    if *name == debug_name {
                        debug_output = true;
                    }
                },
                Meta::Other => {},
            }
            i = i + 1;
        }
        Ok(Derive { name: name.to_owned(), format, debug_output })
    }
}

/// What deriving a record from the attributes of a type gives.
pub open spec fn spec_derive(r: RegistryView, name: Seq<char>, attrs: Seq<MetaView>) -> Result<
    CompilationView,
    DeriveError,
> {
    match gather(attrs, attrs.len()) {
        Err(e) => Err(DeriveError::Attr(e)),
        Ok((format, _)) => match spec_compile_str(r, name, format) {
            Err(e) => Err(DeriveError::Compile(e)),
            Ok(c) => Ok(c),
        },
    }
}

/// Derives the record of the type `name` from its attributes: joins the
/// pieces of the format string, compiles it and registers the record.
pub fn derive(registry: &mut Registry, name: &str, attrs: &Vec<Meta>) -> (res: Result<
    usize,
    DeriveError,
>)
    requires
        old(registry).wf(),
    ensures
        final(registry).wf(),
        final(registry)@.abi == old(registry)@.abi,
        match spec_derive(old(registry)@, name@, metas_view(attrs@)) {
            Ok(c) => res == Ok::<usize, DeriveError>(old(registry)@.entries.len() as usize)
                && final(registry)@.entries == old(registry)@.entries.push(c),
            Err(e) => res == Err::<usize, DeriveError>(e) && final(registry)@ == old(registry)@,
        },
{
    match Derive::new(name, attrs) {
        Err(e) => Err(DeriveError::Attr(e)),
        Ok(d) => match registry.compile(name, d.format.as_str()) {
            Err(e) => Err(DeriveError::Compile(e)),
            Ok(id) => Ok(id),
        },
    }
}

} // verus!
