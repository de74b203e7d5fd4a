//! The table of a record's fields: for each field the name of its type, its
//! offset, its alignment padding and its size.

use crate::layout::{Field, FieldKind, Registry, RegistryView};
use crate::digits::{decimal, push_decimal};
use vstd::prelude::*;
use vstd::string::*;

verus! {

/// The name of the type of a field's value. An integer has Rust's name for
/// it where the width is fixed and C's name in native mode; a nested record
/// has the name under which it was compiled.
pub open spec fn tipe_of(r: RegistryView, kind: FieldKind, native: bool) -> Seq<char> {
    match kind {
        FieldKind::Array(len) => "[u8; "@ + decimal(len as nat) + "]"@,
        FieldKind::Pad(len) => "[u8; "@ + decimal(len as nat) + "]"@,
        FieldKind::Bool => "bool"@,
        FieldKind::Float => "float"@,
        FieldKind::Double => "double"@,
        FieldKind::Ident(id) => if id < r.entries.len() {
            r.entries[id as int].name
        } else {
            Seq::empty()
        },
        FieldKind::Char => if native {
            "char"@
        } else {
            "i8"@
        },
        FieldKind::UChar => if native {
            "unsigned char"@
        } else {
            "u8"@
        },
        FieldKind::Short => if native {
            "short"@
        } else {
            "i16"@
        },
        FieldKind::UShort => if native {
            "unsigned short"@
        } else {
            "u16"@
        },
        FieldKind::Int => if native {
            "int"@
        } else {
            "i32"@
        },
        FieldKind::UInt => if native {
            "unsigned int"@
        } else {
            "u32"@
        },
        FieldKind::Long => if native {
            "long"@
        } else {
            "i32"@
        },
        FieldKind::ULong => if native {
            "unsigned long"@
        } else {
            "u32"@
        },
        FieldKind::LongLong => if native {
            "long long"@
        } else {
            "i64"@
        },
        FieldKind::ULongLong => if native {
            "unsigned long long"@
        } else {
            "u64"@
        },
        FieldKind::Size => if native {
            "ssize_t"@
        } else {
            "isize"@
        },
        FieldKind::USize => if native {
            "size_t"@
        } else {
            "usize"@
        },
    }
}

/// One line of the table of fields.
#[derive(Debug, Clone, PartialEq, Eq)]
pub struct FieldEntry {
    /// The name of the type of the field's value.
    pub tipe: String,
    pub offset: usize,
    pub alignment: usize,
    pub size: usize,
}

/// The line of the table for one field of a record in this mode.
pub open spec fn entry_of(r: RegistryView, field: Field, native: bool, entry: FieldEntry)
    -> bool {
    &&& entry.tipe@ == tipe_of(r, field.kind, native)
    &&& entry.offset == field.offset
    &&& entry.alignment == field.alignment
    &&& entry.size == field.size
}

impl Registry {
    /// The name of the type of a field's value.
    pub fn tipe(&self, kind: FieldKind, native: bool) -> (name: String)
        ensures
            name@ == tipe_of(self@, kind, native),
    {
        match kind {
            FieldKind::Array(len) | FieldKind::Pad(len) => {
                let mut name = String::from_str("[u8; ");
                push_decimal(&mut name, len);
                name.append("]");
                name
            },
            FieldKind::Bool => String::from_str("bool"),
            FieldKind::Float => String::from_str("float"),
            FieldKind::Double => String::from_str("double"),
            FieldKind::Ident(id) => if id < self.len() {
                self.get(id).name().clone()
            } else {
                String::new()
            },
            FieldKind::Char => String::from_str(
                if native {
                    "char"
                } else {
                    "i8"
                },
            ),
            FieldKind::UChar => String::from_str(
                if native {
                    "unsigned char"
                } else {
                    "u8"
                },
            ),
            FieldKind::Short => String::from_str(
                if native {
                    "short"
                } else {
                    "i16"
                },
            ),
            FieldKind::UShort => String::from_str(
                if native {
                    "unsigned short"
                } else {
                    "u16"
                },
            ),
            FieldKind::Int => String::from_str(
                if native {
                    "int"
                } else {
                    "i32"
                },
            ),
            FieldKind::UInt => String::from_str(
                if native {
                    "unsigned int"
                } else {
                    "u32"
                },
            ),
            FieldKind::Long => String::from_str(
                if native {
                    "long"
                } else {
                    "i32"
                },
            ),
            FieldKind::ULong => String::from_str(
                if native {
                    "unsigned long"
                } else {
                    "u32"
                },
            ),
            FieldKind::LongLong => String::from_str(
                if native {
                    "long long"
                } else {
                    "i64"
                },
            ),
            FieldKind::ULongLong => String::from_str(
                if native {
                    "unsigned long long"
                } else {
                    "u64"
                },
            ),
            FieldKind::Size => String::from_str(
                if native {
                    "ssize_t"
                } else {
                    "isize"
                },
            ),
            FieldKind::USize => String::from_str(
                if native {
                    "size_t"
                } else {
                    "usize"
                },
            ),
        }
    }

    /// The table of the fields of record `id`: one line for each field, in
    /// order, those that hold no value too.
    pub fn fields_array(&self, id: usize) -> (table: Vec<FieldEntry>)
        requires
            id < self@.entries.len(),
        ensures
            table@.len() == self@.entries[id as int].fields.len(),
            forall|i: int|
                0 <= i < table@.len() ==> entry_of(
                    self@,
                    self@.entries[id as int].fields[i],
                    self@.entries[id as int].modifier.spec_native_types(),
                    #[trigger] table@[i],
                ),
    {
        let entry = self.get(id);
        let native = entry.modifier().native_types();
        let fields = entry.fields();
        let mut table: Vec<FieldEntry> = Vec::new();
        let mut i: usize = 0;
        while i < fields.len()
            invariant
                i <= fields.len(),
                id < self@.entries.len(),
                fields@ == self@.entries[id as int].fields,
                native == self@.entries[id as int].modifier.spec_native_types(),
                table@.len() == i,
                forall|j: int|
                    0 <= j < i ==> entry_of(self@, fields@[j], native, #[trigger] table@[j]),
            decreases fields.len() - i,
        {
            let field = fields[i];
            table.push(
                FieldEntry {
                    tipe: self.tipe(field.kind, native),
                    offset: field.offset,
                    alignment: field.alignment,
                    size: field.size,
                },
            );
            i = i + 1;
        }
        table
    }
}

} // verus!
