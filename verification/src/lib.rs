//! Byte-exact codecs for fixed-size binary records, compiled from compact
//! format strings.
//!
//! A format string such as `"<2if?"` names the fields of a record. A
//! [`layout::Registry`] compiles it into a [`layout::Compilation`]: the
//! fields with their offsets and sizes. The registry then packs a record's
//! values into its bytes and unpacks them again.

use vstd::prelude::*;

pub mod abi;
pub mod bytes;
pub mod codec;
pub mod derive;
pub mod digits;
pub mod grammar;
pub mod laws;
pub mod layout;
pub mod parser;
pub mod pcap;
pub mod table;
pub mod value;

verus! {

/// The two forms of a record.
pub trait Struct {
    /// The type of the packed form, a buffer of bytes.
    type Packed;

    /// The type of the unpacked form, the values of the fields.
    type Unpacked;
}

impl Struct for layout::Compilation {
    type Packed = Vec<u8>;

    type Unpacked = Vec<value::Value>;
}

} // verus!
