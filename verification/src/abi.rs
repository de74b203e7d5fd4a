//! The platform's C data model: how wide the C integer types are, how values
//! are aligned, and in which order bytes are stored.

use vstd::prelude::*;

verus! {

/// Whether `n` is the size of a machine integer: 1, 2, 4 or 8 bytes.
pub open spec fn is_width(n: usize) -> bool {
    n == 1 || n == 2 || n == 4 || n == 8
}

/// The C data model of one platform. Native mode lays records out by it; the
/// other modes take from it only the byte order and the size of a pointer.
#[derive(Debug, Clone, Copy, PartialEq, Eq, Structural)]
pub struct Abi {
    /// Whether the most significant byte of a number comes first.
    pub big_endian: bool,
    /// The size of C `short`.
    pub short_size: usize,
    /// The size of C `int`.
    pub int_size: usize,
    /// The size of C `long`.
    pub long_size: usize,
    /// The size of C `long long`.
    pub long_long_size: usize,
    /// The size of a pointer, which is that of `size_t` and `ssize_t`.
    pub pointer_size: usize,
    /// The alignment of a two-byte integer.
    pub align2: usize,
    /// The alignment of a four-byte integer.
    pub align4: usize,
    /// The alignment of an eight-byte integer.
    pub align8: usize,
    /// The alignment of a 32-bit float.
    pub float_align: usize,
    /// The alignment of a 64-bit float.
    pub double_align: usize,
}

impl Abi {
    /// Every size and every alignment is 1, 2, 4 or 8.
    pub open spec fn wf(&self) -> bool {
        &&& is_width(self.short_size)
        &&& is_width(self.int_size)
        &&& is_width(self.long_size)
        &&& is_width(self.long_long_size)
        &&& is_width(self.pointer_size)
        &&& is_width(self.align2)
        &&& is_width(self.align4)
        &&& is_width(self.align8)
        &&& is_width(self.float_align)
        &&& is_width(self.double_align)
    }

    /// Whether this data model is one that records can be laid out by.
    pub fn is_valid(&self) -> (valid: bool)
        ensures
            valid == self.wf(),
    {
        width_ok(self.short_size) && width_ok(self.int_size) && width_ok(self.long_size)
            && width_ok(self.long_long_size) && width_ok(self.pointer_size) && width_ok(
            self.align2,
        ) && width_ok(self.align4) && width_ok(self.align8) && width_ok(self.float_align)
            && width_ok(self.double_align)
    }

    /// The alignment of an integer of `width` bytes.
    pub open spec fn spec_int_align(&self, width: usize) -> usize {
        if width == 2 {
            self.align2
        } else if width == 4 {
            self.align4
        } else if width == 8 {
            self.align8
        } else {
            1
        }
    }

    /// The alignment of an integer of `width` bytes.
    #[verifier::when_used_as_spec(spec_int_align)]
    pub fn int_align(&self, width: usize) -> (align: usize)
        ensures
            align == self.spec_int_align(width),
    {
        if width == 2 {
            self.align2
        } else if width == 4 {
            self.align4
        } else if width == 8 {
            self.align8
        } else {
            1
        }
    }

    /// The data model of 64-bit little-endian Unix: `long` and pointers of
    /// eight bytes, every type aligned to its size.
    pub fn lp64() -> (abi: Abi)
        ensures
            abi == (Abi {
                big_endian: false,
                short_size: 2,
                int_size: 4,
                long_size: 8,
                long_long_size: 8,
                pointer_size: 8,
                align2: 2,
                align4: 4,
                align8: 8,
                float_align: 4,
                double_align: 8,
            }),
            abi.wf(),
    {
        Abi {
            big_endian: false,
            short_size: 2,
            int_size: 4,
            long_size: 8,
            long_long_size: 8,
            pointer_size: 8,
            align2: 2,
            align4: 4,
            align8: 8,
            float_align: 4,
            double_align: 8,
        }
    }

    /// What the machine that runs this code has for each entry of the data
    /// model, with the byte order given: the sizes of the `libc` crate's C
    /// types, and the alignments of the integers of two, four and eight
    /// bytes. A float is taken to be aligned as the integer of its size is.
    pub open spec fn spec_host(big_endian: bool) -> Abi {
        Abi {
            big_endian,
            short_size: core::mem::size_of::<libc::c_short>(),
            int_size: core::mem::size_of::<libc::c_int>(),
            long_size: core::mem::size_of::<libc::c_long>(),
            long_long_size: core::mem::size_of::<libc::c_longlong>(),
            pointer_size: core::mem::size_of::<libc::size_t>(),
            align2: core::mem::align_of::<u16>(),
            align4: core::mem::align_of::<u32>(),
            align8: core::mem::align_of::<u64>(),
            float_align: core::mem::align_of::<u32>(),
            double_align: core::mem::align_of::<u64>(),
        }
    }

    /// The data model of the machine that runs this code, as the `libc`
    /// crate's C types and the compiler lay it out: every entry but the
    /// byte order is what [`Abi::spec_host`] says. There is none exactly
    /// where one of the machine's sizes or alignments is not 1, 2, 4 or 8.
    /// Which byte order comes back depends on the machine alone.
    pub fn host() -> (abi: Option<Abi>)
        ensures
            abi matches Some(a) ==> a == Abi::spec_host(a.big_endian) && a.wf() && a.float_align
                == a.align4 && a.double_align == a.align8,
            abi is None ==> !Abi::spec_host(false).wf() && !Abi::spec_host(true).wf(),
    {
        let probe: u16 = native_u16([0, 1]);
        let abi = Abi {
            big_endian: probe == 1,
            short_size: core::mem::size_of::<libc::c_short>(),
            int_size: core::mem::size_of::<libc::c_int>(),
            long_size: core::mem::size_of::<libc::c_long>(),
            long_long_size: core::mem::size_of::<libc::c_longlong>(),
            pointer_size: core::mem::size_of::<libc::size_t>(),
            align2: core::mem::align_of::<u16>(),
            align4: core::mem::align_of::<u32>(),
            align8: core::mem::align_of::<u64>(),
            float_align: core::mem::align_of::<u32>(),
            double_align: core::mem::align_of::<u64>(),
        };
        if abi.is_valid() {
            Some(abi)
        } else {
            None
        }
    }
}

fn width_ok(n: usize) -> (ok: bool)
    ensures
        ok == is_width(n),
{
    n == 1 || n == 2 || n == 4 || n == 8
}

/// `u16::from_ne_bytes`: the number that two bytes hold in the byte order of
/// the machine, which is one of the two orders there are.
#[verifier::external_body]
fn native_u16(bytes: [u8; 2]) -> (value: u16)
    ensures
        value == bytes[0] + 256 * bytes[1] || value == 256 * bytes[0] + bytes[1],
{
    u16::from_ne_bytes(bytes)
}

} // verus!
