//! Reading a packet capture: a file header of the layout `"<I2Hi3I"`, then
//! packets, each a header of the layout `"<4I"` and its data.

use crate::bytes::{
    decode_signed, decode_unsigned, lemma_decode_unsigned_bound, lemma_from_twos_complement_fits,
    lemma_pow256_values, spec_decode_signed, spec_decode_unsigned,
};
use vstd::prelude::*;

verus! {

/// The magic number of a capture whose numbers are little-endian and whose
/// time stamps count microseconds.
pub const MAGIC: u32 = 0xa1b2_c3d4;

/// The size of the file header.
pub const HEADER_SIZE: usize = 24;

/// The size of the header in front of each packet.
pub const PACKET_HEADER_SIZE: usize = 16;

/// Why a capture could not be read.
#[derive(Debug, Clone, Copy, PartialEq, Eq, Structural)]
pub enum ReadError {
    /// The input ends inside the file header.
    UnexpectedEof,
    /// The file header does not start with [`MAGIC`].
    UnsupportedMagic,
}

/// The header of a capture file.
#[derive(Debug, Clone, Copy, PartialEq, Eq, Structural)]
pub struct Header {
    pub magic: u32,
    pub version_major: u16,
    pub version_minor: u16,
    pub ts_correction: i32,
    pub ts_accuracy: u32,
    pub snaplen: u32,
    pub datalink: u32,
}

/// One captured packet.
#[derive(Debug, Clone, PartialEq, Eq)]
pub struct Packet {
    pub ts_sec: u32,
    pub ts_usec: u32,
    pub orig_len: u32,
    pub data: Vec<u8>,
}

/// What a [`Packet`] stands for in contracts.
pub ghost struct PacketView {
    pub ts_sec: u32,
    pub ts_usec: u32,
    pub orig_len: u32,
    pub data: Seq<u8>,
}

impl View for Packet {
    type V = PacketView;

    open spec fn view(&self) -> PacketView {
        PacketView {
            ts_sec: self.ts_sec,
            ts_usec: self.ts_usec,
            orig_len: self.orig_len,
            data: self.data@,
        }
    }
}

/// The views of a sequence of packets, in order.
pub open spec fn packets_view(packets: Seq<Packet>) -> Seq<PacketView> {
    Seq::new(packets.len(), |i: int| packets[i]@)
}

/// The little-endian number in the `width` bytes of `data` from `at` on.
pub open spec fn unsigned_at(data: Seq<u8>, at: int, width: int) -> nat {
    spec_decode_unsigned(data.subrange(at, at + width), false)
}

/// The file header that the first bytes of `data` hold.
pub open spec fn header_of(data: Seq<u8>) -> Header {
    Header {
        magic: unsigned_at(data, 0, 4) as u32,
        version_major: unsigned_at(data, 4, 2) as u16,
        version_minor: unsigned_at(data, 6, 2) as u16,
        ts_correction: spec_decode_signed(data.subrange(8, 12), false) as i32,
        ts_accuracy: unsigned_at(data, 12, 4) as u32,
        snaplen: unsigned_at(data, 16, 4) as u32,
        datalink: unsigned_at(data, 20, 4) as u32,
    }
}

/// How many bytes of data the packet header at `pos` announces.
pub open spec fn incl_len_at(data: Seq<u8>, pos: int) -> nat {
    unsigned_at(data, pos + 8, 4)
}

/// Whether a whole packet, header and data, stands at `pos`.
pub open spec fn has_packet(data: Seq<u8>, pos: int) -> bool {
    &&& 0 <= pos
    &&& pos + PACKET_HEADER_SIZE <= data.len()
    &&& pos + PACKET_HEADER_SIZE + incl_len_at(data, pos) <= data.len()
}

/// The packet that stands at `pos`.
pub open spec fn packet_at(data: Seq<u8>, pos: int) -> PacketView {
    PacketView {
        ts_sec: unsigned_at(data, pos, 4) as u32,
        ts_usec: unsigned_at(data, pos + 4, 4) as u32,
        orig_len: unsigned_at(data, pos + 12, 4) as u32,
        data: data.subrange(
            pos + PACKET_HEADER_SIZE,
            pos + PACKET_HEADER_SIZE + incl_len_at(data, pos),
        ),
    }
}

/// The packets from `pos` on, up to the first that is not whole.
pub open spec fn packets_from(data: Seq<u8>, pos: int) -> Seq<PacketView>
    decreases data.len() - pos,
{
    if has_packet(data, pos) {
        seq![packet_at(data, pos)] + packets_from(
            data,
            pos + PACKET_HEADER_SIZE + incl_len_at(data, pos),
        )
    } else {
        Seq::empty()
    }
}

/// What reading a capture gives: its header and its packets, or why not.
pub open spec fn spec_read(data: Seq<u8>) -> Result<(Header, Seq<PacketView>), ReadError> {
    if data.len() < HEADER_SIZE {
        Err(ReadError::UnexpectedEof)
    } else if header_of(data).magic != MAGIC {
        Err(ReadError::UnsupportedMagic)
    } else {
        Ok((header_of(data), packets_from(data, HEADER_SIZE as int)))
    }
}

fn read_u32(data: &[u8], at: usize) -> (value: u32)
    requires
        at + 4 <= data.len(),
    ensures
        value == unsigned_at(data@, at as int, 4),
{
    proof {
        lemma_pow256_values();
        lemma_decode_unsigned_bound(data@.subrange(at as int, at + 4), false);
    }
    decode_unsigned(data, at, 4, false) as u32
}

fn read_u16(data: &[u8], at: usize) -> (value: u16)
    requires
        at + 2 <= data.len(),
    ensures
        value == unsigned_at(data@, at as int, 2),
{
    proof {
        lemma_pow256_values();
        lemma_decode_unsigned_bound(data@.subrange(at as int, at + 2), false);
    }
    decode_unsigned(data, at, 2, false) as u16
}

fn read_i32(data: &[u8], at: usize) -> (value: i32)
    requires
        at + 4 <= data.len(),
    ensures
        value == spec_decode_signed(data@.subrange(at as int, at + 4), false),
{
    proof {
        lemma_pow256_values();
        let part = data@.subrange(at as int, at + 4);
        lemma_decode_unsigned_bound(part, false);
        lemma_from_twos_complement_fits(spec_decode_unsigned(part, false), 4);
    }
    decode_signed(data, at, 4, false) as i32
}

impl Header {
    /// Reads the file header from the first bytes of `inp`.
    pub fn read_from(inp: &[u8]) -> (res: Result<Header, ReadError>)
        ensures
            res == match spec_read(inp@) {
                Ok((header, _)) => Ok::<Header, ReadError>(header),
                Err(e) => Err(e),
            },
    {
        if inp.len() < HEADER_SIZE {
            return Err(ReadError::UnexpectedEof);
        }
        let header = Header {
            magic: read_u32(inp, 0),
            version_major: read_u16(inp, 4),
            version_minor: read_u16(inp, 6),
            ts_correction: read_i32(inp, 8),
            ts_accuracy: read_u32(inp, 12),
            snaplen: read_u32(inp, 16),
            datalink: read_u32(inp, 20),
        };
        if header.magic != MAGIC {
            return Err(ReadError::UnsupportedMagic);
        }
        Ok(header)
    }
}

impl Packet {
    /// Reads the packet that stands at `pos`: its header and the data that
    /// the header announces. The result holds the position behind the
    /// packet; there is none where `inp` ends before the packet does.
    pub fn read_from(inp: &[u8], pos: usize) -> (res: Option<(Packet, usize)>)
        ensures
            res is Some <==> has_packet(inp@, pos as int),
            res matches Some((packet, next)) ==> packet@ == packet_at(inp@, pos as int) && next
                == pos + PACKET_HEADER_SIZE + incl_len_at(inp@, pos as int),
    {
        if inp.len() < PACKET_HEADER_SIZE || pos > inp.len() - PACKET_HEADER_SIZE {
            return None;
        }
        let ts_sec = read_u32(inp, pos);
        let ts_usec = read_u32(inp, pos + 4);
        let incl_len = read_u32(inp, pos + 8);
        let orig_len = read_u32(inp, pos + 12);
        let start: usize = pos + PACKET_HEADER_SIZE;
        if incl_len as u64 > (inp.len() - start) as u64 {
            return None;
        }
        let len: usize = incl_len as usize;
        let mut data: Vec<u8> = Vec::new();
        let mut i: usize = 0;
        while i < len
            invariant
                i <= len,
                start + len <= inp.len(),
                data@ == inp@.subrange(start as int, start + i),
            decreases len - i,
        {
            data.push(inp[start + i]);
            i = i + 1;
            assert(data@ =~= inp@.subrange(start as int, start + i));
        }
        Some((Packet { ts_sec, ts_usec, orig_len, data }, start + len))
    }
}

/// Reads a capture: the file header, then every packet up to the end of
/// `inp` or to the first packet that `inp` does not hold whole.
pub fn read(inp: &[u8]) -> (res: Result<(Header, Vec<Packet>), ReadError>)
    ensures
        res matches Ok((header, packets)) ==> spec_read(inp@) == Ok::<
            (Header, Seq<PacketView>),
            ReadError,
        >((header, packets_view(packets@))),
        res matches Err(e) ==> spec_read(inp@) == Err::<(Header, Seq<PacketView>), ReadError>(e),
{
    let header = match Header::read_from(inp) {
        Ok(header) => header,
        Err(e) => {
            return Err(e);
        },
    };
    let mut packets: Vec<Packet> = Vec::new();
    let mut pos: usize = HEADER_SIZE;
    loop
        invariant
            HEADER_SIZE <= pos <= inp.len(),
            header == header_of(inp@),
            header.magic == MAGIC,
            packets_from(inp@, HEADER_SIZE as int) == packets_view(packets@) + packets_from(
                inp@,
                pos as int,
            ),
        decreases inp.len() - pos,
    {
        match Packet::read_from(inp, pos) {
            None => {
                assert(packets_view(packets@) + Seq::<PacketView>::empty() =~= packets_view(
                    packets@,
                ));
                return Ok((header, packets));
            },
            Some((packet, next)) => {
                proof {
                    let before = packets_view(packets@);
                    let after = packets_view(packets@.push(packet));
                    let rest = packets_from(inp@, next as int);
                    assert(after =~= before.push(packet@));
                    assert(before + (seq![packet@] + rest) =~= after + rest);
                }
                packets.push(packet);
                pos = next;
            },
        }
    }
}

} // verus!
