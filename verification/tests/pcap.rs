use restruct::abi::Abi;
use restruct::layout::Registry;
use restruct::pcap::{read, Header, Packet, ReadError, HEADER_SIZE, MAGIC, PACKET_HEADER_SIZE};
use restruct::value::Value;

fn file_header() -> Vec<u8> {
    let mut data = Vec::new();
    data.extend_from_slice(&0xa1b2_c3d4u32.to_le_bytes());
    data.extend_from_slice(&2u16.to_le_bytes());
    data.extend_from_slice(&4u16.to_le_bytes());
    data.extend_from_slice(&(-3600i32).to_le_bytes());
    data.extend_from_slice(&0u32.to_le_bytes());
    data.extend_from_slice(&65535u32.to_le_bytes());
    data.extend_from_slice(&1u32.to_le_bytes());
    data
}

fn packet(ts_sec: u32, ts_usec: u32, orig_len: u32, payload: &[u8]) -> Vec<u8> {
    let mut data = Vec::new();
    data.extend_from_slice(&ts_sec.to_le_bytes());
    data.extend_from_slice(&ts_usec.to_le_bytes());
    data.extend_from_slice(&(payload.len() as u32).to_le_bytes());
    data.extend_from_slice(&orig_len.to_le_bytes());
    data.extend_from_slice(payload);
    data
}

fn capture(packets: usize) -> Vec<u8> {
    let mut data = file_header();
    for i in 0..packets {
        let payload: Vec<u8> = (0..i as u8).collect();
        data.extend(packet(1000 + i as u32, i as u32, 100 + i as u32, &payload));
    }
    data
}

#[test]
fn read_file() {
    let data = capture(10);
    let (head, packets) = read(&data[..]).unwrap();
    assert_eq!(head.magic, 0xa1b2_c3d4);
    assert_eq!(packets.len(), 10);
}

#[test]
fn header_fields_are_read_little_endian() {
    let head = Header::read_from(&file_header()).unwrap();
    assert_eq!(
        head,
        Header {
            magic: MAGIC,
            version_major: 2,
            version_minor: 4,
            ts_correction: -3600,
            ts_accuracy: 0,
            snaplen: 65535,
            datalink: 1,
        }
    );
}

#[test]
fn packets_are_read_in_order() {
    let data = capture(3);
    let (_, packets) = read(&data).unwrap();
    assert_eq!(
        packets,
        vec![
            Packet { ts_sec: 1000, ts_usec: 0, orig_len: 100, data: vec![] },
            Packet { ts_sec: 1001, ts_usec: 1, orig_len: 101, data: vec![0] },
            Packet { ts_sec: 1002, ts_usec: 2, orig_len: 102, data: vec![0, 1] },
        ]
    );
    let (first, next) = Packet::read_from(&data, HEADER_SIZE).unwrap();
    assert_eq!(first, packets[0]);
    assert_eq!(next, HEADER_SIZE + PACKET_HEADER_SIZE);
}

#[test]
fn reading_stops_at_a_packet_that_is_not_whole() {
    let mut data = capture(3);
    data.pop();
    let (_, packets) = read(&data).unwrap();
    assert_eq!(packets.len(), 2);
    let mut data = capture(2);
    data.extend_from_slice(&[1, 2, 3]);
    let (_, packets) = read(&data).unwrap();
    assert_eq!(packets.len(), 2);
    assert_eq!(Packet::read_from(&data, data.len()), None);
    assert_eq!(Packet::read_from(&data, usize::MAX), None);
    let (_, packets) = read(&file_header()).unwrap();
    assert!(packets.is_empty());
}

#[test]
fn a_bad_header_is_refused() {
    let mut data = file_header();
    data.pop();
    assert_eq!(read(&data), Err(ReadError::UnexpectedEof));
    assert_eq!(Header::read_from(&[]), Err(ReadError::UnexpectedEof));
    let mut data = capture(1);
    data[0] = 0;
    assert_eq!(read(&data), Err(ReadError::UnsupportedMagic));
    assert_eq!(Header::read_from(&data), Err(ReadError::UnsupportedMagic));
}

#[test]
fn headers_have_the_layout_of_their_format_strings() {
    let mut registry = Registry::new(Abi::host().unwrap()).unwrap();
    let file = registry.compile("PcapHeader", "<I2Hi3I").unwrap();
    let record = registry.compile("PcapPacketHeader", "<4I").unwrap();
    assert_eq!(registry.get(file).size(), HEADER_SIZE);
    assert_eq!(registry.get(record).size(), PACKET_HEADER_SIZE);
    let data = capture(1);
    let head = Header::read_from(&data).unwrap();
    assert_eq!(
        registry.unpack_slice(file, &data),
        vec![
            Value::UInt(head.magic as u64),
            Value::UInt(head.version_major as u64),
            Value::UInt(head.version_minor as u64),
            Value::Int(head.ts_correction as i64),
            Value::UInt(head.ts_accuracy as u64),
            Value::UInt(head.snaplen as u64),
            Value::UInt(head.datalink as u64),
        ]
    );
    assert_eq!(
        registry.unpack_at(record, &data, HEADER_SIZE),
        vec![Value::UInt(1000), Value::UInt(0), Value::UInt(0), Value::UInt(100)]
    );
}
