use restruct::abi::Abi;
use restruct::layout::Registry;
use restruct::value::Value;

fn host() -> Registry {
    Registry::new(Abi::host().unwrap()).unwrap()
}

fn one(fmt: &str) -> (Registry, usize) {
    let mut registry = host();
    let id = registry.compile("Foo", fmt).unwrap();
    (registry, id)
}

fn round_trip(registry: &Registry, id: usize, values: &Vec<Value>) -> Vec<Value> {
    assert!(registry.accepts(id, values));
    let packed = registry.pack(id, values);
    assert_eq!(packed.len(), registry.get(id).size());
    registry.unpack(id, &packed)
}

fn known(code: &str, value: Value, le: &[u8]) {
    let mut be = le.to_vec();
    be.reverse();
    let native = if u16::from_ne_bytes([1, 0]) == 1 { le.to_vec() } else { be.clone() };
    for (modifier, expected) in
        [("<", le.to_vec()), (">", be.clone()), ("!", be.clone()), ("=", native)]
    {
        let (registry, id) = one(&format!("{}{}", modifier, code));
        let values = vec![value.duplicate()];
        assert!(registry.in_range(id, &values));
        let buf = registry.pack(id, &values);
        assert_eq!(buf, expected);
        assert_eq!(registry.unpack(id, &buf), values);
    }
}

#[test]
fn values_simple() {
    let (registry, id) = one(">hhl");
    let inp = vec![Value::Int(1), Value::Int(2), Value::Int(3)];
    let expected = [0, 1, 0, 2, 0, 0, 0, 3];
    let packed = registry.pack(id, &inp);
    assert_eq!(packed, expected);
    let unpacked = registry.unpack(id, &packed);
    assert_eq!(unpacked, inp);
}

#[test]
fn known_values() {
    known("b", Value::Int(7), &[7]);
    known("b", Value::Int(-7), &[249]);
    known("B", Value::UInt(7), &[7]);
    known("B", Value::UInt(249), &[249]);
    known("h", Value::Int(700), &[188, 2]);
    known("h", Value::Int(-700), &[68, 253]);
    known("H", Value::UInt(700), &[188, 2]);
    known("H", Value::UInt(64836), &[68, 253]);
    known("i", Value::Int(70_000_000), &[128, 29, 44, 4]);
    known("i", Value::Int(-70_000_000), &[128, 226, 211, 251]);
    known("I", Value::UInt(70_000_000), &[128, 29, 44, 4]);
    known("I", Value::UInt(4_224_967_296), &[128, 226, 211, 251]);
    known("l", Value::Int(70_000_000), &[128, 29, 44, 4]);
    known("l", Value::Int(-70_000_000), &[128, 226, 211, 251]);
    known("L", Value::UInt(70_000_000), &[128, 29, 44, 4]);
    known("L", Value::UInt(4_224_967_296), &[128, 226, 211, 251]);
    known("q", Value::Int(-2), &[254, 255, 255, 255, 255, 255, 255, 255]);
    known("Q", Value::UInt(0x0102_0304_0506_0708), &[8, 7, 6, 5, 4, 3, 2, 1]);
    known("f", Value::Float(2.0f32.to_bits()), &[0, 0, 0, 64]);
    known("f", Value::Float((-2.0f32).to_bits()), &[0, 0, 0, 192]);
    known("d", Value::Double(2.0f64.to_bits()), &[0, 0, 0, 0, 0, 0, 0, 64]);
    known("d", Value::Double((-2.0f64).to_bits()), &[0, 0, 0, 0, 0, 0, 0, 192]);
    known("?", Value::Bool(true), &[1]);
    known("?", Value::Bool(false), &[0]);
}

#[test]
fn io() {
    let (registry, id) = one("<iihf3s2?");
    let fix: [u8; 19] = [
        0x44, 0x33, 0x22, 0x11, 0x11, 0x22, 0x33, 0x44, 0x66, 0x55, 0xdb, 0x0f, 0x49, 0x40, 0xaa,
        0xbb, 0xcc, 0x01, 0x00,
    ];
    let inp = vec![
        Value::Int(0x1122_3344),
        Value::Int(0x4433_2211),
        Value::Int(0x5566),
        Value::Float(std::f32::consts::PI.to_bits()),
        Value::Bytes(vec![0xaa, 0xbb, 0xcc]),
        Value::Bool(true),
        Value::Bool(false),
    ];
    let mut buffer = Vec::new();
    registry.pack_into(id, &inp, &mut buffer);
    assert_eq!(&buffer[..], &fix[..]);
    let c = registry.unpack_slice(id, &buffer[..]);
    assert_eq!(c, inp);
}

#[test]
fn unpack_slice() {
    let (registry, id) = one(">hh");
    let buf = vec![0, 1, 0, 2, 255, 255, 255, 255];
    let outp = registry.unpack_slice(id, &buf);
    assert_eq!(outp, vec![Value::Int(1), Value::Int(2)]);
}

#[test]
fn values_that_do_not_match_are_not_packed() {
    let (registry, id) = one("<hB");
    assert_eq!(
        registry.pack_checked(id, &vec![Value::Int(1), Value::UInt(2)]),
        Some(vec![1, 0, 2])
    );
    assert_eq!(registry.pack_checked(id, &vec![Value::Int(1)]), None);
    assert_eq!(registry.pack_checked(id, &vec![Value::Int(1), Value::Int(2)]), None);
    assert_eq!(registry.pack_checked(id + 1, &vec![Value::Int(1), Value::UInt(2)]), None);
}

#[test]
fn a_short_buffer_is_refused() {
    let (registry, id) = one(">hh");
    assert_eq!(registry.unpack_checked(id, &[0, 1, 0]), None);
    assert_eq!(registry.unpack_checked(id, &[]), None);
    assert_eq!(
        registry.unpack_checked(id, &[0, 1, 0, 2]),
        Some(vec![Value::Int(1), Value::Int(2)])
    );
    assert_eq!(
        registry.unpack_checked(id, &[0, 1, 0, 2, 9]),
        Some(vec![Value::Int(1), Value::Int(2)])
    );
    assert_eq!(registry.unpack_checked(id + 1, &[0, 1, 0, 2]), None);
}

#[test]
fn empty_fmt() {
    let (registry, id) = one("");
    assert_eq!(registry.get(id).size(), 0);
    assert!(registry.get(id).fields().is_empty());
    assert_eq!(registry.pack(id, &vec![]), [0u8; 0]);
    assert_eq!(registry.unpack(id, &[0u8; 0]), vec![]);
}

#[test]
fn zeroed_format_is_zst() {
    let (registry, id) = one("=0b0i");
    assert_eq!(registry.get(id).size(), 0);
    assert_eq!(registry.get(id).fields().len(), 2);
    assert_eq!(registry.pack(id, &vec![]), [0u8; 0]);
    assert_eq!(registry.unpack(id, &[0u8; 0]), vec![]);
}

#[test]
fn aligned_to_different_type() {
    let mut registry = host();
    let foo = registry.compile("Foo", "bb").unwrap();
    let bar = registry.compile("Bar", "bib").unwrap();
    let foobar = registry.compile("Foobar", "b0ib").unwrap();
    if registry.get(foobar).size() <= registry.get(foo).size() {
        unreachable!();
    }
    if registry.get(foobar).size() >= registry.get(bar).size() {
        unreachable!();
    }
    let values = vec![Value::Int(1), Value::Int(2)];
    assert_eq!(round_trip(&registry, foobar, &values), values);
}

#[test]
fn tail_aligned() {
    let mut registry = host();
    let foo = registry.compile("Foo", "b0q").unwrap();
    let bar = registry.compile("Bar", "q").unwrap();
    let values = vec![Value::Int(100)];
    let buf = registry.pack(foo, &values);
    assert_eq!(buf.len(), registry.get(foo).size());
    assert_eq!(registry.get(foo).size(), registry.get(bar).size());
    assert_eq!(round_trip(&registry, foo, &values), values);
}

#[test]
fn nested_size() {
    let mut registry = host();
    let foo = registry.compile("Foo", "=i3s").unwrap();
    let bar = registry.compile("Bar", "=2`Foo`").unwrap();
    assert_eq!(registry.get(bar).size(), registry.get(foo).size() * 2);
    let values = vec![
        Value::Struct(vec![Value::Int(1), Value::Bytes(vec![0, 1, 2])]),
        Value::Struct(vec![Value::Int(2), Value::Bytes(vec![10, 20, 30])]),
    ];
    assert!(registry.accepts(bar, &values));
    assert_eq!(registry.pack(bar, &values).len(), registry.get(bar).size());
}

#[test]
fn nested() {
    let mut registry = host();
    let _foo = registry.compile("Foo", "Ih").unwrap();
    let bar = registry.compile("Bar", "`Foo`2H").unwrap();
    let values = vec![
        Value::Struct(vec![Value::UInt(3), Value::Int(592)]),
        Value::UInt(43200),
        Value::UInt(21000),
    ];
    let packed = registry.pack(bar, &values);
    let unpacked = registry.unpack(bar, &packed);
    assert_eq!(unpacked, values);
}

#[test]
fn deeply_nested() {
    let mut registry = host();
    registry.compile("MostBottomTurtle", "2?").unwrap();
    registry.compile("BottomTurtle", "L1`MostBottomTurtle`").unwrap();
    let turtle = registry.compile("Turtle", "`BottomTurtle`2s").unwrap();
    let t = vec![
        Value::Struct(vec![
            Value::UInt(999),
            Value::Struct(vec![Value::Bool(true), Value::Bool(false)]),
        ]),
        Value::Bytes(vec![1, 2]),
    ];
    let packed = registry.pack(turtle, &t);
    let unpacked = registry.unpack(turtle, &packed);
    assert_eq!(unpacked, t);
}

#[test]
fn only_padding() {
    let (registry, id) = one("3x");
    assert_eq!(registry.get(id).size(), 3);
    assert_eq!(registry.pack(id, &vec![]), [0u8; 3]);
}

#[test]
fn padding() {
    let mut registry = host();
    let foo = registry.compile("Foo", "=b2x?").unwrap();
    let bar = registry.compile("Bar", "=b?").unwrap();
    let values = vec![Value::Int(-127), Value::Bool(false)];
    assert_eq!(round_trip(&registry, foo, &values), values);
    assert_eq!(registry.get(foo).size(), registry.get(bar).size() + 2);
}

#[test]
fn constness() {
    let (registry, id) = one("ih");
    let fix = vec![Value::Int(1), Value::Int(2)];
    let size = registry.get(id).size();
    let buf = registry.pack(id, &fix);
    let out = registry.unpack(id, &buf);
    if size == 0 || buf.len() != registry.get(id).size() {
        unreachable!();
    }
    assert_eq!(out, fix);
}

#[test]
fn const_init() {
    let (registry, id) = one(">Ih?");
    let data: [u8; 7] = [0xde, 0xad, 0xc0, 0xde, 0x01, 0x90, 0x01];
    assert_eq!(
        registry.unpack(id, &data),
        vec![Value::UInt(0xdead_c0de), Value::Int(400), Value::Bool(true)]
    );
}

#[test]
fn round_trip_of_every_kind_in_every_mode() {
    for modifier in ["", "@", "=", "<", ">", "!"] {
        let (registry, id) = one(&format!("{}bhilqfd?", modifier));
        let values = vec![
            Value::Int(100),
            Value::Int(-32000),
            Value::Int(i32::MIN as i64),
            Value::Int(i32::MIN as i64),
            Value::Int(i64::MIN),
            Value::Float(std::f32::consts::PI.to_bits()),
            Value::Double(std::f64::consts::PI.to_bits()),
            Value::Bool(true),
        ];
        assert!(registry.in_range(id, &values));
        assert_eq!(round_trip(&registry, id, &values), values);

        let (registry, id) = one(&format!("{}BHILQfd?nN3s", modifier));
        let values = vec![
            Value::UInt(128),
            Value::UInt(65000),
            Value::UInt(u32::MAX as u64),
            Value::UInt(u32::MAX as u64),
            Value::UInt(u64::MAX),
            Value::Float(f32::NAN.to_bits()),
            Value::Double(f64::NEG_INFINITY.to_bits()),
            Value::Bool(false),
            Value::Int(isize::MIN as i64),
            Value::UInt(usize::MAX as u64),
            Value::Bytes(vec![1, 2, 3]),
        ];
        assert!(registry.in_range(id, &values));
        assert_eq!(round_trip(&registry, id, &values), values);
    }
}

#[test]
fn native_alignment_is_packed_as_zeros() {
    let mut registry = Registry::new(Abi::lp64()).unwrap();
    let id = registry.compile("Foo", "@bi0q").unwrap();
    let values = vec![Value::Int(-1), Value::Int(0x0102_0304)];
    let packed = registry.pack(id, &values);
    assert_eq!(packed, vec![0xff, 0, 0, 0, 4, 3, 2, 1, 0, 0, 0, 0, 0, 0, 0, 0][..8].to_vec());
    assert_eq!(registry.unpack(id, &packed), values);
    let dirty = [0xff, 9, 9, 9, 4, 3, 2, 1];
    assert_eq!(registry.unpack(id, &dirty), values);
}

#[test]
fn a_boolean_is_true_unless_its_byte_is_zero() {
    let (registry, id) = one("<3?");
    assert_eq!(
        registry.unpack(id, &[0, 1, 200]),
        vec![Value::Bool(false), Value::Bool(true), Value::Bool(true)]
    );
}

#[test]
fn values_that_do_not_match_are_not_accepted() {
    let (registry, id) = one("<hB3s?");
    let good =
        vec![Value::Int(1), Value::UInt(2), Value::Bytes(vec![1, 2, 3]), Value::Bool(true)];
    assert!(registry.accepts(id, &good));
    assert!(registry.in_range(id, &good));
    let short = vec![Value::Int(1), Value::UInt(2), Value::Bytes(vec![1, 2, 3])];
    assert!(!registry.accepts(id, &short));
    let long = vec![
        Value::Int(1),
        Value::UInt(2),
        Value::Bytes(vec![1, 2, 3]),
        Value::Bool(true),
        Value::Bool(true),
    ];
    assert!(!registry.accepts(id, &long));
    let wrong_sign =
        vec![Value::UInt(1), Value::UInt(2), Value::Bytes(vec![1, 2, 3]), Value::Bool(true)];
    assert!(!registry.accepts(id, &wrong_sign));
    let wrong_len =
        vec![Value::Int(1), Value::UInt(2), Value::Bytes(vec![1, 2]), Value::Bool(true)];
    assert!(!registry.accepts(id, &wrong_len));
    let wrong_kind =
        vec![Value::Int(1), Value::UInt(2), Value::Bytes(vec![1, 2, 3]), Value::Float(0)];
    assert!(!registry.accepts(id, &wrong_kind));
}

#[test]
fn an_integer_beyond_its_width_is_truncated() {
    let (registry, id) = one("<hB");
    let wide = vec![Value::Int(0x12345), Value::UInt(0x1ff)];
    assert!(registry.accepts(id, &wide));
    assert!(!registry.in_range(id, &wide));
    let packed = registry.pack(id, &wide);
    assert_eq!(packed, vec![0x45, 0x23, 0xff]);
    assert_eq!(registry.unpack(id, &packed), vec![Value::Int(0x2345), Value::UInt(0xff)]);

    let edge = vec![Value::Int(-32768), Value::UInt(255)];
    assert!(registry.in_range(id, &edge));
    assert_eq!(round_trip(&registry, id, &edge), edge);
    assert!(!registry.in_range(id, &vec![Value::Int(32768), Value::UInt(0)]));
    assert!(!registry.in_range(id, &vec![Value::Int(-32769), Value::UInt(0)]));
    assert!(!registry.in_range(id, &vec![Value::Int(0), Value::UInt(256)]));
}

#[test]
fn a_nested_value_is_checked_at_every_depth() {
    let mut registry = host();
    registry.compile("Inner", "<b").unwrap();
    let outer = registry.compile("Outer", "<`Inner`h").unwrap();
    let good = vec![Value::Struct(vec![Value::Int(5)]), Value::Int(7)];
    assert!(registry.in_range(outer, &good));
    let wide = vec![Value::Struct(vec![Value::Int(500)]), Value::Int(7)];
    assert!(registry.accepts(outer, &wide));
    assert!(!registry.in_range(outer, &wide));
    let flat = vec![Value::Int(5), Value::Int(7)];
    assert!(!registry.accepts(outer, &flat));
    let packed = registry.pack(outer, &good);
    assert_eq!(packed, vec![5, 7, 0]);
    assert_eq!(registry.unpack_at(outer, &[9, 9, 5, 7, 0, 9], 2), good);
}

#[test]
fn a_nested_record_keeps_its_own_byte_order() {
    let mut registry = host();
    registry.compile("Inner", ">H").unwrap();
    let outer = registry.compile("Outer", "<H`Inner`").unwrap();
    let values = vec![Value::UInt(0x0102), Value::Struct(vec![Value::UInt(0x0304)])];
    assert_eq!(registry.pack(outer, &values), vec![2, 1, 3, 4]);
}

#[test]
fn an_empty_byte_array_round_trips() {
    let (registry, id) = one("<b0sb");
    let values = vec![Value::Int(1), Value::Bytes(vec![]), Value::Int(2)];
    let packed = registry.pack(id, &values);
    assert_eq!(packed, vec![1, 2]);
    assert_eq!(registry.unpack(id, &packed), values);
}

#[test]
fn a_value_is_copied_at_every_depth() {
    let value = Value::Struct(vec![
        Value::Int(-1),
        Value::UInt(2),
        Value::Float(3),
        Value::Double(4),
        Value::Bool(true),
        Value::Bytes(vec![5, 6]),
        Value::Struct(vec![Value::Struct(vec![]), Value::Bytes(vec![])]),
    ]);
    assert_eq!(value.duplicate(), value);
    assert_eq!(value.clone(), value);
}

#[test]
fn byte_order_follows_the_mode() {
    let registry = host();
    let native_big = u16::from_ne_bytes([0, 1]) == 1;
    assert_eq!(registry.big_endian(restruct::parser::Modifier::Native), native_big);
    assert_eq!(registry.big_endian(restruct::parser::Modifier::NativeStandard), native_big);
    assert!(!registry.big_endian(restruct::parser::Modifier::LittleEndian));
    assert!(registry.big_endian(restruct::parser::Modifier::BigEndian));
    let mut abi = Abi::lp64();
    abi.big_endian = true;
    let mut registry = Registry::new(abi).unwrap();
    let id = registry.compile("Foo", "=H").unwrap();
    assert_eq!(registry.pack(id, &vec![Value::UInt(0x0102)]), vec![1, 2]);
    let id = registry.compile("Foo", "@H").unwrap();
    assert_eq!(registry.pack(id, &vec![Value::UInt(0x0102)]), vec![1, 2]);
    let id = registry.compile("Foo", "<H").unwrap();
    assert_eq!(registry.pack(id, &vec![Value::UInt(0x0102)]), vec![2, 1]);
}

#[test]
fn strict_and_loose_checks() {
    let (registry, id) = one("<b");
    assert!(registry.check(id, &vec![Value::Int(200)], false));
    assert!(!registry.check(id, &vec![Value::Int(200)], true));
    assert!(registry.check(id, &vec![Value::Int(-100)], true));
}

#[test]
#[should_panic]
fn unpack_slice_panics() {
    let (registry, id) = one(">hh");
    let buf = vec![0, 1, 0];
    registry.unpack_checked(id, &buf).unwrap();
}

fn put(image: &mut Vec<u8>, at: usize, bytes: &[u8]) {
    image[at..at + bytes.len()].copy_from_slice(bytes);
}

#[test]
fn reach_the_turtle() {
    let mut registry = Registry::new(Abi::lp64()).unwrap();
    let id = registry.compile("Turtle", "@bhlbibqBHLbIbQ3s").unwrap();
    let mut image = vec![0xaau8; 88];
    put(&mut image, 0, &100i8.to_le_bytes());
    put(&mut image, 2, &(-32000i16).to_le_bytes());
    put(&mut image, 8, &(-200_000_000i64).to_le_bytes());
    put(&mut image, 16, &127i8.to_le_bytes());
    put(&mut image, 20, &(-1_000_000_000i32).to_le_bytes());
    put(&mut image, 24, &100i8.to_le_bytes());
    put(&mut image, 32, &10_000_000_000i64.to_le_bytes());
    put(&mut image, 40, &128u8.to_le_bytes());
    put(&mut image, 42, &32000u16.to_le_bytes());
    put(&mut image, 48, &400_000_000u64.to_le_bytes());
    put(&mut image, 56, &3i8.to_le_bytes());
    put(&mut image, 60, &300_000_000u32.to_le_bytes());
    put(&mut image, 64, &4i8.to_le_bytes());
    put(&mut image, 72, &100_000_000_000u64.to_le_bytes());
    put(&mut image, 80, &[1, 2, 3]);
    let u = registry.unpack_slice(id, &image);
    assert_eq!(u[0], Value::Int(100));
    assert_eq!(u[1], Value::Int(-32000));
    assert_eq!(u[2], Value::Int(-200_000_000));
    assert_eq!(u[3], Value::Int(127));
    assert_eq!(u[4], Value::Int(-1_000_000_000));
    assert_eq!(u[5], Value::Int(100));
    assert_eq!(u[6], Value::Int(10_000_000_000));
    assert_eq!(u[7], Value::UInt(128));
    assert_eq!(u[8], Value::UInt(32000));
    assert_eq!(u[9], Value::UInt(400_000_000));
    assert_eq!(u[10], Value::Int(3));
    assert_eq!(u[11], Value::UInt(300_000_000));
    assert_eq!(u[12], Value::Int(4));
    assert_eq!(u[13], Value::UInt(100_000_000_000));
    assert_eq!(u[14], Value::Bytes(vec![1, 2, 3]));
}

#[test]
fn reach_bottom_most_turtle() {
    let mut registry = Registry::new(Abi::lp64()).unwrap();
    registry.compile("LowerTurtle", "bQh").unwrap();
    let id = registry.compile("LowestTurtle", "i2`LowerTurtle`").unwrap();
    let mut image = vec![0x55u8; 56];
    put(&mut image, 0, &(-1i32).to_le_bytes());
    put(&mut image, 8, &100i8.to_le_bytes());
    put(&mut image, 16, &127u64.to_le_bytes());
    put(&mut image, 24, &128i16.to_le_bytes());
    put(&mut image, 32, &100i8.to_le_bytes());
    put(&mut image, 40, &10_000_000_000u64.to_le_bytes());
    put(&mut image, 48, &(-32000i16).to_le_bytes());
    let u = registry.unpack_slice(id, &image);
    assert_eq!(
        u,
        vec![
            Value::Int(-1),
            Value::Struct(vec![Value::Int(100), Value::UInt(127), Value::Int(128)]),
            Value::Struct(vec![Value::Int(100), Value::UInt(10_000_000_000), Value::Int(-32000)]),
        ]
    );
}
