//! Integers as bytes: base-256 digits in little- or big-endian order, and
//! two's complement for signed values.

use vstd::arithmetic::div_mod::{
    lemma_fundamental_div_mod,
    lemma_mod_add_multiples_vanish,
    lemma_mod_breakdown,
    lemma_mod_mod,
    lemma_small_mod,
};
use vstd::prelude::*;

verus! {

/// 256 to the power `n`: the number of values that `n` bytes can hold.
pub open spec fn pow256(n: nat) -> nat
    decreases n,
{
    if n == 0 {
        1
    } else {
        256 * pow256((n - 1) as nat)
    }
}

/// The powers of 256 up to the eighth, which is 2^64.
pub proof fn lemma_pow256_values()
    ensures
        pow256(0) == 1,
        pow256(1) == 0x100,
        pow256(2) == 0x1_0000,
        pow256(3) == 0x100_0000,
        pow256(4) == 0x1_0000_0000,
        pow256(5) == 0x100_0000_0000,
        pow256(6) == 0x1_0000_0000_0000,
        pow256(7) == 0x100_0000_0000_0000,
        pow256(8) == 0x1_0000_0000_0000_0000,
{
    reveal_with_fuel(pow256, 9);
}

/// A power of 256 is positive and grows with its exponent.
pub proof fn lemma_pow256_monotonic(a: nat, b: nat)
    requires
        a <= b,
    ensures
        0 < pow256(a) <= pow256(b),
    decreases b,
{
    if b == 0 {
    } else if a == b {
        lemma_pow256_monotonic((a - 1) as nat, (b - 1) as nat);
    } else {
        lemma_pow256_monotonic(a, (b - 1) as nat);
    }
}

/// 256^(a + b) is 256^a times 256^b.
pub proof fn lemma_pow256_add(a: nat, b: nat)
    ensures
        pow256(a + b) == pow256(a) * pow256(b),
    decreases a,
{
    let y = pow256(b);
    if a == 0 {
        assert(pow256(a) * y == y) by (nonlinear_arith)
            requires
                pow256(a) == 1,
        ;
    } else {
        lemma_pow256_add((a - 1) as nat, b);
        let x = pow256((a - 1) as nat);
        assert(pow256(a + b) == 256 * pow256(((a - 1) as nat) + b));
        assert(pow256(a) * y == 256 * (x * y)) by (nonlinear_arith)
            requires
                pow256(a) == 256 * x,
        ;
    }
}

/// The `width` low base-256 digits of `v`, least significant first.
pub open spec fn le_bytes(v: nat, width: nat) -> Seq<u8>
    decreases width,
{
    if width == 0 {
        Seq::empty()
    } else {
        seq![(v % 256) as u8] + le_bytes(v / 256, (width - 1) as nat)
    }
}

/// The number whose base-256 digits, least significant first, are `b`.
pub open spec fn le_value(b: Seq<u8>) -> nat
    decreases b.len(),
{
    if b.len() == 0 {
        0
    } else {
        b[0] as nat + 256 * le_value(b.drop_first())
    }
}

/// The digits of a number at a width are as many as the width says.
pub proof fn lemma_le_bytes_len(v: nat, width: nat)
    ensures
        le_bytes(v, width).len() == width,
    decreases width,
{
    if width > 0 {
        lemma_le_bytes_len(v / 256, (width - 1) as nat);
    }
}

/// `n` bytes hold a number below 256^`n`.
pub proof fn lemma_le_value_bound(b: Seq<u8>)
    ensures
        le_value(b) < pow256(b.len()),
    decreases b.len(),
{
    if b.len() > 0 {
        lemma_le_value_bound(b.drop_first());
    }
}

/// Reading back the `width` low digits of `v` gives `v` modulo 256^`width`.
pub proof fn lemma_le_round_trip(v: nat, width: nat)
    ensures
        le_value(le_bytes(v, width)) == v % pow256(width),
    decreases width,
{
    if width == 0 {
    } else {
        let rest = le_bytes(v / 256, (width - 1) as nat);
        let all = le_bytes(v, width);
        lemma_le_round_trip(v / 256, (width - 1) as nat);
        lemma_le_bytes_len(v, width);
        assert(all.drop_first() =~= rest);
        lemma_pow256_monotonic(0, (width - 1) as nat);
        lemma_mod_breakdown(v as int, 256, pow256((width - 1) as nat) as int);
    }
}

/// The bytes of `v` at `width`, in the order asked for.
pub open spec fn spec_encode_unsigned(v: nat, width: nat, big_endian: bool) -> Seq<u8> {
    if big_endian {
        le_bytes(v, width).reverse()
    } else {
        le_bytes(v, width)
    }
}

/// The number that `b` holds, read in the order asked for.
pub open spec fn spec_decode_unsigned(b: Seq<u8>, big_endian: bool) -> nat {
    if big_endian {
        le_value(b.reverse())
    } else {
        le_value(b)
    }
}

/// Reversing twice gives the bytes back.
pub proof fn lemma_reverse_twice(b: Seq<u8>)
    ensures
        b.reverse().reverse() == b,
        b.reverse().len() == b.len(),
{
    assert(b.reverse().reverse() =~= b);
}

/// Decoding what `v` was encoded to at `width` bytes gives `v` modulo
/// 256^`width`, in either order.
pub proof fn lemma_unsigned_round_trip(v: nat, width: nat, big_endian: bool)
    ensures
        spec_encode_unsigned(v, width, big_endian).len() == width,
        spec_decode_unsigned(spec_encode_unsigned(v, width, big_endian), big_endian) == v % pow256(
            width,
        ),
{
    lemma_le_bytes_len(v, width);
    lemma_le_round_trip(v, width);
    lemma_reverse_twice(le_bytes(v, width));
}

/// `n` bytes hold a number below 256^`n`, in either order.
pub proof fn lemma_decode_unsigned_bound(b: Seq<u8>, big_endian: bool)
    ensures
        spec_decode_unsigned(b, big_endian) < pow256(b.len()),
{
    lemma_le_value_bound(b);
    lemma_le_value_bound(b.reverse());
    lemma_reverse_twice(b);
}

/// The two's-complement pattern of `v` at `width` bytes, as a number.
pub open spec fn twos_complement(v: int, width: nat) -> nat {
    (v % (pow256(width) as int)) as nat
}

/// The signed value that the pattern `u` stands for at `width` bytes.
pub open spec fn from_twos_complement(u: nat, width: nat) -> int {
    if 2 * u >= pow256(width) {
        u - pow256(width)
    } else {
        u as int
    }
}

/// Whether `v` is a signed value of `width` bytes.
pub open spec fn fits_signed(v: int, width: nat) -> bool {
    -(pow256(width) as int) <= 2 * v < pow256(width)
}

/// Whether `v` is an unsigned value of `width` bytes.
pub open spec fn fits_unsigned(v: nat, width: nat) -> bool {
    v < pow256(width)
}

/// The bytes of `v` in two's complement at `width`, in the order asked for.
pub open spec fn spec_encode_signed(v: int, width: nat, big_endian: bool) -> Seq<u8> {
    spec_encode_unsigned(twos_complement(v, width), width, big_endian)
}

/// The signed number that `b` holds in two's complement, read in the order
/// asked for.
pub open spec fn spec_decode_signed(b: Seq<u8>, big_endian: bool) -> int {
    from_twos_complement(spec_decode_unsigned(b, big_endian), b.len())
}

/// A pattern of `width` bytes is below 256^`width`.
pub proof fn lemma_twos_complement_bound(v: int, width: nat)
    ensures
        twos_complement(v, width) < pow256(width),
        v % (pow256(width) as int) >= 0,
{
    lemma_pow256_monotonic(0, width);
    lemma_fundamental_div_mod(v, pow256(width) as int);
}

/// A signed value of `width` bytes is the value of its pattern.
pub proof fn lemma_twos_complement_round_trip(v: int, width: nat)
    requires
        fits_signed(v, width),
    ensures
        from_twos_complement(twos_complement(v, width), width) == v,
{
    let p = pow256(width) as int;
    lemma_pow256_monotonic(0, width);
    if v >= 0 {
        lemma_small_mod(v as nat, p as nat);
    } else {
        lemma_mod_add_multiples_vanish(v, p);
        lemma_small_mod((p + v) as nat, p as nat);
    }
}

/// Every pattern of `width` bytes stands for a signed value of `width` bytes.
pub proof fn lemma_from_twos_complement_fits(u: nat, width: nat)
    requires
        u < pow256(width),
    ensures
        fits_signed(from_twos_complement(u, width), width),
{
}

/// Decoding what a signed value of `width` bytes was encoded to gives the
/// value back, in either order.
pub proof fn lemma_signed_round_trip(v: int, width: nat, big_endian: bool)
    requires
        fits_signed(v, width),
    ensures
        spec_encode_signed(v, width, big_endian).len() == width,
        spec_decode_signed(spec_encode_signed(v, width, big_endian), big_endian) == v,
{
    let u = twos_complement(v, width);
    lemma_twos_complement_bound(v, width);
    lemma_unsigned_round_trip(u, width, big_endian);
    lemma_small_mod(u, pow256(width));
    lemma_twos_complement_round_trip(v, width);
}

/// A sequence of `n` zero bytes.
pub open spec fn zeros(n: nat) -> Seq<u8> {
    Seq::new(n, |i: int| 0u8)
}

/// The bytes of `v` in reverse order.
pub fn reversed(v: &Vec<u8>) -> (r: Vec<u8>)
    ensures
        r@ == v@.reverse(),
{
    let mut r: Vec<u8> = Vec::new();
    let mut i: usize = v.len();
    while i > 0
        invariant
            i <= v.len(),
            r.len() == v.len() - i,
            forall|k: int| 0 <= k < r.len() ==> r[k] == v[v.len() - 1 - k],
        decreases i,
    {
        i = i - 1;
        r.push(v[i]);
    }
    assert(r@ =~= v@.reverse());
    r
}

/// The `width` low bytes of `value`, in the order asked for. A value that
/// needs more bytes loses its high ones.
pub fn encode_unsigned(value: u64, width: usize, big_endian: bool) -> (bytes: Vec<u8>)
    ensures
        bytes@ == spec_encode_unsigned(value as nat, width as nat, big_endian),
        bytes.len() == width,
{
    let mut le: Vec<u8> = Vec::new();
    let mut rest: u64 = value;
    while le.len() < width
        invariant
            le.len() <= width,
            le_bytes(value as nat, width as nat) == le@ + le_bytes(
                rest as nat,
                (width - le.len()) as nat,
            ),
        decreases width - le.len(),
    {
        let ghost before = le@;
        let ghost tail = le_bytes((rest / 256) as nat, (width - le.len() - 1) as nat);
        let b: u8 = (rest % 256) as u8;
        assert(before + (seq![b] + tail) =~= before.push(b) + tail);
        le.push(b);
        rest = rest / 256;
    }
    proof {
        assert(le@ + Seq::<u8>::empty() =~= le@);
        lemma_le_bytes_len(value as nat, width as nat);
    }
    if big_endian {
        reversed(&le)
    } else {
        le
    }
}

/// The number held in the `width` bytes from `start` on, read in the order
/// asked for.
pub fn decode_unsigned(bytes: &[u8], start: usize, width: usize, big_endian: bool) -> (value: u64)
    requires
        width <= 8,
        start + width <= bytes.len(),
    ensures
        value == spec_decode_unsigned(
            bytes@.subrange(start as int, start + width),
            big_endian,
        ),
{
    let ghost region = bytes@.subrange(start as int, start + width);
    let mut acc: u64 = 0;
    proof {
        lemma_pow256_values();
    }
    if big_endian {
        let mut i: usize = 0;
        while i < width
            invariant
                i <= width <= 8,
                start + width <= bytes.len(),
                region == bytes@.subrange(start as int, start + width),
                acc == le_value(region.subrange(0, i as int).reverse()),
                acc < pow256(i as nat),
            decreases width - i,
        {
            let ghost prev = region.subrange(0, i as int).reverse();
            let ghost next = region.subrange(0, i + 1).reverse();
            proof {
                assert(next.drop_first() =~= prev);
                assert(next[0] == region[i as int]);
                lemma_pow256_values();
                lemma_pow256_monotonic((i + 1) as nat, 8);
            }
            acc = acc * 256 + bytes[start + i] as u64;
            i = i + 1;
        }
        assert(region.subrange(0, width as int) =~= region);
    } else {
        let mut i: usize = width;
        while i > 0
            invariant
                i <= width <= 8,
                start + width <= bytes.len(),
                region == bytes@.subrange(start as int, start + width),
                acc == le_value(region.subrange(i as int, width as int)),
                acc < pow256((width - i) as nat),
            decreases i,
        {
            let ghost prev = region.subrange(i as int, width as int);
            let ghost next = region.subrange(i - 1, width as int);
            proof {
                assert(next.drop_first() =~= prev);
                assert(next[0] == region[i - 1]);
                lemma_pow256_values();
                lemma_pow256_monotonic((width - i + 1) as nat, 8);
            }
            i = i - 1;
            acc = acc * 256 + bytes[start + i] as u64;
        }
        assert(region.subrange(0, width as int) =~= region);
    }
    acc
}

/// The largest unsigned value of `width` bytes.
pub fn max_unsigned(width: usize) -> (max: u64)
    requires
        width <= 8,
    ensures
        max == pow256(width as nat) - 1,
{
    let mut max: u64 = 0;
    let mut i: usize = 0;
    proof {
        lemma_pow256_values();
    }
    while i < width
        invariant
            i <= width <= 8,
            max == pow256(i as nat) - 1,
        decreases width - i,
    {
        proof {
            lemma_pow256_values();
            lemma_pow256_monotonic((i + 1) as nat, 8);
        }
        max = max * 256 + 255;
        i = i + 1;
    }
    max
}

/// The two's-complement pattern of `value` at `width` bytes.
pub fn to_twos_complement(value: i64, width: usize) -> (pattern: u64)
    requires
        width <= 8,
    ensures
        pattern == twos_complement(value as int, width as nat),
{
    proof {
        lemma_pow256_values();
        lemma_pow256_monotonic(0, width as nat);
        lemma_pow256_monotonic(width as nat, 8);
    }
    let wide: u64 = if value >= 0 {
        value as u64
    } else {
        u64::MAX - ((-(value + 1)) as u64)
    };
    proof {
        let p64 = pow256(8) as int;
        if value >= 0 {
            lemma_small_mod(value as nat, p64 as nat);
        } else {
            lemma_mod_add_multiples_vanish(value as int, p64);
            lemma_small_mod((p64 + value) as nat, p64 as nat);
        }
        assert(wide == (value as int) % p64);
        lemma_pow256_add(width as nat, (8 - width) as nat);
        lemma_pow256_monotonic(0, (8 - width) as nat);
        lemma_mod_mod(value as int, pow256(width as nat) as int, pow256((8 - width) as nat) as int);
    }
    if width == 8 {
        proof {
            lemma_small_mod(wide as nat, pow256(8));
        }
        wide
    } else {
        let max: u64 = max_unsigned(width);
        wide % (max + 1)
    }
}

/// The signed value that `pattern` stands for at `width` bytes.
pub fn of_twos_complement(pattern: u64, width: usize) -> (value: i64)
    requires
        1 <= width <= 8,
        pattern < pow256(width as nat),
    ensures
        value == from_twos_complement(pattern as nat, width as nat),
{
    proof {
        lemma_pow256_values();
        lemma_pow256_monotonic(1, width as nat);
        lemma_pow256_monotonic(width as nat, 8);
    }
    let max: u64 = max_unsigned(width);
    if pattern > max / 2 {
        -((max - pattern) as i64) - 1
    } else {
        pattern as i64
    }
}

/// The `width` bytes of `value` in two's complement, in the order asked for.
pub fn encode_signed(value: i64, width: usize, big_endian: bool) -> (bytes: Vec<u8>)
    requires
        width <= 8,
    ensures
        bytes@ == spec_encode_signed(value as int, width as nat, big_endian),
        bytes.len() == width,
{
    encode_unsigned(to_twos_complement(value, width), width, big_endian)
}

/// The signed number held in the `width` bytes from `start` on.
pub fn decode_signed(bytes: &[u8], start: usize, width: usize, big_endian: bool) -> (value: i64)
    requires
        1 <= width <= 8,
        start + width <= bytes.len(),
    ensures
        value == spec_decode_signed(bytes@.subrange(start as int, start + width), big_endian),
{
    let pattern: u64 = decode_unsigned(bytes, start, width, big_endian);
    proof {
        lemma_decode_unsigned_bound(bytes@.subrange(start as int, start + width), big_endian);
    }
    of_twos_complement(pattern, width)
}


/// Whether `value` is a signed value of `width` bytes.
pub fn signed_fits(value: i64, width: usize) -> (fits: bool)
    requires
        1 <= width <= 8,
    ensures
        fits == fits_signed(value as int, width as nat),
{
    let max: u64 = max_unsigned(width);
    let half: i64 = (max / 2) as i64;
    proof {
        lemma_pow256_values();
        lemma_pow256_monotonic((width - 1) as nat, 7);
        assert(pow256(width as nat) == 256 * pow256((width - 1) as nat));
    }
    value <= half && value >= -half - 1
}

/// Whether `value` is an unsigned value of `width` bytes.
pub fn unsigned_fits(value: u64, width: usize) -> (fits: bool)
    requires
        width <= 8,
    ensures
        fits == fits_unsigned(value as nat, width as nat),
{
    value <= max_unsigned(width)
}

} // verus!
