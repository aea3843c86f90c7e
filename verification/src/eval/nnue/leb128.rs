//! Readers for the network file format: little-endian words, signed bytes and
//! compressed sections of variable-length integers.
//!
//! Every reader is described by a function from the bytes and a position to
//! what it returns and where it stops.

use vstd::prelude::*;

use crate::eval::nnue::v16::arch::LEB128_MAGIC;
use crate::math::{wrap16, wrap32};

verus! {

/// What a reader returns, and the position it leaves behind.
pub struct Parsed<T> {
    pub result: Result<T, &'static str>,
    pub pos: int,
}

/// The 8-bit two's complement value of a byte.
pub open spec fn wrap8(b: int) -> int {
    let r = b % 0x100;
    if r >= 0x80 {
        r - 0x100
    } else {
        r
    }
}

/// The 64-bit two's complement value congruent to `x`.
pub open spec fn wrap64(x: int) -> int {
    let r = x % 0x1_0000_0000_0000_0000;
    if r >= 0x8000_0000_0000_0000 {
        r - 0x1_0000_0000_0000_0000
    } else {
        r
    }
}

/// The numbers in a vector of signed bytes.
pub open spec fn ints8(v: Seq<i8>) -> Seq<int> {
    Seq::new(v.len(), |i: int| v[i] as int)
}

/// The numbers in a vector of 16-bit integers.
pub open spec fn ints16(v: Seq<i16>) -> Seq<int> {
    Seq::new(v.len(), |i: int| v[i] as int)
}

/// The numbers in a vector of 32-bit integers.
pub open spec fn ints32(v: Seq<i32>) -> Seq<int> {
    Seq::new(v.len(), |i: int| v[i] as int)
}

/// The signed value of a byte.
pub fn byte_as_i8(b: u8) -> (r: i8)
    ensures
        r == wrap8(b as int),
{
    if b >= 128 {
        (b as i16 - 256) as i8
    } else {
        b as i8
    }
}

/// Little-endian word at a position.
pub open spec fn word_at(data: Seq<u8>, pos: int) -> int {
    data[pos] as int + 0x100 * data[pos + 1] as int + 0x1_0000 * data[pos + 2] as int + 0x100_0000
        * data[pos + 3] as int
}

pub open spec fn parse_u32(data: Seq<u8>, pos: int) -> Parsed<int> {
    if pos + 4 > data.len() {
        Parsed { result: Err("truncated u32"), pos }
    } else {
        Parsed { result: Ok(word_at(data, pos)), pos: pos + 4 }
    }
}

pub fn read_u32_le(data: &[u8], pos: &mut usize) -> (r: Result<u32, &'static str>)
    ensures
        *final(pos) == parse_u32(data@, *old(pos) as int).pos,
        match parse_u32(data@, *old(pos) as int).result {
            Ok(v) => r matches Ok(w) && w == v,
            Err(e) => r == Err::<u32, &'static str>(e),
        },
{
    if data.len() < 4 || *pos > data.len() - 4 {
        return Err("truncated u32");
    }
    let p: usize = *pos;
    let v: u32 = data[p] as u32 + 0x100 * data[p + 1] as u32 + 0x1_0000 * data[p + 2] as u32
        + 0x100_0000 * data[p + 3] as u32;
    *pos = p + 4;
    Ok(v)
}

pub open spec fn parse_i32(data: Seq<u8>, pos: int) -> Parsed<int> {
    let p = parse_u32(data, pos);
    Parsed {
        result: match p.result {
            Ok(v) => Ok(wrap32(v)),
            Err(e) => Err(e),
        },
        pos: p.pos,
    }
}

/// The signed value of a 32-bit word.
fn word_as_i32(v: u32) -> (r: i32)
    ensures
        r == wrap32(v as int),
{
    if v >= 0x8000_0000 {
        (v as i64 - 0x1_0000_0000) as i32
    } else {
        v as i32
    }
}

pub fn read_i32_le(data: &[u8], pos: &mut usize) -> (r: Result<i32, &'static str>)
    ensures
        *final(pos) == parse_i32(data@, *old(pos) as int).pos,
        match parse_i32(data@, *old(pos) as int).result {
            Ok(v) => r matches Ok(w) && w == v,
            Err(e) => r == Err::<i32, &'static str>(e),
        },
{
    match read_u32_le(data, pos) {
        Ok(v) => Ok(word_as_i32(v)),
        Err(e) => Err(e),
    }
}

/// Weight of the `k`-th group of seven bits.
pub open spec fn group_weight(k: int) -> int
    decreases k,
{
    if k <= 0 {
        1
    } else {
        128 * group_weight(k - 1)
    }
}

/// Value of the first `n` groups, lowest first.
pub open spec fn groups(data: Seq<u8>, pos: int, n: int) -> int
    decreases n,
{
    if n <= 0 {
        0
    } else {
        groups(data, pos, n - 1) + data[pos + n - 1] as int % 128 * group_weight(n - 1)
    }
}

/// Value of a number of `n` groups: negative if the last group says so and
/// the groups do not already fill `bits` bits.
pub open spec fn signed_groups(data: Seq<u8>, pos: int, n: int, bits: int) -> int {
    if 7 * n < bits && data[pos + n - 1] as int % 128 >= 64 {
        groups(data, pos, n) - group_weight(n)
    } else {
        groups(data, pos, n)
    }
}

/// Reads on after `n` groups that all announced another one.
pub open spec fn parse_groups(data: Seq<u8>, pos: int, bits: int, n: int) -> Parsed<int>
    decreases data.len() - pos - n,
{
    if pos + n >= data.len() {
        Parsed { result: Err("truncated leb128 payload"), pos: pos + n }
    } else if data[pos + n] < 128 {
        Parsed { result: Ok(wrap64(signed_groups(data, pos, n + 1, bits))), pos: pos + n + 1 }
    } else if 7 * (n + 1) >= bits + 7 {
        Parsed { result: Err("leb128 overflow"), pos: pos + n + 1 }
    } else {
        parse_groups(data, pos, bits, n + 1)
    }
}

/// One variable-length integer.
pub open spec fn parse_leb128(data: Seq<u8>, pos: int, bits: int) -> Parsed<int> {
    parse_groups(data, pos, bits, 0)
}

proof fn lemma_group_weights()
    ensures
        group_weight(0) == 1,
        group_weight(1) == 0x80,
        group_weight(2) == 0x4000,
        group_weight(3) == 0x20_0000,
        group_weight(4) == 0x1000_0000,
        group_weight(5) == 0x8_0000_0000,
        group_weight(6) == 0x400_0000_0000,
        group_weight(7) == 0x2_0000_0000_0000,
        group_weight(8) == 0x100_0000_0000_0000,
        group_weight(9) == 0x8000_0000_0000_0000,
        group_weight(10) == 0x40_0000_0000_0000_0000,
{
    reveal_with_fuel(group_weight, 12);
}

proof fn lemma_groups_bound(data: Seq<u8>, pos: int, n: int)
    requires
        0 <= n,
    ensures
        0 <= groups(data, pos, n) < group_weight(n),
    decreases n,
{
    if n > 0 {
        lemma_groups_bound(data, pos, n - 1);
        let g = data[pos + n - 1] as int % 128;
        let w = group_weight(n - 1);
        assert(0 <= g * w <= 127 * w) by (nonlinear_arith)
            requires
                0 <= g <= 127,
                0 <= w,
        ;
    }
}

/// The 64-bit value of a wide integer.
fn wide_as_i64(v: i128) -> (r: i64)
    requires
        -0x100_0000_0000_0000_0000 <= v <= 0x100_0000_0000_0000_0000,
    ensures
        r == wrap64(v as int),
{
    let m: i128 = 0x1_0000_0000_0000_0000;
    let mut x: i128 = v;
    if x < 0 {
        x = x + 0x100_0000_0000_0000_0000;
        assert(x as int % 0x1_0000_0000_0000_0000 == v as int % 0x1_0000_0000_0000_0000);
    }
    let y: i128 = x % m;
    if y >= 0x8000_0000_0000_0000 {
        (y - m) as i64
    } else {
        y as i64
    }
}

/// Decodes one variable-length integer of up to `bits` bits. A 64-bit number
/// must not run to more than ten groups.
pub fn decode_leb128_i64(data: &[u8], pos: &mut usize, bits: u32) -> (r: Result<i64, &'static str>)
    requires
        bits <= 64,
        bits == 64 && *old(pos) + 10 < data.len() ==> exists|k: int|
            0 <= k < 10 && #[trigger] data@[*old(pos) + k] < 128,
    ensures
        *final(pos) == parse_leb128(data@, *old(pos) as int, bits as int).pos,
        match parse_leb128(data@, *old(pos) as int, bits as int).result {
            Ok(v) => r matches Ok(w) && w == v,
            Err(e) => r == Err::<i64, &'static str>(e),
        },
{
    let start: usize = *pos;
    let mut result: i128 = 0;
    let mut weight: i128 = 1;
    let mut n: u32 = 0;
    loop
        invariant
            bits <= 64,
            start == *old(pos),
            n <= 10,
            n == 10 ==> bits == 64,
            n > 0 ==> 7 * n < bits + 7,
            *pos == start + n,
            n > 0 ==> start + n <= data.len(),
            weight == group_weight(n as int),
            result == groups(data@, start as int, n as int),
            forall|k: int| 0 <= k < n ==> #[trigger] data@[start + k] >= 128,
            bits == 64 && start + 10 < data.len() ==> exists|k: int|
                0 <= k < 10 && #[trigger] data@[start + k] < 128,
            parse_leb128(data@, start as int, bits as int) == parse_groups(
                data@,
                start as int,
                bits as int,
                n as int,
            ),
        decreases data.len() - n,
    {
        if *pos >= data.len() {
            return Err("truncated leb128 payload");
        }
        proof {
            lemma_group_weights();
            lemma_groups_bound(data@, start as int, n as int);
            assert(n < 10);
        }
        let byte: u8 = data[*pos];
        let g: i128 = (byte % 128) as i128;
        proof {
            let w = weight as int;
            let gi = g as int;
            assert(0 <= gi * w <= 127 * w) by (nonlinear_arith)
                requires
                    0 <= gi <= 127,
                    0 <= w,
            ;
            lemma_groups_bound(data@, start as int, n + 1);
        }
        *pos = *pos + 1;
        result = result + g * weight;
        weight = weight * 128;
        n = n + 1;
        if byte < 128 {
            if 7 * n < bits && g >= 64 {
                result = result - weight;
            }
            return Ok(wide_as_i64(result));
        }
        if 7 * n >= bits + 7 {
            return Err("leb128 overflow");
        }
    }
}

pub open spec fn parse_leb128_i16(data: Seq<u8>, pos: int) -> Parsed<int> {
    let p = parse_leb128(data, pos, 16);
    Parsed {
        result: match p.result {
            Ok(v) => Ok(wrap16(v)),
            Err(e) => Err(e),
        },
        pos: p.pos,
    }
}

pub open spec fn parse_leb128_i32(data: Seq<u8>, pos: int) -> Parsed<int> {
    let p = parse_leb128(data, pos, 32);
    Parsed {
        result: match p.result {
            Ok(v) => Ok(wrap32(v)),
            Err(e) => Err(e),
        },
        pos: p.pos,
    }
}

/// The low 16 bits of a number, as a signed value.
pub fn low_i16(v: i64) -> (r: i16)
    ensures
        r == wrap16(v as int),
{
    let m: i128 = v as i128 + 0x1_0000_0000_0000_0000;
    assert(m as int % 0x1_0000 == v as int % 0x1_0000);
    let y: i128 = m % 0x1_0000;
    if y >= 0x8000 {
        (y - 0x1_0000) as i16
    } else {
        y as i16
    }
}

/// The low 32 bits of a number, as a signed value.
pub fn low_i32(v: i64) -> (r: i32)
    ensures
        r == wrap32(v as int),
{
    let m: i128 = v as i128 + 0x1_0000_0000_0000_0000;
    assert(m as int % 0x1_0000_0000 == v as int % 0x1_0000_0000);
    let y: i128 = m % 0x1_0000_0000;
    if y >= 0x8000_0000 {
        (y - 0x1_0000_0000) as i32
    } else {
        y as i32
    }
}

pub fn decode_leb128_i16(data: &[u8], pos: &mut usize) -> (r: Result<i16, &'static str>)
    ensures
        *final(pos) == parse_leb128_i16(data@, *old(pos) as int).pos,
        match parse_leb128_i16(data@, *old(pos) as int).result {
            Ok(v) => r matches Ok(w) && w == v,
            Err(e) => r == Err::<i16, &'static str>(e),
        },
{
    match decode_leb128_i64(data, pos, 16) {
        Ok(v) => Ok(low_i16(v)),
        Err(e) => Err(e),
    }
}

pub fn decode_leb128_i32(data: &[u8], pos: &mut usize) -> (r: Result<i32, &'static str>)
    ensures
        *final(pos) == parse_leb128_i32(data@, *old(pos) as int).pos,
        match parse_leb128_i32(data@, *old(pos) as int).result {
            Ok(v) => r matches Ok(w) && w == v,
            Err(e) => r == Err::<i32, &'static str>(e),
        },
{
    match decode_leb128_i64(data, pos, 32) {
        Ok(v) => Ok(low_i32(v)),
        Err(e) => Err(e),
    }
}

/// The shortest groups that a number can be read from: seven bits each, lowest
/// first, until the rest is told by the sign of the last.
pub open spec fn encoding(v: int) -> Seq<u8>
    decreases
            if v >= 0 {
                v
            } else {
                -v
            },
{
    if -64 <= v < 64 {
        seq![(v % 128) as u8]
    } else {
        seq![(v % 128 + 128) as u8] + encoding(v / 128)
    }
}

/// Whether a text starts with another at a position.
pub open spec fn holds_at(data: Seq<u8>, pos: int, e: Seq<u8>) -> bool {
    &&& 0 <= pos
    &&& pos + e.len() <= data.len()
    &&& forall|i: int| 0 <= i < e.len() ==> #[trigger] data[pos + i] == e[i]
}

/// A number of `k` groups at most.
proof fn lemma_encoding_len(v: int, k: int)
    requires
        1 <= k,
        -64 * group_weight(k - 1) <= v < 64 * group_weight(k - 1),
    ensures
        1 <= encoding(v).len() <= k,
    decreases k,
{
    if !(-64 <= v < 64) {
        if k == 1 {
            assert(group_weight(0) == 1);
        } else {
            let w = group_weight(k - 2);
            assert(group_weight(k - 1) == 128 * w);
            assert(-64 * w <= v / 128 < 64 * w);
            lemma_encoding_len(v / 128, k - 1);
        }
    }
}

/// All groups but the last announce another one.
proof fn lemma_encoding_marks(v: int)
    ensures
        encoding(v).len() >= 1,
        forall|i: int| 0 <= i < encoding(v).len() - 1 ==> #[trigger] encoding(v)[i] >= 128,
        encoding(v)[encoding(v).len() - 1] < 128,
    decreases
            if v >= 0 {
                v
            } else {
                -v
            },
{
    if !(-64 <= v < 64) {
        lemma_encoding_marks(v / 128);
        let e = encoding(v);
        let rest = encoding(v / 128);
        assert forall|i: int| 0 <= i < e.len() - 1 implies #[trigger] e[i] >= 128 by {
            if i > 0 {
                assert(e[i] == rest[i - 1]);
            }
        }
        assert(e[e.len() - 1] == rest[rest.len() - 1]);
    }
}

/// The lowest group can be read apart from the others.
proof fn lemma_groups_split(data: Seq<u8>, pos: int, n: int)
    requires
        1 <= n,
    ensures
        groups(data, pos, n) == data[pos] as int % 128 + 128 * groups(data, pos + 1, n - 1),
    decreases n,
{
    if n == 1 {
        assert(groups(data, pos, 0) == 0);
        assert(group_weight(0) == 1);
    } else {
        lemma_groups_split(data, pos, n - 1);
        let g = data[pos + n - 1] as int % 128;
        let w = group_weight(n - 2);
        assert(group_weight(n - 1) == 128 * w);
        assert(data[pos + 1 + (n - 1) - 1] == data[pos + n - 1]);
        assert(g * (128 * w) == 128 * (g * w)) by (nonlinear_arith);
    }
}

/// The groups of a number, signed by the last, are the number.
proof fn lemma_encoded_value(data: Seq<u8>, pos: int, v: int)
    requires
        holds_at(data, pos, encoding(v)),
    ensures
        ({
            let n = encoding(v).len() as int;
            groups(data, pos, n) == v + if v < 0 {
                group_weight(n)
            } else {
                0
            }
        }),
        data[pos + encoding(v).len() - 1] as int % 128 >= 64 <==> v < 0,
    decreases
            if v >= 0 {
                v
            } else {
                -v
            },
{
    let e = encoding(v);
    let n = e.len() as int;
    lemma_encoding_marks(v);
    lemma_groups_split(data, pos, n);
    assert(data[pos + 0] == e[0]);
    if -64 <= v < 64 {
        assert(group_weight(0) == 1 && group_weight(1) == 128 * group_weight(0));
        assert(groups(data, pos + 1, 0) == 0);
    } else {
        let rest = encoding(v / 128);
        assert forall|i: int| 0 <= i < rest.len() implies #[trigger] data[pos + 1 + i]
            == rest[i] by {
            assert(data[pos + (i + 1)] == e[i + 1]);
        }
        lemma_encoded_value(data, pos + 1, v / 128);
        assert(group_weight(n) == 128 * group_weight(n - 1));
        assert((v % 128 + 128) % 128 == v % 128);
    }
}

/// Reading goes on over groups that announce another one.
proof fn lemma_groups_go_on(data: Seq<u8>, pos: int, bits: int, j: int, n: int)
    requires
        0 <= pos,
        0 <= j <= n,
        pos + n <= data.len(),
        7 * n < bits + 7,
        forall|i: int| 0 <= i < n ==> #[trigger] data[pos + i] >= 128,
    ensures
        parse_groups(data, pos, bits, j) == parse_groups(data, pos, bits, n),
    decreases n - j,
{
    if j < n {
        lemma_groups_go_on(data, pos, bits, j + 1, n);
        assert(data[pos + j] >= 128);
    }
}

/// The groups of a number are read to the end, and give the number or, where
/// they fill all bits, the number without its sign.
proof fn lemma_encoded_read(data: Seq<u8>, pos: int, bits: int, v: int, k: int)
    requires
        holds_at(data, pos, encoding(v)),
        encoding(v).len() <= k,
        7 * (k - 1) < bits + 7,
    ensures
        ({
            let n = encoding(v).len() as int;
            let s = signed_groups(data, pos, n, bits);
            &&& parse_leb128(data, pos, bits) == (Parsed { result: Ok(wrap64(s)), pos: pos + n })
            &&& s == v || (7 * n >= bits && s == v + group_weight(n))
        }),
{
    let e = encoding(v);
    let n = e.len() as int;
    lemma_encoding_marks(v);
    lemma_encoded_value(data, pos, v);
    assert forall|i: int| 0 <= i < n - 1 implies #[trigger] data[pos + i] >= 128 by {
        assert(data[pos + i] == e[i]);
    }
    assert(data[pos + (n - 1)] == e[n - 1]);
    lemma_groups_go_on(data, pos, bits, 0, n - 1);
}

/// Decoding the shortest encoding of a number that fits in 16, 32 or 64 bits
/// gives the number back and stops behind it.
pub proof fn law_decodes_shortest_encoding(data: Seq<u8>, pos: int, bits: int, v: int)
    requires
        holds_at(data, pos, encoding(v)),
        bits == 16 || bits == 32 || bits == 64,
        bits == 16 ==> -0x8000 <= v < 0x8000,
        bits == 32 ==> -0x8000_0000 <= v < 0x8000_0000,
        bits == 64 ==> -0x8000_0000_0000_0000 <= v < 0x8000_0000_0000_0000,
    ensures
        ({
            let p = parse_leb128(data, pos, bits);
            &&& p.pos == pos + encoding(v).len()
            &&& p.result matches Ok(r) && (bits == 16 ==> wrap16(r) == v) && (bits == 32 ==> wrap32(r)
                == v) && (bits == 64 ==> r == v)
        }),
        bits == 16 ==> parse_leb128_i16(data, pos) == (Parsed {
            result: Ok(v),
            pos: pos + encoding(v).len(),
        }),
        bits == 32 ==> parse_leb128_i32(data, pos) == (Parsed {
            result: Ok(v),
            pos: pos + encoding(v).len(),
        }),
{
    lemma_weights_low();
    if bits == 16 {
        lemma_encoding_len(v, 3);
        lemma_encoded_read(data, pos, 16, v, 3);
        lemma_wrapped_low(v);
    } else if bits == 32 {
        lemma_encoding_len(v, 5);
        lemma_encoded_read(data, pos, 32, v, 5);
        lemma_wrapped_low(v);
    } else {
        lemma_encoding_len(v, 10);
        lemma_encoded_read(data, pos, 64, v, 10);
        lemma_wrapped_low(v);
    }
}

/// The weights that the widest numbers of each size reach.
proof fn lemma_weights_low()
    ensures
        group_weight(2) == 0x4000,
        group_weight(3) == 0x20_0000,
        group_weight(4) == 0x1000_0000,
        group_weight(5) == 0x8_0000_0000,
        group_weight(9) == 0x8000_0000_0000_0000,
        group_weight(10) == 0x40_0000_0000_0000_0000,
{
    lemma_group_weights();
}

/// A multiple of the range of a signed integer does not change its low bits.
proof fn lemma_wrapped_low(v: int)
    ensures
        -0x8000 <= v < 0x8000 ==> wrap16(wrap64(v)) == v && wrap16(wrap64(v + 0x20_0000)) == v,
        -0x8000_0000 <= v < 0x8000_0000 ==> wrap32(wrap64(v)) == v && wrap32(
            wrap64(v + 0x8_0000_0000),
        ) == v,
        -0x8000_0000_0000_0000 <= v < 0x8000_0000_0000_0000 ==> wrap64(v) == v && wrap64(
            v + 0x40_0000_0000_0000_0000,
        ) == v,
{
}

/// Data that ends inside the encoding of a number is reported as truncated.
pub proof fn law_cut_encoding_is_truncated(data: Seq<u8>, pos: int, bits: int, v: int)
    requires
        0 <= pos <= data.len() < pos + encoding(v).len(),
        forall|i: int| 0 <= i < data.len() - pos ==> #[trigger] data[pos + i] == encoding(v)[i],
        bits == 16 || bits == 32 || bits == 64,
        bits == 16 ==> -0x8000 <= v < 0x8000,
        bits == 32 ==> -0x8000_0000 <= v < 0x8000_0000,
        bits == 64 ==> -0x8000_0000_0000_0000 <= v < 0x8000_0000_0000_0000,
    ensures
        parse_leb128(data, pos, bits) == (Parsed::<int> {
            result: Err("truncated leb128 payload"),
            pos: data.len() as int,
        }),
{
    let n = data.len() - pos;
    lemma_group_weights();
    lemma_encoding_marks(v);
    if bits == 16 {
        lemma_encoding_len(v, 3);
    } else if bits == 32 {
        lemma_encoding_len(v, 5);
    } else {
        lemma_encoding_len(v, 10);
    }
    assert forall|i: int| 0 <= i < n implies #[trigger] data[pos + i] >= 128 by {
        assert(data[pos + i] == encoding(v)[i]);
    }
    lemma_groups_go_on(data, pos, bits, 0, n);
}

/// One number of a section: 16 bits wide, or 32.
pub open spec fn parse_item(wide: bool, data: Seq<u8>, pos: int) -> Parsed<int> {
    if wide {
        parse_leb128_i32(data, pos)
    } else {
        parse_leb128_i16(data, pos)
    }
}

/// A run of `n` numbers.
pub open spec fn parse_run(wide: bool, data: Seq<u8>, pos: int, n: int) -> Parsed<Seq<int>>
    decreases n,
{
    if n <= 0 {
        Parsed { result: Ok(Seq::empty()), pos }
    } else {
        let before = parse_run(wide, data, pos, n - 1);
        match before.result {
            Err(e) => before,
            Ok(items) => {
                let p = parse_item(wide, data, before.pos);
                match p.result {
                    Err(e) => Parsed { result: Err(e), pos: p.pos },
                    Ok(v) => Parsed { result: Ok(items.push(v)), pos: p.pos },
                }
            },
        }
    }
}

/// Once a run has failed it does not recover.
pub proof fn lemma_run_failed(wide: bool, data: Seq<u8>, pos: int, n: int, m: int)
    requires
        0 <= n <= m,
        parse_run(wide, data, pos, n).result is Err,
    ensures
        parse_run(wide, data, pos, m) == parse_run(wide, data, pos, n),
    decreases m,
{
    if n < m {
        lemma_run_failed(wide, data, pos, n, m - 1);
    }
}

/// A compressed section of `count` numbers: the magic bytes, a length that is
/// not used, and the numbers.
pub open spec fn parse_section(wide: bool, data: Seq<u8>, pos: int, count: int) -> Parsed<
    Seq<int>,
> {
    if pos + 17 > data.len() {
        Parsed { result: Err("truncated leb128 magic"), pos }
    } else if data.subrange(pos, pos + 17) != LEB128_MAGIC@ {
        Parsed { result: Err("bad leb128 magic"), pos }
    } else {
        let p = parse_u32(data, pos + 17);
        match p.result {
            Err(e) => Parsed { result: Err(e), pos: p.pos },
            Ok(_) => parse_run(wide, data, p.pos, count),
        }
    }
}

/// Whether the magic bytes stand at a position.
pub fn has_magic(data: &[u8], pos: usize) -> (r: bool)
    requires
        pos + 17 <= data.len(),
    ensures
        r == (data@.subrange(pos as int, pos + 17) == LEB128_MAGIC@),
{
    let mut i: usize = 0;
    while i < 17
        invariant
            i <= 17,
            pos + 17 <= data.len(),
            forall|k: int| 0 <= k < i ==> data@[pos + k] == LEB128_MAGIC@[k],
        decreases 17 - i,
    {
        if data[pos + i] != LEB128_MAGIC[i] {
            proof {
                assert(data@.subrange(pos as int, pos + 17)[i as int] != LEB128_MAGIC@[i as int]);
            }
            return false;
        }
        i = i + 1;
    }
    assert(data@.subrange(pos as int, pos + 17) =~= LEB128_MAGIC@);
    true
}

/// The header of a section: the magic bytes and the unused length.
fn read_section_header(data: &[u8], pos: &mut usize) -> (r: Result<(), &'static str>)
    ensures
        r matches Err(e) ==> forall|wide: bool, count: int|
            #[trigger] parse_section(wide, data@, *old(pos) as int, count).result == Err::<
                Seq<int>,
                &'static str,
            >(e) && parse_section(wide, data@, *old(pos) as int, count).pos == *final(pos),
        r is Ok ==> forall|wide: bool, count: int|
            #[trigger] parse_section(wide, data@, *old(pos) as int, count) == parse_run(
                wide,
                data@,
                *final(pos) as int,
                count,
            ),
{
    if data.len() < 17 || *pos > data.len() - 17 {
        return Err("truncated leb128 magic");
    }
    if !has_magic(data, *pos) {
        return Err("bad leb128 magic");
    }
    *pos = *pos + 17;
    match read_u32_le(data, pos) {
        Ok(_) => Ok(()),
        Err(e) => Err(e),
    }
}

/// Reads a compressed section of 16-bit numbers.
pub fn read_leb128_section_i16(data: &[u8], pos: &mut usize, count: usize) -> (r: Result<
    Vec<i16>,
    &'static str,
>)
    ensures
        *final(pos) == parse_section(false, data@, *old(pos) as int, count as int).pos,
        match parse_section(false, data@, *old(pos) as int, count as int).result {
            Ok(items) => r matches Ok(v) && ints16(v@) == items,
            Err(e) => r == Err::<Vec<i16>, &'static str>(e),
        },
{
    let ghost at = *pos as int;
    let header: Result<(), &'static str> = read_section_header(data, pos);
    if let Err(e) = header {
        assert(parse_section(false, data@, at, count as int).pos == *pos);
        return Err(e);
    }
    let ghost start = *pos as int;
    assert(parse_section(false, data@, at, count as int) == parse_run(
        false,
        data@,
        start,
        count as int,
    ));
    let mut out: Vec<i16> = Vec::new();
    let mut i: usize = 0;
    assert(ints16(out@) =~= Seq::<int>::empty());
    while i < count
        invariant
            i <= count,
            parse_run(false, data@, start, i as int).result == Ok::<Seq<int>, &'static str>(
                ints16(out@),
            ),
            parse_run(false, data@, start, i as int).pos == *pos,
            parse_section(false, data@, at, count as int) == parse_run(
                false,
                data@,
                start,
                count as int,
            ),
            at == *old(pos),
        decreases count - i,
    {
        match decode_leb128_i16(data, pos) {
            Ok(v) => {
                assert(ints16(out@.push(v)) =~= ints16(out@).push(v as int));
                out.push(v);
            },
            Err(e) => {
                proof {
                    lemma_run_failed(false, data@, start, i + 1, count as int);
                }
                return Err(e);
            },
        }
        i = i + 1;
    }
    Ok(out)
}

/// Reads a compressed section of 32-bit numbers.
pub fn read_leb128_section_i32(data: &[u8], pos: &mut usize, count: usize) -> (r: Result<
    Vec<i32>,
    &'static str,
>)
    ensures
        *final(pos) == parse_section(true, data@, *old(pos) as int, count as int).pos,
        match parse_section(true, data@, *old(pos) as int, count as int).result {
            Ok(items) => r matches Ok(v) && ints32(v@) == items,
            Err(e) => r == Err::<Vec<i32>, &'static str>(e),
        },
{
    let ghost at = *pos as int;
    let header: Result<(), &'static str> = read_section_header(data, pos);
    if let Err(e) = header {
        assert(parse_section(true, data@, at, count as int).pos == *pos);
        return Err(e);
    }
    let ghost start = *pos as int;
    assert(parse_section(true, data@, at, count as int) == parse_run(
        true,
        data@,
        start,
        count as int,
    ));
    let mut out: Vec<i32> = Vec::new();
    let mut i: usize = 0;
    assert(ints32(out@) =~= Seq::<int>::empty());
    while i < count
        invariant
            i <= count,
            parse_run(true, data@, start, i as int).result == Ok::<Seq<int>, &'static str>(
                ints32(out@),
            ),
            parse_run(true, data@, start, i as int).pos == *pos,
            parse_section(true, data@, at, count as int) == parse_run(
                true,
                data@,
                start,
                count as int,
            ),
            at == *old(pos),
        decreases count - i,
    {
        match decode_leb128_i32(data, pos) {
            Ok(v) => {
                assert(ints32(out@.push(v)) =~= ints32(out@).push(v as int));
                out.push(v);
            },
            Err(e) => {
                proof {
                    lemma_run_failed(true, data@, start, i + 1, count as int);
                }
                return Err(e);
            },
        }
        i = i + 1;
    }
    Ok(out)
}

/// A run of `n` signed bytes; `error` is returned where the data ends early.
pub open spec fn parse_bytes(data: Seq<u8>, pos: int, n: int, error: &'static str) -> Parsed<
    Seq<int>,
> {
    if pos + n > data.len() {
        Parsed {
            result: Err(error),
            pos: if pos > data.len() {
                pos
            } else {
                data.len() as int
            },
        }
    } else {
        Parsed { result: Ok(Seq::new(n as nat, |i: int| wrap8(data[pos + i] as int))), pos: pos + n }
    }
}

pub fn read_bytes(data: &[u8], pos: &mut usize, count: usize, error: &'static str) -> (r: Result<
    Vec<i8>,
    &'static str,
>)
    ensures
        *final(pos) == parse_bytes(data@, *old(pos) as int, count as int, error).pos,
        match parse_bytes(data@, *old(pos) as int, count as int, error).result {
            Ok(items) => r matches Ok(v) && ints8(v@) == items,
            Err(e) => r == Err::<Vec<i8>, &'static str>(e),
        },
{
    let start: usize = *pos;
    if start > data.len() {
        return Err(error);
    }
    if count > data.len() - start {
        *pos = data.len();
        return Err(error);
    }
    let mut out: Vec<i8> = Vec::new();
    let mut i: usize = 0;
    while i < count
        invariant
            i <= count,
            start + count <= data.len(),
            out.len() == i,
            forall|k: int| 0 <= k < i ==> #[trigger] out@[k] == wrap8(data@[start + k] as int),
        decreases count - i,
    {
        out.push(byte_as_i8(data[start + i]));
        i = i + 1;
    }
    *pos = start + count;
    assert(ints8(out@) =~= parse_bytes(data@, start as int, count as int, error).result->Ok_0);
    Ok(out)
}

/// A run of `n` little-endian 32-bit integers.
pub open spec fn parse_words(data: Seq<u8>, pos: int, n: int) -> Parsed<Seq<int>>
    decreases n,
{
    if n <= 0 {
        Parsed { result: Ok(Seq::empty()), pos }
    } else {
        let before = parse_words(data, pos, n - 1);
        match before.result {
            Err(e) => before,
            Ok(items) => {
                let p = parse_i32(data, before.pos);
                match p.result {
                    Err(e) => Parsed { result: Err(e), pos: p.pos },
                    Ok(v) => Parsed { result: Ok(items.push(v)), pos: p.pos },
                }
            },
        }
    }
}

pub proof fn lemma_words_failed(data: Seq<u8>, pos: int, n: int, m: int)
    requires
        0 <= n <= m,
        parse_words(data, pos, n).result is Err,
    ensures
        parse_words(data, pos, m) == parse_words(data, pos, n),
    decreases m,
{
    if n < m {
        lemma_words_failed(data, pos, n, m - 1);
    }
}

pub proof fn lemma_words_len(data: Seq<u8>, pos: int, n: int)
    requires
        0 <= n,
    ensures
        parse_words(data, pos, n).result matches Ok(items) ==> items.len() == n,
    decreases n,
{
    if n > 0 {
        lemma_words_len(data, pos, n - 1);
    }
}

/// Reads a run of 32 little-endian integers.
pub fn read_words_32(data: &[u8], pos: &mut usize) -> (r: Result<[i32; 32], &'static str>)
    ensures
        *final(pos) == parse_words(data@, *old(pos) as int, 32).pos,
        match parse_words(data@, *old(pos) as int, 32).result {
            Ok(items) => r matches Ok(v) && ints32(v@) == items,
            Err(e) => r == Err::<[i32; 32], &'static str>(e),
        },
{
    let ghost start = *pos as int;
    let mut out: [i32; 32] = [0i32; 32];
    let mut i: usize = 0;
    assert(ints32(out@.take(0)) =~= Seq::<int>::empty());
    while i < 32
        invariant
            i <= 32,
            start == *old(pos),
            parse_words(data@, start, i as int).result == Ok::<Seq<int>, &'static str>(
                ints32(out@.take(i as int)),
            ),
            parse_words(data@, start, i as int).pos == *pos,
        decreases 32 - i,
    {
        match read_i32_le(data, pos) {
            Ok(v) => {
                let ghost before = out@;
                out[i] = v;
                assert(ints32(out@.take(i + 1)) =~= ints32(before.take(i as int)).push(v as int));
            },
            Err(e) => {
                proof {
                    lemma_words_failed(data@, start, i + 1, 32);
                }
                return Err(e);
            },
        }
        i = i + 1;
    }
    assert(out@.take(32) =~= out@);
    Ok(out)
}

/// What was read stays the same when more data follows, and ends inside the
/// data.
pub open spec fn unmoved<T>(short: Parsed<T>, long: Parsed<T>, from: int, len: int) -> bool {
    short.result is Ok ==> long == short && from <= short.pos <= len
}

pub proof fn lemma_more_u32(d: Seq<u8>, s: Seq<u8>, pos: int)
    requires
        0 <= pos,
    ensures
        unmoved(parse_u32(d, pos), parse_u32(d + s, pos), pos, d.len() as int),
        unmoved(parse_i32(d, pos), parse_i32(d + s, pos), pos, d.len() as int),
{
    if pos + 4 <= d.len() {
        let x = d + s;
        assert(x[pos] == d[pos]);
        assert(x[pos + 1] == d[pos + 1]);
        assert(x[pos + 2] == d[pos + 2]);
        assert(x[pos + 3] == d[pos + 3]);
    }
}

proof fn lemma_more_groups_value(d: Seq<u8>, s: Seq<u8>, pos: int, n: int)
    requires
        0 <= pos,
        pos + n <= d.len(),
    ensures
        groups(d + s, pos, n) == groups(d, pos, n),
    decreases n,
{
    if n > 0 {
        lemma_more_groups_value(d, s, pos, n - 1);
        assert((d + s)[pos + n - 1] == d[pos + n - 1]);
    }
}

proof fn lemma_more_groups(d: Seq<u8>, s: Seq<u8>, pos: int, bits: int, n: int)
    requires
        0 <= pos,
        0 <= n,
    ensures
        unmoved(
            parse_groups(d, pos, bits, n),
            parse_groups(d + s, pos, bits, n),
            pos + n + 1,
            d.len() as int,
        ),
    decreases d.len() - pos - n,
{
    if pos + n < d.len() {
        assert((d + s)[pos + n] == d[pos + n]);
        if d[pos + n] < 128 {
            lemma_more_groups_value(d, s, pos, n + 1);
        } else if 7 * (n + 1) < bits + 7 {
            lemma_more_groups(d, s, pos, bits, n + 1);
        }
    }
}

/// A run takes at least one byte for each number.
pub proof fn lemma_more_run(wide: bool, d: Seq<u8>, s: Seq<u8>, pos: int, n: int)
    requires
        0 <= pos,
        pos <= d.len(),
        0 <= n,
    ensures
        unmoved(
            parse_run(wide, d, pos, n),
            parse_run(wide, d + s, pos, n),
            pos + n,
            d.len() as int,
        ),
    decreases n,
{
    if n > 0 {
        lemma_more_run(wide, d, s, pos, n - 1);
        let before = parse_run(wide, d, pos, n - 1);
        if before.result is Ok {
            lemma_more_groups(
                d,
                s,
                before.pos,
                if wide {
                    32
                } else {
                    16
                },
                0,
            );
        }
    }
}

pub proof fn lemma_more_section(wide: bool, d: Seq<u8>, s: Seq<u8>, pos: int, count: int)
    requires
        0 <= pos,
        0 <= count,
    ensures
        unmoved(
            parse_section(wide, d, pos, count),
            parse_section(wide, d + s, pos, count),
            pos + 21 + count,
            d.len() as int,
        ),
{
    if pos + 17 <= d.len() {
        assert((d + s).subrange(pos, pos + 17) =~= d.subrange(pos, pos + 17));
        lemma_more_u32(d, s, pos + 17);
        if parse_u32(d, pos + 17).result is Ok {
            lemma_more_run(wide, d, s, pos + 21, count);
        }
    }
}

pub proof fn lemma_more_bytes(d: Seq<u8>, s: Seq<u8>, pos: int, n: int, error: &'static str)
    requires
        0 <= pos,
        0 <= n,
    ensures
        unmoved(
            parse_bytes(d, pos, n, error),
            parse_bytes(d + s, pos, n, error),
            pos + n,
            d.len() as int,
        ),
{
    if pos + n <= d.len() {
        assert(Seq::new(n as nat, |i: int| wrap8((d + s)[pos + i] as int)) =~= Seq::new(
            n as nat,
            |i: int| wrap8(d[pos + i] as int),
        ));
    }
}

pub proof fn lemma_more_words(d: Seq<u8>, s: Seq<u8>, pos: int, n: int)
    requires
        0 <= pos,
        pos <= d.len(),
        0 <= n,
    ensures
        unmoved(parse_words(d, pos, n), parse_words(d + s, pos, n), pos, d.len() as int),
    decreases n,
{
    if n > 0 {
        lemma_more_words(d, s, pos, n - 1);
        let before = parse_words(d, pos, n - 1);
        if before.result is Ok {
            lemma_more_u32(d, s, before.pos);
        }
    }
}

/// A word of four bytes is read with the low byte first, and the reader stops
/// behind it; without four bytes nothing is read.
pub proof fn law_word_reads_four_bytes(data: Seq<u8>, pos: int, v: int)
    requires
        0 <= pos,
        0 <= v < 0x1_0000_0000,
        pos + 4 <= data.len() ==> data[pos] == v % 256 && data[pos + 1] == v / 256 % 256 && data[pos
            + 2] == v / 65_536 % 256 && data[pos + 3] == v / 16_777_216,
    ensures
        pos + 4 <= data.len() ==> parse_u32(data, pos) == (Parsed { result: Ok(v), pos: pos + 4 }),
        pos + 4 <= data.len() && v < 0x8000_0000 ==> parse_i32(data, pos).result == Ok::<
            int,
            &'static str,
        >(v),
        pos + 4 <= data.len() && v >= 0x8000_0000 ==> parse_i32(data, pos).result == Ok::<
            int,
            &'static str,
        >(v - 0x1_0000_0000),
        pos + 4 > data.len() ==> parse_u32(data, pos).result is Err && parse_u32(data, pos).pos
            == pos,
{
}

/// Words are read one after the other, as many as are asked for; they are there
/// exactly where the data holds four bytes for each.
#[verifier::rlimit(60)]
pub proof fn law_words_follow_each_other(data: Seq<u8>, pos: int, n: int)
    requires
        0 <= pos,
        0 <= n,
    ensures
        parse_words(data, pos, n).result is Ok <==> n == 0 || pos + 4 * n <= data.len(),
        parse_words(data, pos, n).result matches Ok(items) ==> parse_words(data, pos, n).pos == pos
            + 4 * n && items.len() == n && forall|i: int|
            0 <= i < n ==> #[trigger] items[i] == wrap32(
                data[pos + 4 * i] + 256 * data[pos + 4 * i + 1] + 65_536 * data[pos + 4 * i + 2]
                    + 16_777_216 * data[pos + 4 * i + 3],
            ),
    decreases n,
{
    if n > 0 {
        law_words_follow_each_other(data, pos, n - 1);
    }
}

/// Bytes are read as signed numbers, as many as are asked for; they are there
/// exactly where the data holds them.
pub proof fn law_bytes_are_signed(data: Seq<u8>, pos: int, n: int, error: &'static str, i: int)
    requires
        0 <= pos,
        0 <= n,
    ensures
        parse_bytes(data, pos, n, error).result is Ok <==> pos + n <= data.len(),
        parse_bytes(data, pos, n, error).result matches Ok(items) ==> items.len() == n
            && parse_bytes(data, pos, n, error).pos == pos + n && (0 <= i < n ==> (data[pos + i]
            < 128 ==> items[i] == data[pos + i]) && (data[pos + i] >= 128 ==> items[i] == data[pos
            + i] - 256)),
        pos + n > data.len() ==> parse_bytes(data, pos, n, error).result == Err::<
            Seq<int>,
            &'static str,
        >(error),
{
}

/// The shortest encodings of a list of numbers, one after the other.
pub open spec fn encodings(items: Seq<int>) -> Seq<u8>
    decreases items.len(),
{
    if items.len() == 0 {
        Seq::empty()
    } else {
        encodings(items.drop_last()) + encoding(items.last())
    }
}

/// A run of numbers in their shortest encodings is read back in order.
#[verifier::rlimit(60)]
pub proof fn law_run_is_read_back(wide: bool, data: Seq<u8>, pos: int, items: Seq<int>)
    requires
        holds_at(data, pos, encodings(items)),
        forall|i: int|
            0 <= i < items.len() ==> if wide {
                -0x8000_0000 <= #[trigger] items[i] < 0x8000_0000
            } else {
                -0x8000 <= items[i] < 0x8000
            },
    ensures
        parse_run(wide, data, pos, items.len() as int) == (Parsed {
            result: Ok(items),
            pos: pos + encodings(items).len(),
        }),
    decreases items.len(),
{
    let n = items.len() as int;
    if n == 0 {
        assert(items =~= Seq::<int>::empty());
    } else {
        let front = items.drop_last();
        let v = items[n - 1];
        assert forall|i: int| 0 <= i < front.len() implies if wide {
            -0x8000_0000 <= #[trigger] front[i] < 0x8000_0000
        } else {
            -0x8000 <= front[i] < 0x8000
        } by {
            assert(front[i] == items[i]);
        }
        let e = encodings(items);
        let a = encodings(front);
        assert(holds_at(data, pos, a)) by {
            assert forall|i: int| 0 <= i < a.len() implies #[trigger] data[pos + i] == a[i] by {
                assert(e[i] == a[i]);
                assert(data[pos + i] == e[i]);
            }
        }
        law_run_is_read_back(wide, data, pos, front);
        let at = pos + a.len();
        assert(holds_at(data, at, encoding(v))) by {
            assert forall|i: int| 0 <= i < encoding(v).len() implies #[trigger] data[at + i]
                == encoding(v)[i] by {
                assert(e[a.len() + i] == encoding(v)[i]);
                assert(data[pos + (a.len() + i)] == e[a.len() + i]);
            }
        }
        law_decodes_shortest_encoding(
            data,
            at,
            if wide {
                32
            } else {
                16
            },
            v,
        );
        assert(front.push(v) =~= items);
    }
}

/// A section is its mark, four bytes that say how long it is, and its numbers.
pub proof fn law_section_is_read_back(wide: bool, data: Seq<u8>, pos: int, items: Seq<int>)
    requires
        0 <= pos,
        pos + 21 <= data.len(),
        data.subrange(pos, pos + 17) == LEB128_MAGIC@,
        holds_at(data, pos + 21, encodings(items)),
        forall|i: int|
            0 <= i < items.len() ==> if wide {
                -0x8000_0000 <= #[trigger] items[i] < 0x8000_0000
            } else {
                -0x8000 <= items[i] < 0x8000
            },
    ensures
        parse_section(wide, data, pos, items.len() as int) == (Parsed {
            result: Ok(items),
            pos: pos + 21 + encodings(items).len(),
        }),
{
    law_run_is_read_back(wide, data, pos + 21, items);
}

} // verus!
