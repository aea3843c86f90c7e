//! The v10 network and its file format.

use vstd::prelude::*;

use crate::eval::nnue::leb128::{
    ints16, ints32, ints8, law_words_follow_each_other, lemma_words_failed, parse_bytes, parse_i32,
    parse_section, parse_u32, parse_words, read_bytes, read_i32_le, read_leb128_section_i16,
    read_u32_le, read_words_32, word_at, wrap8, Parsed,
};
use crate::eval::nnue::v16::arch::{
    scrambled_position, unscramble_table, PSQ_DIMS, SF_FILE_VERSION,
};
use crate::eval::nnue::v16::loader::{
    lemma_section_len, padded_width, parse_combined, parse_plain, read_combined, read_plain,
    SfnnTransformer, TransformerModel,
};
use crate::eval::nnue::v2::arch::{
    arch_hash, arch_hash_spec, network_hash, network_hash_spec, transformer_hash,
    transformer_hash_spec, THREAT_DIMS,
};
use crate::math::{lemma_wrapping_i16, wrap16, wrap32};

verus! {

/// Weights of one layer stack: three fully connected layers.
#[derive(Clone, Debug)]
pub struct SfnnArch {
    pub fc0_bias: [i32; 16],
    pub fc0_w: Vec<i8>,
    pub fc1_bias: [i32; 32],
    pub fc1_w: Vec<i8>,
    pub fc2_bias: i32,
    pub fc2_w: [i8; 32],
}

/// The numbers of a layer stack.
#[verifier::ext_equal]
pub struct StackModel {
    pub fc0_bias: Seq<int>,
    pub fc0_w: Seq<int>,
    pub fc1_bias: Seq<int>,
    pub fc1_w: Seq<int>,
    pub fc2_bias: int,
    pub fc2_w: Seq<int>,
}

/// Which number of the file belongs at place `m` of a weight matrix.
pub open spec fn source_of(m: int, out_dims: int, padded_in: int) -> int {
    m % (out_dims * 4) / 4 * padded_in + m / (out_dims * 4) * 4 + m % 4
}

/// Weights in matrix order.
pub open spec fn unscrambled(raw: Seq<int>, out_dims: int, padded_in: int) -> Seq<int> {
    Seq::new(
        (out_dims * padded_in) as nat,
        |m: int| raw[source_of(m, out_dims, padded_in)],
    )
}

/// Reading a number from its place undoes writing it there.
pub proof fn law_unscramble_inverts(m: int, out_dims: int, padded_in: int)
    requires
        0 < out_dims,
        4 <= padded_in,
        padded_in % 4 == 0,
        0 <= m < out_dims * padded_in,
    ensures
        0 <= source_of(m, out_dims, padded_in) < out_dims * padded_in,
        scrambled_position(source_of(m, out_dims, padded_in), out_dims, padded_in) == m,
{
    let d = out_dims * 4;
    let q = padded_in / 4;
    let b = m / d;
    let low = m % d;
    let r = low / 4;
    let c = low % 4;
    assert(padded_in == 4 * q);
    assert(m == b * d + low && 0 <= low < d && 0 <= b) by (nonlinear_arith)
        requires
            b == m / d,
            low == m % d,
            0 <= m,
            0 < d,
    ;
    assert(b < q) by (nonlinear_arith)
        requires
            m == b * d + low,
            0 <= low,
            m < out_dims * padded_in,
            padded_in == 4 * q,
            d == out_dims * 4,
            0 < out_dims,
    ;
    assert(b * d == 4 * (b * out_dims)) by (nonlinear_arith)
        requires
            d == out_dims * 4,
    ;
    assert(m % 4 == c);
    let i = source_of(m, out_dims, padded_in);
    let col = b * 4 + c;
    assert(i == r * padded_in + col);
    assert(0 <= col < padded_in);
    assert(i / padded_in == r && i % padded_in == col) by (nonlinear_arith)
        requires
            i == r * padded_in + col,
            0 <= col < padded_in,
            0 <= r,
    ;
    assert(0 <= i < out_dims * padded_in) by (nonlinear_arith)
        requires
            i == r * padded_in + col,
            0 <= col < padded_in,
            0 <= r < out_dims,
    ;
    assert(r * padded_in == 4 * (r * q)) by (nonlinear_arith)
        requires
            padded_in == 4 * q,
    ;
    assert(i % 4 == c);
    assert(col / 4 == b);
}

fn unscramble(raw: &Vec<i8>, out_dims: usize, padded_in: usize) -> (r: Vec<i8>)
    requires
        0 < out_dims,
        padded_in % 4 == 0,
        out_dims * padded_in <= usize::MAX,
        raw.len() == out_dims * padded_in,
    ensures
        ints8(r@) == unscrambled(ints8(raw@), out_dims as int, padded_in as int),
{
    let mut r: Vec<i8> = Vec::new();
    if padded_in == 0 {
        assert(out_dims * padded_in == 0) by (nonlinear_arith)
            requires
                padded_in == 0,
        ;
        assert(ints8(r@) =~= unscrambled(ints8(raw@), out_dims as int, padded_in as int));
        return r;
    }
    let inv: Vec<usize> = unscramble_table(out_dims, padded_in);
    let mut m: usize = 0;
    while m < inv.len()
        invariant
            m <= inv.len(),
            r.len() == m,
            0 < out_dims,
            4 <= padded_in,
            padded_in % 4 == 0,
            inv.len() == out_dims * padded_in,
            raw.len() == out_dims * padded_in,
            forall|i: int|
                0 <= i < out_dims * padded_in ==> #[trigger] scrambled_position(
                    i,
                    out_dims as int,
                    padded_in as int,
                ) < inv.len() && inv@[scrambled_position(i, out_dims as int, padded_in as int)]
                    == i,
            forall|k: int|
                0 <= k < m ==> #[trigger] r@[k] == raw@[source_of(
                    k,
                    out_dims as int,
                    padded_in as int,
                )],
        decreases inv.len() - m,
    {
        proof {
            law_unscramble_inverts(m as int, out_dims as int, padded_in as int);
            let i = source_of(m as int, out_dims as int, padded_in as int);
            assert(inv@[scrambled_position(i, out_dims as int, padded_in as int)] == i);
        }
        r.push(raw[inv[m]]);
        m = m + 1;
    }
    proof {
        assert forall|k: int| 0 <= k < r.len() implies #[trigger] ints8(r@)[k] == unscrambled(
            ints8(raw@),
            out_dims as int,
            padded_in as int,
        )[k] by {
            law_unscramble_inverts(k, out_dims as int, padded_in as int);
        }
        assert(ints8(r@) =~= unscrambled(ints8(raw@), out_dims as int, padded_in as int));
    }
    r
}

/// A layer stack in a file: fingerprint, then biases and weights layer by
/// layer.
pub open spec fn parse_stack(data: Seq<u8>, pos: int, fc0_in: int, expected_hash: int) -> Parsed<
    StackModel,
> {
    let hash = parse_u32(data, pos);
    match hash.result {
        Err(e) => Parsed { result: Err(e), pos: hash.pos },
        Ok(h) => if h != expected_hash {
            Parsed { result: Err("arch hash mismatch"), pos: hash.pos }
        } else {
            let b0 = parse_words(data, hash.pos, 16);
            match b0.result {
                Err(e) => Parsed { result: Err(e), pos: b0.pos },
                Ok(fc0_bias) => {
                    let width = padded_width(fc0_in);
                    let w0 = parse_bytes(data, b0.pos, 16 * width, "truncated fc0 weights");
                    match w0.result {
                        Err(e) => Parsed { result: Err(e), pos: w0.pos },
                        Ok(raw0) => parse_stack_tail(
                            data,
                            w0.pos,
                            fc0_bias,
                            unscrambled(raw0, 16, width),
                        ),
                    }
                },
            }
        },
    }
}

/// The second and third layer of a stack.
pub open spec fn parse_stack_tail(
    data: Seq<u8>,
    pos: int,
    fc0_bias: Seq<int>,
    fc0_w: Seq<int>,
) -> Parsed<StackModel> {
    let b1 = parse_words(data, pos, 32);
    match b1.result {
        Err(e) => Parsed { result: Err(e), pos: b1.pos },
        Ok(fc1_bias) => {
            let w1 = parse_bytes(data, b1.pos, 1024, "truncated fc1 weights");
            match w1.result {
                Err(e) => Parsed { result: Err(e), pos: w1.pos },
                Ok(raw1) => {
                    let b2 = parse_i32(data, w1.pos);
                    match b2.result {
                        Err(e) => Parsed { result: Err(e), pos: b2.pos },
                        Ok(fc2_bias) => {
                            let w2 = parse_bytes(data, b2.pos, 32, "truncated fc2 weights");
                            match w2.result {
                                Err(e) => Parsed { result: Err(e), pos: w2.pos },
                                Ok(raw2) => Parsed {
                                    result: Ok(
                                        StackModel {
                                            fc0_bias,
                                            fc0_w,
                                            fc1_bias,
                                            fc1_w: unscrambled(raw1, 32, 32),
                                            fc2_bias,
                                            fc2_w: unscrambled(raw2, 1, 32),
                                        },
                                    ),
                                    pos: w2.pos,
                                },
                            }
                        },
                    }
                },
            }
        },
    }
}

/// Reads sixteen words.
fn read_words_16(data: &[u8], pos: &mut usize) -> (r: Result<[i32; 16], &'static str>)
    ensures
        *final(pos) == parse_words(data@, *old(pos) as int, 16).pos,
        match parse_words(data@, *old(pos) as int, 16).result {
            Ok(items) => r matches Ok(v) && ints32(v@) == items,
            Err(e) => r == Err::<[i32; 16], &'static str>(e),
        },
{
    let ghost start = *pos as int;
    let mut out: [i32; 16] = [0i32; 16];
    let mut i: usize = 0;
    assert(ints32(out@.take(0)) =~= Seq::<int>::empty());
    while i < 16
        invariant
            i <= 16,
            start == *old(pos),
            parse_words(data@, start, i as int).result == Ok::<Seq<int>, &'static str>(
                ints32(out@.take(i as int)),
            ),
            parse_words(data@, start, i as int).pos == *pos,
        decreases 16 - i,
    {
        match read_i32_le(data, pos) {
            Ok(v) => {
                let ghost before = out@;
                out[i] = v;
                assert(ints32(out@.take(i + 1)) =~= ints32(before.take(i as int)).push(v as int));
            },
            Err(e) => {
                proof {
                    lemma_words_failed(data@, start, i + 1, 16);
                }
                return Err(e);
            },
        }
        i = i + 1;
    }
    assert(out@.take(16) =~= out@);
    Ok(out)
}

impl SfnnArch {
    pub open spec fn model(&self) -> StackModel {
        StackModel {
            fc0_bias: ints32(self.fc0_bias@),
            fc0_w: ints8(self.fc0_w@),
            fc1_bias: ints32(self.fc1_bias@),
            fc1_w: ints8(self.fc1_w@),
            fc2_bias: self.fc2_bias as int,
            fc2_w: ints8(self.fc2_w@),
        }
    }

    /// Reads a layer stack over an input of width `fc0_in`.
    pub fn load(data: &[u8], pos: &mut usize, fc0_in: usize, expected_hash: u32) -> (r: Result<
        SfnnArch,
        &'static str,
    >)
        requires
            16 * padded_width(fc0_in as int) <= usize::MAX,
        ensures
            *final(pos) == parse_stack(
                data@,
                *old(pos) as int,
                fc0_in as int,
                expected_hash as int,
            ).pos,
            match parse_stack(data@, *old(pos) as int, fc0_in as int, expected_hash as int).result {
                Ok(m) => r matches Ok(a) && a.model() == m,
                Err(e) => r == Err::<SfnnArch, &'static str>(e),
            },
    {
        let hash: u32 = match read_u32_le(data, pos) {
            Ok(v) => v,
            Err(e) => {
                return Err(e);
            },
        };
        if hash != expected_hash {
            return Err("arch hash mismatch");
        }
        let fc0_bias: [i32; 16] = match read_words_16(data, pos) {
            Ok(v) => v,
            Err(e) => {
                return Err(e);
            },
        };
        let rest: usize = fc0_in % 32;
        let padded0: usize = if rest == 0 {
            fc0_in
        } else {
            fc0_in + (32 - rest)
        };
        assert(padded0 == padded_width(fc0_in as int));
        let raw0: Vec<i8> = match read_bytes(data, pos, 16 * padded0, "truncated fc0 weights") {
            Ok(v) => v,
            Err(e) => {
                return Err(e);
            },
        };
        assert(ints8(raw0@).len() == raw0.len());
        let fc0_w: Vec<i8> = unscramble(&raw0, 16, padded0);
        SfnnArch::load_tail(data, pos, fc0_bias, fc0_w)
    }

    /// Reads the second and third layer of a stack.
    fn load_tail(data: &[u8], pos: &mut usize, fc0_bias: [i32; 16], fc0_w: Vec<i8>) -> (r: Result<
        SfnnArch,
        &'static str,
    >)
        ensures
            *final(pos) == parse_stack_tail(
                data@,
                *old(pos) as int,
                ints32(fc0_bias@),
                ints8(fc0_w@),
            ).pos,
            match parse_stack_tail(
                data@,
                *old(pos) as int,
                ints32(fc0_bias@),
                ints8(fc0_w@),
            ).result {
                Ok(m) => r matches Ok(a) && a.model() == m,
                Err(e) => r == Err::<SfnnArch, &'static str>(e),
            },
    {
        let fc1_bias: [i32; 32] = match read_words_32(data, pos) {
            Ok(v) => v,
            Err(e) => {
                return Err(e);
            },
        };
        let raw1: Vec<i8> = match read_bytes(data, pos, 1024, "truncated fc1 weights") {
            Ok(v) => v,
            Err(e) => {
                return Err(e);
            },
        };
        assert(ints8(raw1@).len() == raw1.len());
        let fc1_w: Vec<i8> = unscramble(&raw1, 32, 32);
        let fc2_bias: i32 = match read_i32_le(data, pos) {
            Ok(v) => v,
            Err(e) => {
                return Err(e);
            },
        };
        let raw2: Vec<i8> = match read_bytes(data, pos, 32, "truncated fc2 weights") {
            Ok(v) => v,
            Err(e) => {
                return Err(e);
            },
        };
        assert(ints8(raw2@).len() == raw2.len());
        let list2: Vec<i8> = unscramble(&raw2, 1, 32);
        assert(ints8(list2@).len() == list2.len());
        let mut fc2_w: [i8; 32] = [0i8; 32];
        let mut i: usize = 0;
        while i < 32
            invariant
                i <= 32,
                list2.len() == 32,
                forall|k: int| 0 <= k < i ==> fc2_w@[k] == list2@[k],
            decreases 32 - i,
        {
            fc2_w[i] = list2[i];
            i = i + 1;
        }
        assert(fc2_w@ =~= list2@);
        Ok(SfnnArch { fc0_bias, fc0_w, fc1_bias, fc1_w, fc2_bias, fc2_w })
    }
}

/// A network: feature weights and one layer stack per material bucket.
#[derive(Clone, Debug)]
pub struct Sfnn10Net {
    pub l1: usize,
    pub use_threats: bool,
    pub transformer: SfnnTransformer,
    pub stacks: Vec<SfnnArch>,
}

/// The numbers of a network.
#[verifier::ext_equal]
pub struct Net10Model {
    pub l1: int,
    pub use_threats: bool,
    pub transformer: TransformerModel,
    pub stacks: Seq<StackModel>,
}

/// The models of a list of stacks.
pub open spec fn stack_models(stacks: Seq<SfnnArch>) -> Seq<StackModel> {
    Seq::new(stacks.len(), |i: int| stacks[i].model())
}

/// The fixed part at the start of a file: version, fingerprints, description.
pub open spec fn parse_header(data: Seq<u8>, use_threats: bool, l1: int) -> Parsed<()> {
    let version = parse_u32(data, 0);
    match version.result {
        Err(e) => Parsed { result: Err(e), pos: version.pos },
        Ok(v) => if v != SF_FILE_VERSION {
            Parsed { result: Err("bad SFNN file version"), pos: version.pos }
        } else {
            let file = parse_u32(data, version.pos);
            match file.result {
                Err(e) => Parsed { result: Err(e), pos: file.pos },
                Ok(h) => if h != network_hash_spec(use_threats, l1 as u32) {
                    Parsed { result: Err("network hash mismatch"), pos: file.pos }
                } else {
                    parse_description(data, file.pos, use_threats, l1)
                },
            }
        },
    }
}

/// The description text, which is skipped, and the transformer fingerprint.
pub open spec fn parse_description(
    data: Seq<u8>,
    pos: int,
    use_threats: bool,
    l1: int,
) -> Parsed<()> {
    let len = parse_u32(data, pos);
    match len.result {
        Err(e) => Parsed { result: Err(e), pos: len.pos },
        Ok(n) => if len.pos + n > data.len() {
            Parsed { result: Err("truncated description"), pos: len.pos }
        } else {
            let hash = parse_u32(data, len.pos + n);
            match hash.result {
                Err(e) => Parsed { result: Err(e), pos: hash.pos },
                Ok(h) => if h != transformer_hash_spec(use_threats, l1 as u32) {
                    Parsed { result: Err("transformer hash mismatch"), pos: hash.pos }
                } else {
                    Parsed { result: Ok(()), pos: hash.pos }
                },
            }
        },
    }
}

fn read_header(data: &[u8], pos: &mut usize, use_threats: bool, l1: usize) -> (r: Result<
    (),
    &'static str,
>)
    requires
        *old(pos) == 0,
        l1 * 2 <= u32::MAX,
    ensures
        r == parse_header(data@, use_threats, l1 as int).result,
        *final(pos) == parse_header(data@, use_threats, l1 as int).pos,
{
    let version: u32 = match read_u32_le(data, pos) {
        Ok(v) => v,
        Err(e) => {
            return Err(e);
        },
    };
    if version != SF_FILE_VERSION {
        return Err("bad SFNN file version");
    }
    let file_hash: u32 = match read_u32_le(data, pos) {
        Ok(v) => v,
        Err(e) => {
            return Err(e);
        },
    };
    if file_hash != network_hash(use_threats, l1 as u32) {
        return Err("network hash mismatch");
    }
    let desc_len: u32 = match read_u32_le(data, pos) {
        Ok(v) => v,
        Err(e) => {
            return Err(e);
        },
    };
    if desc_len as usize > data.len() - *pos {
        return Err("truncated description");
    }
    *pos = *pos + desc_len as usize;
    let thash: u32 = match read_u32_le(data, pos) {
        Ok(v) => v,
        Err(e) => {
            return Err(e);
        },
    };
    if thash != transformer_hash(use_threats, l1 as u32) {
        return Err("transformer hash mismatch");
    }
    Ok(())
}

/// Every number twice as large, in 16 bits.
pub open spec fn doubled(items: Seq<int>) -> Seq<int> {
    Seq::new(items.len(), |i: int| wrap16(2 * items[i]))
}

/// The transformer: bias, then weights. A network without threats stores bias
/// and weights at half their size.
pub open spec fn parse_transformer(data: Seq<u8>, pos: int, use_threats: bool, l1: int) -> Parsed<
    TransformerModel,
> {
    let b = parse_section(false, data, pos, l1);
    match b.result {
        Err(e) => Parsed { result: Err(e), pos: b.pos },
        Ok(bias) => if use_threats {
            parse_combined(data, b.pos, l1, bias, THREAT_DIMS as int)
        } else {
            let t = parse_plain(data, b.pos, l1, bias);
            match t.result {
                Err(e) => t,
                Ok(m) => Parsed {
                    result: Ok(
                        TransformerModel {
                            bias: doubled(m.bias),
                            weights: doubled(m.weights),
                            ..m
                        },
                    ),
                    pos: t.pos,
                },
            }
        },
    }
}

fn double_all(v: &mut Vec<i16>)
    ensures
        ints16(final(v)@) == doubled(ints16(old(v)@)),
{
    let ghost start = v@;
    let mut i: usize = 0;
    while i < v.len()
        invariant
            i <= v.len(),
            v.len() == start.len(),
            forall|k: int| 0 <= k < i ==> #[trigger] v@[k] == wrap16(2 * start[k]),
            forall|k: int| i <= k < v.len() ==> #[trigger] v@[k] == start[k],
        decreases v.len() - i,
    {
        let x: i16 = v[i];
        proof {
            lemma_wrapping_i16(x, x);
        }
        v[i] = x.wrapping_add(x);
        i = i + 1;
    }
    assert(ints16(v@) =~= doubled(ints16(start)));
}

fn read_transformer(data: &[u8], pos: &mut usize, use_threats: bool, l1: usize) -> (r: Result<
    SfnnTransformer,
    &'static str,
>)
    requires
        (THREAT_DIMS + PSQ_DIMS) * l1 <= usize::MAX,
    ensures
        *final(pos) == parse_transformer(data@, *old(pos) as int, use_threats, l1 as int).pos,
        match parse_transformer(data@, *old(pos) as int, use_threats, l1 as int).result {
            Ok(m) => r matches Ok(t) && t.model() == m,
            Err(e) => r == Err::<SfnnTransformer, &'static str>(e),
        },
{
    let bias: Vec<i16> = match read_leb128_section_i16(data, pos, l1) {
        Ok(v) => v,
        Err(e) => {
            return Err(e);
        },
    };
    if use_threats {
        return read_combined(data, pos, l1, bias, THREAT_DIMS);
    }
    assert(PSQ_DIMS * l1 <= (THREAT_DIMS + PSQ_DIMS) * l1) by (nonlinear_arith)
        requires
            l1 >= 0,
            PSQ_DIMS == 22_528,
            THREAT_DIMS == 79_856,
    ;
    let mut t: SfnnTransformer = match read_plain(data, pos, l1, bias) {
        Ok(t) => t,
        Err(e) => {
            return Err(e);
        },
    };
    let ghost before = t.model();
    double_all(&mut t.weights);
    double_all(&mut t.bias);
    assert(t.model() =~= TransformerModel {
        bias: doubled(before.bias),
        weights: doubled(before.weights),
        ..before
    });
    Ok(t)
}

/// The first `n` layer stacks.
pub open spec fn parse_stacks(data: Seq<u8>, pos: int, l1: int, n: int) -> Parsed<Seq<StackModel>>
    decreases n,
{
    if n <= 0 {
        Parsed { result: Ok(Seq::empty()), pos }
    } else {
        let before = parse_stacks(data, pos, l1, n - 1);
        match before.result {
            Err(e) => before,
            Ok(items) => {
                let p = parse_stack(data, before.pos, l1, arch_hash_spec(l1 as u32) as int);
                match p.result {
                    Err(e) => Parsed { result: Err(e), pos: p.pos },
                    Ok(m) => Parsed { result: Ok(items.push(m)), pos: p.pos },
                }
            },
        }
    }
}

proof fn lemma_stacks_failed(data: Seq<u8>, pos: int, l1: int, n: int, m: int)
    requires
        0 <= n <= m,
        parse_stacks(data, pos, l1, n).result is Err,
    ensures
        parse_stacks(data, pos, l1, m) == parse_stacks(data, pos, l1, n),
    decreases m,
{
    if n < m {
        lemma_stacks_failed(data, pos, l1, n, m - 1);
    }
}

fn read_stacks(data: &[u8], pos: &mut usize, l1: usize) -> (r: Result<Vec<SfnnArch>, &'static str>)
    requires
        l1 * 2 <= u32::MAX,
        16 * padded_width(l1 as int) <= usize::MAX,
    ensures
        match parse_stacks(data@, *old(pos) as int, l1 as int, 8).result {
            Ok(m) => r matches Ok(v) && stack_models(v@) == m,
            Err(e) => r == Err::<Vec<SfnnArch>, &'static str>(e),
        },
{
    let ghost start = *pos as int;
    let ahash: u32 = arch_hash(l1 as u32);
    let mut stacks: Vec<SfnnArch> = Vec::new();
    let mut i: usize = 0;
    assert(stack_models(stacks@) =~= Seq::<StackModel>::empty());
    while i < 8
        invariant
            i <= 8,
            start == *old(pos),
            ahash == arch_hash_spec(l1 as u32),
            16 * padded_width(l1 as int) <= usize::MAX,
            parse_stacks(data@, start, l1 as int, i as int).result == Ok::<
                Seq<StackModel>,
                &'static str,
            >(stack_models(stacks@)),
            parse_stacks(data@, start, l1 as int, i as int).pos == *pos,
        decreases 8 - i,
    {
        match SfnnArch::load(data, pos, l1, ahash) {
            Ok(a) => {
                assert(stack_models(stacks@.push(a)) =~= stack_models(stacks@).push(a.model()));
                stacks.push(a);
            },
            Err(e) => {
                proof {
                    lemma_stacks_failed(data@, start, l1 as int, i + 1, 8);
                }
                return Err(e);
            },
        }
        i = i + 1;
    }
    Ok(stacks)
}

/// A whole network file: header, transformer and eight stacks.
pub open spec fn parse_net(data: Seq<u8>, use_threats: bool, l1: int) -> Result<
    Net10Model,
    &'static str,
> {
    let header = parse_header(data, use_threats, l1);
    match header.result {
        Err(e) => Err(e),
        Ok(_) => {
            let t = parse_transformer(data, header.pos, use_threats, l1);
            match t.result {
                Err(e) => Err(e),
                Ok(transformer) => match parse_stacks(data, t.pos, l1, 8).result {
                    Err(e) => Err(e),
                    Ok(stacks) => Ok(Net10Model { l1, use_threats, transformer, stacks }),
                },
            }
        },
    }
}

impl Sfnn10Net {
    pub open spec fn model(&self) -> Net10Model {
        Net10Model {
            l1: self.l1 as int,
            use_threats: self.use_threats,
            transformer: self.transformer.model(),
            stacks: stack_models(self.stacks@),
        }
    }

    /// Every list has the size that the width and the feature blocks ask for.
    pub open spec fn sized(&self) -> bool {
        let t = &self.transformer;
        let l1 = self.l1 as int;
        &&& t.bias.len() == l1
        &&& t.weights.len() == PSQ_DIMS * l1
        &&& t.psqt_w.len() == PSQ_DIMS * 8
        &&& self.use_threats ==> {
            &&& t.threat_w.len() == THREAT_DIMS * l1
            &&& t.threat_psqt_w.len() == THREAT_DIMS * 8
        }
        &&& self.stacks.len() == 8
        &&& forall|i: int|
            0 <= i < 8 ==> (#[trigger] self.stacks@[i]).fc0_w.len() >= 16 * l1
                && self.stacks@[i].fc1_w.len() >= 1024
    }

    /// Reads a network of width `l1`.
    pub fn load_bytes(data: &[u8], use_threats: bool, l1: usize) -> (r: Result<
        Sfnn10Net,
        &'static str,
    >)
        requires
            l1 * 2 <= u32::MAX,
            (THREAT_DIMS + PSQ_DIMS) * l1 <= usize::MAX,
        ensures
            match parse_net(data@, use_threats, l1 as int) {
                Ok(m) => r matches Ok(net) && net.model() == m && net.sized(),
                Err(e) => r == Err::<Sfnn10Net, &'static str>(e),
            },
    {
        proof {
            assert((THREAT_DIMS + PSQ_DIMS) * l1 == 102_384 * l1);
        }
        let mut pos: usize = 0;
        if let Err(e) = read_header(data, &mut pos, use_threats, l1) {
            return Err(e);
        }
        let ghost at = pos as int;
        let transformer: SfnnTransformer = match read_transformer(data, &mut pos, use_threats, l1) {
            Ok(t) => t,
            Err(e) => {
                return Err(e);
            },
        };
        let ghost after = pos as int;
        let stacks: Vec<SfnnArch> = match read_stacks(data, &mut pos, l1) {
            Ok(v) => v,
            Err(e) => {
                return Err(e);
            },
        };
        let net: Sfnn10Net = Sfnn10Net { l1, use_threats, transformer, stacks };
        proof {
            law_loaded_net_is_sized(data@, use_threats, l1 as int, &net);
        }
        Ok(net)
    }
}

proof fn lemma_stacks_sized(data: Seq<u8>, pos: int, l1: int, n: int)
    requires
        0 <= n,
        0 <= l1,
    ensures
        parse_stacks(data, pos, l1, n).result matches Ok(m) ==> m.len() == n && forall|i: int|
            0 <= i < n ==> (#[trigger] m[i]).fc0_w.len() >= 16 * l1 && m[i].fc1_w.len() == 1024,
    decreases n,
{
    if n > 0 {
        lemma_stacks_sized(data, pos, l1, n - 1);
    }
}

/// Every network read from a file has complete lists.
pub proof fn law_loaded_net_is_sized(
    data: Seq<u8>,
    use_threats: bool,
    l1: int,
    net: &Sfnn10Net,
)
    requires
        0 <= l1,
        parse_net(data, use_threats, l1) == Ok::<Net10Model, &'static str>(net.model()),
    ensures
        net.sized(),
{
    let t = &net.transformer;
    let m = net.model();
    assert(m.transformer == t.model());
    assert(t.bias.len() == m.transformer.bias.len());
    assert(t.weights.len() == m.transformer.weights.len());
    assert(t.psqt_w.len() == m.transformer.psqt_w.len());
    assert(t.threat_w.len() == m.transformer.threat_w.len());
    assert(t.threat_psqt_w.len() == m.transformer.threat_psqt_w.len());
    assert(net.stacks.len() == m.stacks.len());
    assert forall|i: int| 0 <= i < net.stacks.len() implies (#[trigger] net.stacks@[i]).fc0_w.len()
        == m.stacks[i].fc0_w.len() && net.stacks@[i].fc1_w.len() == m.stacks[i].fc1_w.len() by {
        assert(m.stacks[i] == net.stacks@[i].model());
    }
    let header = parse_header(data, use_threats, l1);
    let b = parse_section(false, data, header.pos, l1);
    lemma_section_len(false, data, header.pos, l1);
    assert(THREAT_DIMS * l1 >= 0 && (THREAT_DIMS + PSQ_DIMS) * l1 == THREAT_DIMS * l1 + PSQ_DIMS
        * l1 && PSQ_DIMS * l1 >= 0) by (nonlinear_arith)
        requires
            l1 >= 0,
    ;
    if use_threats {
        lemma_section_len(false, data, b.pos, (THREAT_DIMS + PSQ_DIMS) * l1);
        let w = parse_section(false, data, b.pos, (THREAT_DIMS + PSQ_DIMS) * l1);
        lemma_section_len(true, data, w.pos, (THREAT_DIMS + PSQ_DIMS) * 8);
    } else {
        lemma_section_len(false, data, b.pos, PSQ_DIMS * l1);
        let w = parse_section(false, data, b.pos, PSQ_DIMS * l1);
        lemma_section_len(true, data, w.pos, PSQ_DIMS * 8);
    }
    let tp = parse_transformer(data, header.pos, use_threats, l1);
    lemma_stacks_sized(data, tp.pos, l1, 8);
}

/// The numbers of a layer stack: 16 words of biases, the rows of the first
/// layer, 32 words, 1024 bytes of the second layer, one word, 32 bytes of the
/// last layer; the rows are stored in groups of four inputs.
#[verifier::rlimit(60)]
pub proof fn law_stack_layout(data: Seq<u8>, pos: int, fc0_in: int, expected_hash: int, i: int)
    requires
        0 <= pos,
        fc0_in >= 0,
        fc0_in % 32 == 0,
        parse_u32(data, pos).result == Ok::<int, &'static str>(expected_hash),
        pos + 1256 + 16 * fc0_in <= data.len(),
    ensures
        ({
            let p = parse_stack(data, pos, fc0_in, expected_hash);
            let at = pos + 68 + 16 * fc0_in;
            &&& p.pos == pos + 1256 + 16 * fc0_in
            &&& p.result matches Ok(m) && {
                &&& 0 <= i < 16 ==> m.fc0_bias[i] == wrap32(word_at(data, pos + 4 + 4 * i))
                &&& 0 <= i < 32 ==> m.fc1_bias[i] == wrap32(word_at(data, at + 4 * i))
                &&& m.fc2_bias == wrap32(word_at(data, at + 1152))
                &&& 0 <= i < 32 ==> m.fc2_w[i] == wrap8(data[at + 1156 + i] as int)
            }
        }),
{
    law_words_follow_each_other(data, pos + 4, 16);
    law_words_follow_each_other(data, pos + 68 + 16 * fc0_in, 32);
    assert(padded_width(fc0_in) == fc0_in);
    if 0 <= i < 32 {
        assert(i % 4 / 4 * 32 == 0);
        assert(i / 4 * 4 + i % 4 == i);
    }
}

/// Small networks are stored at half their scale: their biases and weights are
/// doubled when they are read.
pub proof fn law_small_networks_are_doubled(
    data: Seq<u8>,
    pos: int,
    l1: int,
    bias: Seq<int>,
    plain: TransformerModel,
    i: int,
)
    requires
        parse_section(false, data, pos, l1).result == Ok::<Seq<int>, &'static str>(bias),
        parse_plain(data, parse_section(false, data, pos, l1).pos, l1, bias).result == Ok::<
            TransformerModel,
            &'static str,
        >(plain),
    ensures
        parse_transformer(data, pos, false, l1).result matches Ok(m) && {
            &&& 0 <= i < plain.bias.len() && -16_384 <= plain.bias[i] < 16_384 ==> m.bias[i]
                == plain.bias[i] + plain.bias[i]
            &&& 0 <= i < plain.weights.len() && -16_384 <= plain.weights[i] < 16_384 ==> m.weights[i]
                == plain.weights[i] + plain.weights[i]
            &&& m.psqt_w == plain.psqt_w
        },
{
}

} // verus!
