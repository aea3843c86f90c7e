//! The v16 network and its two file formats.

use vstd::prelude::*;

use crate::eval::nnue::leb128::{
    byte_as_i8, has_magic, ints16, ints32, ints8, law_words_follow_each_other, lemma_more_bytes, lemma_more_section,
    lemma_more_u32, lemma_more_words, parse_bytes, parse_i32, parse_section, parse_u32, parse_words,
    read_bytes, read_i32_le, read_leb128_section_i16, read_leb128_section_i32, read_u32_le,
    read_words_32, unmoved, word_at, wrap8, Parsed,
};
use crate::eval::nnue::v16::arch::{
    arch_hash, arch_hash_spec, network_hash, network_hash_spec, transformer_hash,
    transformer_hash_spec, FC0_OUT, FC1_IN, FC1_OUT, L1, LEB128_MAGIC, N_BUCKETS, PAIR_DIMS,
    PSQ_DIMS, SF17_FILE_VERSION, SF_FILE_VERSION, THREAT_DIMS,
};
use crate::math::{wrap16, wrap32};

verus! {

/// Weights of one layer stack: three fully connected layers.
#[derive(Clone, Debug)]
pub struct SfnnArch {
    pub fc0_bias: [i32; 32],
    pub fc0_w: Vec<i8>,
    pub fc1_bias: [i32; 32],
    pub fc1_w: Vec<i8>,
    pub fc2_bias: i32,
    pub fc2_w: [i8; 128],
    pub is_rudi: bool,
}

/// The numbers of a layer stack.
#[verifier::ext_equal]
pub struct ArchModel {
    pub fc0_bias: Seq<int>,
    pub fc0_w: Seq<int>,
    pub fc1_bias: Seq<int>,
    pub fc1_w: Seq<int>,
    pub fc2_bias: int,
    pub fc2_w: Seq<int>,
    pub is_rudi: bool,
}

/// Input width rounded up to whole blocks of 32.
pub open spec fn padded_width(n: int) -> int {
    (n + 31) / 32 * 32
}

/// A layer stack in a file: fingerprint, then biases and weights layer by layer.
pub open spec fn parse_arch(data: Seq<u8>, pos: int, fc0_in: int, expected_hash: int) -> Parsed<
    ArchModel,
> {
    let hash = parse_u32(data, pos);
    match hash.result {
        Err(e) => Parsed { result: Err(e), pos: hash.pos },
        Ok(h) => if h != expected_hash {
            Parsed { result: Err("bad arch hash"), pos: hash.pos }
        } else {
            let b0 = parse_words(data, hash.pos, 32);
            match b0.result {
                Err(e) => Parsed { result: Err(e), pos: b0.pos },
                Ok(fc0_bias) => {
                    let w0 = parse_bytes(
                        data,
                        b0.pos,
                        32 * padded_width(fc0_in),
                        "truncated fc0 weights",
                    );
                    match w0.result {
                        Err(e) => Parsed { result: Err(e), pos: w0.pos },
                        Ok(fc0_w) => parse_arch_tail(data, w0.pos, fc0_bias, fc0_w),
                    }
                },
            }
        },
    }
}

/// The second and third layer of a stack.
pub open spec fn parse_arch_tail(
    data: Seq<u8>,
    pos: int,
    fc0_bias: Seq<int>,
    fc0_w: Seq<int>,
) -> Parsed<ArchModel> {
    let b1 = parse_words(data, pos, 32);
    match b1.result {
        Err(e) => Parsed { result: Err(e), pos: b1.pos },
        Ok(fc1_bias) => {
            let w1 = parse_bytes(data, b1.pos, 2048, "truncated fc1 weights");
            match w1.result {
                Err(e) => Parsed { result: Err(e), pos: w1.pos },
                Ok(fc1_w) => {
                    let b2 = parse_i32(data, w1.pos);
                    match b2.result {
                        Err(e) => Parsed { result: Err(e), pos: b2.pos },
                        Ok(fc2_bias) => {
                            let w2 = parse_bytes(data, b2.pos, 128, "truncated fc2 weights");
                            match w2.result {
                                Err(e) => Parsed { result: Err(e), pos: w2.pos },
                                Ok(fc2_w) => Parsed {
                                    result: Ok(
                                        ArchModel {
                                            fc0_bias,
                                            fc0_w,
                                            fc1_bias,
                                            fc1_w,
                                            fc2_bias,
                                            fc2_w,
                                            is_rudi: false,
                                        },
                                    ),
                                    pos: w2.pos,
                                },
                            }
                        },
                    }
                },
            }
        },
    }
}

impl SfnnArch {
    pub open spec fn model(&self) -> ArchModel {
        ArchModel {
            fc0_bias: ints32(self.fc0_bias@),
            fc0_w: ints8(self.fc0_w@),
            fc1_bias: ints32(self.fc1_bias@),
            fc1_w: ints8(self.fc1_w@),
            fc2_bias: self.fc2_bias as int,
            fc2_w: ints8(self.fc2_w@),
            is_rudi: self.is_rudi,
        }
    }

    /// Reads a layer stack over an input of width `fc0_in`.
    pub fn load(data: &[u8], pos: &mut usize, fc0_in: usize, expected_hash: u32) -> (r: Result<
        SfnnArch,
        &'static str,
    >)
        requires
            32 * padded_width(fc0_in as int) <= usize::MAX,
        ensures
            *final(pos) == parse_arch(
                data@,
                *old(pos) as int,
                fc0_in as int,
                expected_hash as int,
            ).pos,
            match parse_arch(data@, *old(pos) as int, fc0_in as int, expected_hash as int).result {
                Ok(m) => r matches Ok(a) && a.model() == m,
                Err(e) => r == Err::<SfnnArch, &'static str>(e),
            },
    {
        let hash: u32 = match read_u32_le(data, pos) {
            Ok(v) => v,
            Err(e) => {
                return Err(e);
            },
        };
        if hash != expected_hash {
            return Err("bad arch hash");
        }
        let fc0_bias: [i32; 32] = match read_words_32(data, pos) {
            Ok(v) => v,
            Err(e) => {
                return Err(e);
            },
        };
        let rest: usize = fc0_in % 32;
        let padded0: usize = if rest == 0 {
            fc0_in
        } else {
            fc0_in + (32 - rest)
        };
        assert(padded0 == padded_width(fc0_in as int));
        let fc0_w: Vec<i8> = match read_bytes(data, pos, FC0_OUT * padded0, "truncated fc0 weights") {
            Ok(v) => v,
            Err(e) => {
                return Err(e);
            },
        };
        let fc1_bias: [i32; 32] = match read_words_32(data, pos) {
            Ok(v) => v,
            Err(e) => {
                return Err(e);
            },
        };
        let fc1_w: Vec<i8> = match read_bytes(data, pos, FC1_OUT * FC1_IN, "truncated fc1 weights") {
            Ok(v) => v,
            Err(e) => {
                return Err(e);
            },
        };
        let fc2_bias: i32 = match read_i32_le(data, pos) {
            Ok(v) => v,
            Err(e) => {
                return Err(e);
            },
        };
        let raw2: Vec<i8> = match read_bytes(data, pos, 128, "truncated fc2 weights") {
            Ok(v) => v,
            Err(e) => {
                return Err(e);
            },
        };
        assert(ints8(raw2@).len() == 128);
        let mut fc2_w: [i8; 128] = [0i8; 128];
        let mut i: usize = 0;
        while i < 128
            invariant
                i <= 128,
                raw2.len() == 128,
                forall|k: int| 0 <= k < i ==> fc2_w@[k] == raw2@[k],
            decreases 128 - i,
        {
            fc2_w[i] = raw2[i];
            i = i + 1;
        }
        assert(fc2_w@ =~= raw2@);
        Ok(SfnnArch { fc0_bias, fc0_w, fc1_bias, fc1_w, fc2_bias, fc2_w, is_rudi: false })
    }
}

/// Feature weights. The lists that a format does not use stay empty.
#[derive(Clone, Debug)]
pub struct SfnnTransformer {
    pub bias: Vec<i16>,
    pub weights: Vec<i16>,
    pub threat_w: Vec<i8>,
    pub threat_w_i16: Vec<i16>,
    pub psqt_w: Vec<i32>,
    pub threat_psqt_w: Vec<i32>,
    pub pair_w: Vec<i8>,
    pub pair_w_i16: Vec<i16>,
    pub pair_psqt_w: Vec<i32>,
}

/// The numbers of a transformer.
#[verifier::ext_equal]
pub struct TransformerModel {
    pub bias: Seq<int>,
    pub weights: Seq<int>,
    pub threat_w: Seq<int>,
    pub threat_w_i16: Seq<int>,
    pub psqt_w: Seq<int>,
    pub threat_psqt_w: Seq<int>,
    pub pair_w: Seq<int>,
    pub pair_w_i16: Seq<int>,
    pub pair_psqt_w: Seq<int>,
}

impl SfnnTransformer {
    pub open spec fn model(&self) -> TransformerModel {
        TransformerModel {
            bias: ints16(self.bias@),
            weights: ints16(self.weights@),
            threat_w: ints8(self.threat_w@),
            threat_w_i16: ints16(self.threat_w_i16@),
            psqt_w: ints32(self.psqt_w@),
            threat_psqt_w: ints32(self.threat_psqt_w@),
            pair_w: ints8(self.pair_w@),
            pair_w_i16: ints16(self.pair_w_i16@),
            pair_psqt_w: ints32(self.pair_psqt_w@),
        }
    }
}

impl Default for SfnnTransformer {
    fn default() -> (r: Self)
        ensures
            r.bias.len() == 0,
            r.weights.len() == 0,
            r.threat_w.len() == 0,
            r.threat_w_i16.len() == 0,
            r.psqt_w.len() == 0,
            r.threat_psqt_w.len() == 0,
            r.pair_w.len() == 0,
            r.pair_w_i16.len() == 0,
            r.pair_psqt_w.len() == 0,
    {
        SfnnTransformer {
            bias: Vec::new(),
            weights: Vec::new(),
            threat_w: Vec::new(),
            threat_w_i16: Vec::new(),
            psqt_w: Vec::new(),
            threat_psqt_w: Vec::new(),
            pair_w: Vec::new(),
            pair_w_i16: Vec::new(),
            pair_psqt_w: Vec::new(),
        }
    }
}

/// A network: feature weights and one layer stack per material bucket.
#[derive(Clone, Debug)]
pub struct Sfnn16Net {
    pub l1: usize,
    pub use_threats: bool,
    pub is_rudi: bool,
    pub transformer: SfnnTransformer,
    pub stacks: Vec<SfnnArch>,
}

/// The numbers of a network.
#[verifier::ext_equal]
pub struct NetModel {
    pub l1: int,
    pub use_threats: bool,
    pub is_rudi: bool,
    pub transformer: TransformerModel,
    pub stacks: Seq<ArchModel>,
}

/// The models of a list of stacks.
pub open spec fn arch_models(stacks: Seq<SfnnArch>) -> Seq<ArchModel> {
    Seq::new(stacks.len(), |i: int| stacks[i].model())
}

/// The fixed part at the start of a file: version, fingerprints, description.
pub open spec fn parse_header(data: Seq<u8>, use_threats: bool, l1: int) -> Parsed<()> {
    let version = parse_u32(data, 0);
    match version.result {
        Err(e) => Parsed { result: Err(e), pos: version.pos },
        Ok(v) => if v != SF_FILE_VERSION && v != SF17_FILE_VERSION {
            Parsed { result: Err("bad SFNN file version"), pos: version.pos }
        } else {
            let file = parse_u32(data, version.pos);
            match file.result {
                Err(e) => Parsed { result: Err(e), pos: file.pos },
                Ok(h) => if use_threats && h != network_hash_spec(true, l1 as u32) {
                    Parsed { result: Err("bad SFNN file hash"), pos: file.pos }
                } else {
                    parse_description(data, file.pos, use_threats, l1)
                },
            }
        },
    }
}

/// The description text, which is skipped, and the transformer fingerprint.
pub open spec fn parse_description(
    data: Seq<u8>,
    pos: int,
    use_threats: bool,
    l1: int,
) -> Parsed<()> {
    let len = parse_u32(data, pos);
    match len.result {
        Err(e) => Parsed { result: Err(e), pos: len.pos },
        Ok(n) => if len.pos + n > data.len() {
            Parsed { result: Err("truncated description"), pos: len.pos }
        } else {
            let hash = parse_u32(data, len.pos + n);
            match hash.result {
                Err(e) => Parsed { result: Err(e), pos: hash.pos },
                Ok(h) => if use_threats && h != transformer_hash_spec(true, l1 as u32) {
                    Parsed { result: Err("bad transformer hash"), pos: hash.pos }
                } else {
                    Parsed { result: Ok(()), pos: hash.pos }
                },
            }
        },
    }
}

fn read_header(data: &[u8], pos: &mut usize, use_threats: bool, l1: usize) -> (r: Result<
    (),
    &'static str,
>)
    requires
        *old(pos) == 0,
        l1 * 2 <= u32::MAX,
    ensures
        r == parse_header(data@, use_threats, l1 as int).result,
        *final(pos) == parse_header(data@, use_threats, l1 as int).pos,
{
    let version: u32 = match read_u32_le(data, pos) {
        Ok(v) => v,
        Err(e) => {
            return Err(e);
        },
    };
    if version != SF_FILE_VERSION && version != SF17_FILE_VERSION {
        return Err("bad SFNN file version");
    }
    let file_hash: u32 = match read_u32_le(data, pos) {
        Ok(v) => v,
        Err(e) => {
            return Err(e);
        },
    };
    if use_threats && file_hash != network_hash(true, l1 as u32) {
        return Err("bad SFNN file hash");
    }
    let desc_len: u32 = match read_u32_le(data, pos) {
        Ok(v) => v,
        Err(e) => {
            return Err(e);
        },
    };
    if desc_len as usize > data.len() - *pos {
        return Err("truncated description");
    }
    *pos = *pos + desc_len as usize;
    let thash: u32 = match read_u32_le(data, pos) {
        Ok(v) => v,
        Err(e) => {
            return Err(e);
        },
    };
    if use_threats && thash != transformer_hash(true, l1 as u32) {
        return Err("bad transformer hash");
    }
    Ok(())
}

/// A transformer without threat features.
pub open spec fn parse_plain(data: Seq<u8>, pos: int, l1: int, bias: Seq<int>) -> Parsed<
    TransformerModel,
> {
    let w = parse_section(false, data, pos, PSQ_DIMS * l1);
    match w.result {
        Err(e) => Parsed { result: Err(e), pos: w.pos },
        Ok(weights) => {
            let p = parse_section(true, data, w.pos, PSQ_DIMS * 8);
            match p.result {
                Err(e) => Parsed { result: Err(e), pos: p.pos },
                Ok(psqt_w) => Parsed {
                    result: Ok(
                        TransformerModel {
                            bias,
                            weights,
                            threat_w: Seq::empty(),
                            threat_w_i16: Seq::empty(),
                            psqt_w,
                            threat_psqt_w: Seq::empty(),
                            pair_w: Seq::empty(),
                            pair_w_i16: Seq::empty(),
                            pair_psqt_w: Seq::empty(),
                        },
                    ),
                    pos: p.pos,
                },
            }
        },
    }
}

/// The low byte of every number, as a signed value.
pub open spec fn low_bytes(items: Seq<int>) -> Seq<int> {
    Seq::new(items.len(), |i: int| wrap8(items[i]))
}

/// A transformer with `dims` threat features, whose threat and piece weights
/// share one section.
pub open spec fn parse_combined(
    data: Seq<u8>,
    pos: int,
    l1: int,
    bias: Seq<int>,
    dims: int,
) -> Parsed<TransformerModel> {
    let w = parse_section(false, data, pos, (dims + PSQ_DIMS) * l1);
    match w.result {
        Err(e) => Parsed { result: Err(e), pos: w.pos },
        Ok(all) => {
            let p = parse_section(true, data, w.pos, (dims + PSQ_DIMS) * 8);
            match p.result {
                Err(e) => Parsed { result: Err(e), pos: p.pos },
                Ok(psqt) => Parsed {
                    result: Ok(
                        TransformerModel {
                            bias,
                            weights: all.skip(dims * l1),
                            threat_w: low_bytes(all.take(dims * l1)),
                            threat_w_i16: Seq::empty(),
                            psqt_w: psqt.skip(dims * 8),
                            threat_psqt_w: psqt.take(dims * 8),
                            pair_w: Seq::empty(),
                            pair_w_i16: Seq::empty(),
                            pair_psqt_w: Seq::empty(),
                        },
                    ),
                    pos: p.pos,
                },
            }
        },
    }
}

/// A transformer with plain threat and pair weights in front.
pub open spec fn parse_split(data: Seq<u8>, pos: int, l1: int, bias: Seq<int>) -> Parsed<
    TransformerModel,
> {
    let tw = parse_bytes(data, pos, THREAT_DIMS * l1, "truncated threat weights");
    match tw.result {
        Err(e) => Parsed { result: Err(e), pos: tw.pos },
        Ok(threat_w) => {
            let tp = parse_section(true, data, tw.pos, THREAT_DIMS * 8);
            match tp.result {
                Err(e) => Parsed { result: Err(e), pos: tp.pos },
                Ok(threat_psqt_w) => {
                    let pw = parse_bytes(data, tp.pos, PAIR_DIMS * l1, "truncated pair weights");
                    match pw.result {
                        Err(e) => Parsed { result: Err(e), pos: pw.pos },
                        Ok(pair_w) => {
                            let pp = parse_section(true, data, pw.pos, PAIR_DIMS * 8);
                            match pp.result {
                                Err(e) => Parsed { result: Err(e), pos: pp.pos },
                                Ok(pair_psqt_w) => {
                                    let rest = parse_plain(data, pp.pos, l1, bias);
                                    match rest.result {
                                        Err(e) => Parsed { result: Err(e), pos: rest.pos },
                                        Ok(m) => Parsed {
                                            result: Ok(
                                                TransformerModel {
                                                    threat_w,
                                                    threat_psqt_w,
                                                    pair_w,
                                                    pair_psqt_w,
                                                    ..m
                                                },
                                            ),
                                            pos: rest.pos,
                                        },
                                    }
                                },
                            }
                        },
                    }
                },
            }
        },
    }
}

/// Whether plain threat weights come first: then a section follows them.
pub open spec fn split_layout(data: Seq<u8>, pos: int, l1: int) -> bool {
    let at = pos + THREAT_DIMS * l1;
    at + 17 <= data.len() && data.subrange(at, at + 17) == LEB128_MAGIC@
}

/// The transformer: bias, then one of three layouts.
pub open spec fn parse_transformer(data: Seq<u8>, pos: int, use_threats: bool, l1: int) -> Parsed<
    TransformerModel,
> {
    let b = parse_section(false, data, pos, l1);
    match b.result {
        Err(e) => Parsed { result: Err(e), pos: b.pos },
        Ok(bias) => if !use_threats {
            parse_plain(data, b.pos, l1, bias)
        } else if split_layout(data, b.pos, l1) {
            parse_split(data, b.pos, l1, bias)
        } else {
            parse_combined(data, b.pos, l1, bias, THREAT_DIMS as int)
        },
    }
}

/// The low byte of a number, as a signed value.
fn low_i8(v: i16) -> (r: i8)
    ensures
        r == wrap8(v as int),
{
    let m: i32 = v as i32 + 0x1_0000;
    assert(m as int % 0x100 == v as int % 0x100);
    let y: i32 = m % 0x100;
    if y >= 0x80 {
        (y - 0x100) as i8
    } else {
        y as i8
    }
}

fn low_bytes_of(v: &Vec<i16>, n: usize) -> (r: Vec<i8>)
    requires
        n <= v.len(),
    ensures
        ints8(r@) == low_bytes(ints16(v@).take(n as int)),
{
    let mut r: Vec<i8> = Vec::new();
    let mut i: usize = 0;
    while i < n
        invariant
            i <= n <= v.len(),
            r.len() == i,
            forall|k: int| 0 <= k < i ==> #[trigger] r@[k] == wrap8(v@[k] as int),
        decreases n - i,
    {
        r.push(low_i8(v[i]));
        i = i + 1;
    }
    assert(ints8(r@) =~= low_bytes(ints16(v@).take(n as int)));
    r
}

/// A copy of part of a list.
pub fn copy_i16(v: &Vec<i16>, from: usize, to: usize) -> (r: Vec<i16>)
    requires
        from <= to <= v.len(),
    ensures
        r@ == v@.subrange(from as int, to as int),
{
    let mut r: Vec<i16> = Vec::new();
    let mut i: usize = from;
    while i < to
        invariant
            from <= i <= to <= v.len(),
            r@ == v@.subrange(from as int, i as int),
        decreases to - i,
    {
        r.push(v[i]);
        i = i + 1;
        assert(r@ =~= v@.subrange(from as int, i as int));
    }
    r
}

/// A copy of part of a list.
pub fn copy_i32(v: &Vec<i32>, from: usize, to: usize) -> (r: Vec<i32>)
    requires
        from <= to <= v.len(),
    ensures
        r@ == v@.subrange(from as int, to as int),
{
    let mut r: Vec<i32> = Vec::new();
    let mut i: usize = from;
    while i < to
        invariant
            from <= i <= to <= v.len(),
            r@ == v@.subrange(from as int, i as int),
        decreases to - i,
    {
        r.push(v[i]);
        i = i + 1;
        assert(r@ =~= v@.subrange(from as int, i as int));
    }
    r
}

/// The sizes of the weight lists of a network of width `l1` fit where their
/// sum does.
proof fn lemma_list_sizes(l1: int)
    requires
        0 <= l1,
        (THREAT_DIMS + PSQ_DIMS) * l1 <= usize::MAX,
    ensures
        (THREAT_DIMS + PSQ_DIMS) * l1 == THREAT_DIMS * l1 + PSQ_DIMS * l1,
        0 <= THREAT_DIMS * l1 <= usize::MAX,
        0 <= PSQ_DIMS * l1 <= usize::MAX,
        0 <= PAIR_DIMS * l1 <= usize::MAX,
        32 * padded_width(l1) <= usize::MAX,
{
    assert((THREAT_DIMS + PSQ_DIMS) * l1 == 82_336 * l1);
    assert(THREAT_DIMS * l1 == 59_808 * l1);
    assert(PSQ_DIMS * l1 == 22_528 * l1);
    assert(PAIR_DIMS * l1 == 4_560 * l1);
}

pub(crate) fn read_plain(data: &[u8], pos: &mut usize, l1: usize, bias: Vec<i16>) -> (r: Result<
    SfnnTransformer,
    &'static str,
>)
    requires
        PSQ_DIMS * l1 <= usize::MAX,
    ensures
        *final(pos) == parse_plain(data@, *old(pos) as int, l1 as int, ints16(bias@)).pos,
        match parse_plain(data@, *old(pos) as int, l1 as int, ints16(bias@)).result {
            Ok(m) => r matches Ok(t) && t.model() == m,
            Err(e) => r == Err::<SfnnTransformer, &'static str>(e),
        },
{
    let weights: Vec<i16> = match read_leb128_section_i16(data, pos, PSQ_DIMS * l1) {
        Ok(v) => v,
        Err(e) => {
            return Err(e);
        },
    };
    let psqt_w: Vec<i32> = match read_leb128_section_i32(data, pos, PSQ_DIMS * N_BUCKETS) {
        Ok(v) => v,
        Err(e) => {
            return Err(e);
        },
    };
    let mut t: SfnnTransformer = SfnnTransformer::default();
    t.bias = bias;
    t.weights = weights;
    t.psqt_w = psqt_w;
    assert(t.model() =~= parse_plain(
        data@,
        *old(pos) as int,
        l1 as int,
        ints16(bias@),
    ).result->Ok_0);
    Ok(t)
}

/// The sizes of the lists of a combined section fit where their sum does.
proof fn lemma_combined_sizes(l1: int, dims: int)
    requires
        0 <= l1,
        0 <= dims,
        (dims + PSQ_DIMS) * l1 <= usize::MAX,
    ensures
        (dims + PSQ_DIMS) * l1 == dims * l1 + PSQ_DIMS * l1,
        0 <= dims * l1 <= usize::MAX,
        0 <= PSQ_DIMS * l1 <= usize::MAX,
{
    assert((dims + 22_528) * l1 == dims * l1 + 22_528 * l1 && dims * l1 >= 0) by (nonlinear_arith)
        requires
            0 <= l1,
            0 <= dims,
    ;
}

pub(crate) fn read_combined(
    data: &[u8],
    pos: &mut usize,
    l1: usize,
    bias: Vec<i16>,
    dims: usize,
) -> (r: Result<SfnnTransformer, &'static str>)
    requires
        dims <= 100_000,
        (dims + PSQ_DIMS) * l1 <= usize::MAX,
    ensures
        *final(pos) == parse_combined(data@, *old(pos) as int, l1 as int, ints16(bias@), dims as int).pos,
        match parse_combined(data@, *old(pos) as int, l1 as int, ints16(bias@), dims as int).result {
            Ok(m) => r matches Ok(t) && t.model() == m,
            Err(e) => r == Err::<SfnnTransformer, &'static str>(e),
        },
{
    proof {
        lemma_combined_sizes(l1 as int, dims as int);
    }
    let ghost start = *pos as int;
    let combined: Vec<i16> = match read_leb128_section_i16(data, pos, (dims + PSQ_DIMS) * l1) {
        Ok(v) => v,
        Err(e) => {
            return Err(e);
        },
    };
    proof {
        lemma_section_len(false, data@, start, (dims + PSQ_DIMS) * l1);
        assert(ints16(combined@).len() == combined.len());
    }
    let ghost mid = *pos as int;
    let psqt: Vec<i32> = match read_leb128_section_i32(
        data,
        pos,
        (dims + PSQ_DIMS) * N_BUCKETS,
    ) {
        Ok(v) => v,
        Err(e) => {
            return Err(e);
        },
    };
    proof {
        lemma_section_len(true, data@, mid, ((dims + PSQ_DIMS) * N_BUCKETS) as int);
        assert(ints32(psqt@).len() == psqt.len());
    }
    let cut: usize = dims * l1;
    let mut t: SfnnTransformer = SfnnTransformer::default();
    t.bias = bias;
    t.weights = copy_i16(&combined, cut, combined.len());
    t.threat_w = low_bytes_of(&combined, cut);
    t.psqt_w = copy_i32(&psqt, dims * N_BUCKETS, psqt.len());
    t.threat_psqt_w = copy_i32(&psqt, 0, dims * N_BUCKETS);
    proof {
        let m = parse_combined(data@, start, l1 as int, ints16(bias@), dims as int).result->Ok_0;
        assert(ints16(t.weights@) =~= ints16(combined@).skip(cut as int));
        assert(ints32(t.psqt_w@) =~= ints32(psqt@).skip(dims * 8));
        assert(ints32(t.threat_psqt_w@) =~= ints32(psqt@).take(dims * 8));
        assert(t.model() =~= m);
    }
    Ok(t)
}

/// A section that parses has the announced number of items.
pub proof fn lemma_section_len(wide: bool, data: Seq<u8>, pos: int, count: int)
    requires
        0 <= count,
    ensures
        parse_section(wide, data, pos, count).result matches Ok(items) ==> items.len() == count,
{
    if parse_section(wide, data, pos, count).result is Ok {
        lemma_run_len(wide, data, parse_u32(data, pos + 17).pos, count);
    }
}

proof fn lemma_run_len(wide: bool, data: Seq<u8>, pos: int, n: int)
    requires
        0 <= n,
    ensures
        crate::eval::nnue::leb128::parse_run(wide, data, pos, n).result matches Ok(items)
            ==> items.len() == n,
    decreases n,
{
    if n > 0 {
        lemma_run_len(wide, data, pos, n - 1);
    }
}

fn read_split(data: &[u8], pos: &mut usize, l1: usize, bias: Vec<i16>) -> (r: Result<
    SfnnTransformer,
    &'static str,
>)
    requires
        (THREAT_DIMS + PSQ_DIMS) * l1 <= usize::MAX,
    ensures
        *final(pos) == parse_split(data@, *old(pos) as int, l1 as int, ints16(bias@)).pos,
        match parse_split(data@, *old(pos) as int, l1 as int, ints16(bias@)).result {
            Ok(m) => r matches Ok(t) && t.model() == m,
            Err(e) => r == Err::<SfnnTransformer, &'static str>(e),
        },
{
    proof {
        lemma_list_sizes(l1 as int);
    }
    let threat_w: Vec<i8> = match read_bytes(data, pos, THREAT_DIMS * l1, "truncated threat weights") {
        Ok(v) => v,
        Err(e) => {
            return Err(e);
        },
    };
    let threat_psqt_w: Vec<i32> = match read_leb128_section_i32(data, pos, THREAT_DIMS * N_BUCKETS) {
        Ok(v) => v,
        Err(e) => {
            return Err(e);
        },
    };
    let pair_w: Vec<i8> = match read_bytes(data, pos, PAIR_DIMS * l1, "truncated pair weights") {
        Ok(v) => v,
        Err(e) => {
            return Err(e);
        },
    };
    let pair_psqt_w: Vec<i32> = match read_leb128_section_i32(data, pos, PAIR_DIMS * N_BUCKETS) {
        Ok(v) => v,
        Err(e) => {
            return Err(e);
        },
    };
    match read_plain(data, pos, l1, bias) {
        Ok(base) => {
            let mut t: SfnnTransformer = base;
            t.threat_w = threat_w;
            t.threat_psqt_w = threat_psqt_w;
            t.pair_w = pair_w;
            t.pair_psqt_w = pair_psqt_w;
            Ok(t)
        },
        Err(e) => Err(e),
    }
}

fn read_transformer(data: &[u8], pos: &mut usize, use_threats: bool, l1: usize) -> (r: Result<
    SfnnTransformer,
    &'static str,
>)
    requires
        (THREAT_DIMS + PSQ_DIMS) * l1 <= usize::MAX,
    ensures
        *final(pos) == parse_transformer(data@, *old(pos) as int, use_threats, l1 as int).pos,
        match parse_transformer(data@, *old(pos) as int, use_threats, l1 as int).result {
            Ok(m) => r matches Ok(t) && t.model() == m,
            Err(e) => r == Err::<SfnnTransformer, &'static str>(e),
        },
{
    proof {
        lemma_list_sizes(l1 as int);
    }
    let bias: Vec<i16> = match read_leb128_section_i16(data, pos, l1) {
        Ok(v) => v,
        Err(e) => {
            return Err(e);
        },
    };
    if !use_threats {
        return read_plain(data, pos, l1, bias);
    }
    let thr: usize = THREAT_DIMS * l1;
    let fits: bool = *pos <= data.len() && thr <= data.len() - *pos && 17 <= data.len() - *pos - thr;
    if fits && has_magic(data, *pos + thr) {
        read_split(data, pos, l1, bias)
    } else {
        read_combined(data, pos, l1, bias, THREAT_DIMS)
    }
}

/// The first `n` layer stacks.
pub open spec fn parse_stacks(data: Seq<u8>, pos: int, l1: int, n: int) -> Parsed<Seq<ArchModel>>
    decreases n,
{
    if n <= 0 {
        Parsed { result: Ok(Seq::empty()), pos }
    } else {
        let before = parse_stacks(data, pos, l1, n - 1);
        match before.result {
            Err(e) => before,
            Ok(items) => {
                let p = parse_arch(data, before.pos, l1, arch_hash_spec(l1 as u32) as int);
                match p.result {
                    Err(e) => Parsed { result: Err(e), pos: p.pos },
                    Ok(m) => Parsed { result: Ok(items.push(m)), pos: p.pos },
                }
            },
        }
    }
}

proof fn lemma_stacks_failed(data: Seq<u8>, pos: int, l1: int, n: int, m: int)
    requires
        0 <= n <= m,
        parse_stacks(data, pos, l1, n).result is Err,
    ensures
        parse_stacks(data, pos, l1, m) == parse_stacks(data, pos, l1, n),
    decreases m,
{
    if n < m {
        lemma_stacks_failed(data, pos, l1, n, m - 1);
    }
}

/// A whole network file: header, transformer, eight stacks and nothing more.
pub open spec fn parse_net(data: Seq<u8>, use_threats: bool, l1: int) -> Result<
    NetModel,
    &'static str,
> {
    let header = parse_header(data, use_threats, l1);
    match header.result {
        Err(e) => Err(e),
        Ok(_) => {
            let t = parse_transformer(data, header.pos, use_threats, l1);
            match t.result {
                Err(e) => Err(e),
                Ok(transformer) => {
                    let s = parse_stacks(data, t.pos, l1, 8);
                    match s.result {
                        Err(e) => Err(e),
                        Ok(stacks) => if s.pos != data.len() {
                            Err("trailing data after network")
                        } else {
                            Ok(
                                NetModel { l1, use_threats, is_rudi: false, transformer, stacks },
                            )
                        },
                    }
                },
            }
        },
    }
}

proof fn lemma_more_arch(d: Seq<u8>, s: Seq<u8>, pos: int, fc0_in: int, hash: int)
    requires
        0 <= pos,
        0 <= fc0_in,
    ensures
        unmoved(
            parse_arch(d, pos, fc0_in, hash),
            parse_arch(d + s, pos, fc0_in, hash),
            pos,
            d.len() as int,
        ),
{
    lemma_more_u32(d, s, pos);
    let h = parse_u32(d, pos);
    if h.result is Ok {
        lemma_more_words(d, s, h.pos, 32);
        let b0 = parse_words(d, h.pos, 32);
        if b0.result is Ok {
            let n = 32 * padded_width(fc0_in);
            lemma_more_bytes(d, s, b0.pos, n, "truncated fc0 weights");
            let w0 = parse_bytes(d, b0.pos, n, "truncated fc0 weights");
            if w0.result is Ok {
                lemma_more_arch_tail(d, s, w0.pos, b0.result->Ok_0, w0.result->Ok_0);
            }
        }
    }
}

proof fn lemma_more_arch_tail(
    d: Seq<u8>,
    s: Seq<u8>,
    pos: int,
    fc0_bias: Seq<int>,
    fc0_w: Seq<int>,
)
    requires
        0 <= pos <= d.len(),
    ensures
        unmoved(
            parse_arch_tail(d, pos, fc0_bias, fc0_w),
            parse_arch_tail(d + s, pos, fc0_bias, fc0_w),
            pos,
            d.len() as int,
        ),
{
    lemma_more_words(d, s, pos, 32);
    let b1 = parse_words(d, pos, 32);
    if b1.result is Ok {
        lemma_more_bytes(d, s, b1.pos, 2048, "truncated fc1 weights");
        let w1 = parse_bytes(d, b1.pos, 2048, "truncated fc1 weights");
        if w1.result is Ok {
            lemma_more_u32(d, s, w1.pos);
            let b2 = parse_i32(d, w1.pos);
            if b2.result is Ok {
                lemma_more_bytes(d, s, b2.pos, 128, "truncated fc2 weights");
            }
        }
    }
}

proof fn lemma_more_stacks(d: Seq<u8>, s: Seq<u8>, pos: int, l1: int, n: int)
    requires
        0 <= pos <= d.len(),
        0 <= l1,
        0 <= n,
    ensures
        unmoved(parse_stacks(d, pos, l1, n), parse_stacks(d + s, pos, l1, n), pos, d.len() as int),
    decreases n,
{
    if n > 0 {
        lemma_more_stacks(d, s, pos, l1, n - 1);
        let before = parse_stacks(d, pos, l1, n - 1);
        if before.result is Ok {
            lemma_more_arch(d, s, before.pos, l1, arch_hash_spec(l1 as u32) as int);
        }
    }
}

proof fn lemma_more_plain(d: Seq<u8>, s: Seq<u8>, pos: int, l1: int, bias: Seq<int>)
    requires
        0 <= pos,
        0 <= l1,
    ensures
        unmoved(parse_plain(d, pos, l1, bias), parse_plain(d + s, pos, l1, bias), pos, d.len() as int),
{
    let n = PSQ_DIMS * l1;
    assert(0 <= n) by (nonlinear_arith)
        requires
            n == 22_528 * l1,
            0 <= l1,
    ;
    lemma_more_section(false, d, s, pos, n);
    let w = parse_section(false, d, pos, n);
    if w.result is Ok {
        lemma_more_section(true, d, s, w.pos, PSQ_DIMS * 8);
    }
}

proof fn lemma_more_combined(d: Seq<u8>, s: Seq<u8>, pos: int, l1: int, bias: Seq<int>, dims: int)
    requires
        0 <= pos,
        0 <= l1,
        0 <= dims,
    ensures
        unmoved(
            parse_combined(d, pos, l1, bias, dims),
            parse_combined(d + s, pos, l1, bias, dims),
            pos + 21 + (dims + PSQ_DIMS) * l1,
            d.len() as int,
        ),
{
    let n = (dims + PSQ_DIMS) * l1;
    assert(0 <= n) by (nonlinear_arith)
        requires
            n == (dims + 22_528) * l1,
            0 <= l1,
            0 <= dims,
    ;
    lemma_more_section(false, d, s, pos, n);
    let w = parse_section(false, d, pos, n);
    if w.result is Ok {
        lemma_more_section(true, d, s, w.pos, (dims + PSQ_DIMS) * 8);
    }
}

proof fn lemma_more_split(d: Seq<u8>, s: Seq<u8>, pos: int, l1: int, bias: Seq<int>)
    requires
        0 <= pos,
        0 <= l1,
    ensures
        unmoved(parse_split(d, pos, l1, bias), parse_split(d + s, pos, l1, bias), pos, d.len() as int),
{
    let n = THREAT_DIMS * l1;
    let m = PAIR_DIMS * l1;
    assert(0 <= n && 0 <= m) by (nonlinear_arith)
        requires
            n == 59_808 * l1,
            m == 4_560 * l1,
            0 <= l1,
    ;
    lemma_more_bytes(d, s, pos, n, "truncated threat weights");
    let tw = parse_bytes(d, pos, n, "truncated threat weights");
    if tw.result is Ok {
        lemma_more_section(true, d, s, tw.pos, THREAT_DIMS * 8);
        let tp = parse_section(true, d, tw.pos, THREAT_DIMS * 8);
        if tp.result is Ok {
            lemma_more_bytes(d, s, tp.pos, m, "truncated pair weights");
            let pw = parse_bytes(d, tp.pos, m, "truncated pair weights");
            if pw.result is Ok {
                lemma_more_section(true, d, s, pw.pos, PAIR_DIMS * 8);
                let pp = parse_section(true, d, pw.pos, PAIR_DIMS * 8);
                if pp.result is Ok {
                    lemma_more_plain(d, s, pp.pos, l1, bias);
                }
            }
        }
    }
}

/// The layout of the threat weights is told by the data that a network of some
/// width holds anyway.
proof fn lemma_more_transformer(d: Seq<u8>, s: Seq<u8>, pos: int, use_threats: bool, l1: int)
    requires
        0 <= pos,
        1 <= l1,
    ensures
        unmoved(
            parse_transformer(d, pos, use_threats, l1),
            parse_transformer(d + s, pos, use_threats, l1),
            pos,
            d.len() as int,
        ),
{
    lemma_more_section(false, d, s, pos, l1);
    let b = parse_section(false, d, pos, l1);
    if b.result is Ok {
        let bias = b.result->Ok_0;
        lemma_more_plain(d, s, b.pos, l1, bias);
        lemma_more_split(d, s, b.pos, l1, bias);
        lemma_more_combined(d, s, b.pos, l1, bias, THREAT_DIMS as int);
        let n = THREAT_DIMS * l1;
        let all = (THREAT_DIMS + PSQ_DIMS) * l1;
        assert(n + 22_528 <= all && 0 <= n) by (nonlinear_arith)
            requires
                n == 59_808 * l1,
                all == (59_808 + 22_528) * l1,
                1 <= l1,
        ;
        let at = b.pos + n;
        if at + 17 <= d.len() {
            assert((d + s).subrange(at, at + 17) =~= d.subrange(at, at + 17));
        }
    }
}

proof fn lemma_more_header(d: Seq<u8>, s: Seq<u8>, use_threats: bool, l1: int)
    ensures
        unmoved(
            parse_header(d, use_threats, l1),
            parse_header(d + s, use_threats, l1),
            0,
            d.len() as int,
        ),
{
    lemma_more_u32(d, s, 0);
    lemma_more_u32(d, s, 4);
    lemma_more_u32(d, s, 8);
    let len = parse_u32(d, 8);
    if len.result is Ok {
        lemma_more_u32(d, s, 12 + len.result->Ok_0);
    }
}

/// More data behind an accepted file is reported.
pub proof fn law_trailing_data_refused(d: Seq<u8>, s: Seq<u8>, use_threats: bool, l1: int)
    requires
        1 <= l1,
        s.len() > 0,
        parse_net(d, use_threats, l1) is Ok,
    ensures
        parse_net(d + s, use_threats, l1) == Err::<NetModel, &'static str>(
            "trailing data after network",
        ),
{
    lemma_more_header(d, s, use_threats, l1);
    let header = parse_header(d, use_threats, l1);
    lemma_more_transformer(d, s, header.pos, use_threats, l1);
    let t = parse_transformer(d, header.pos, use_threats, l1);
    lemma_more_stacks(d, s, t.pos, l1, 8);
}

/// No file that is cut short is accepted.
pub proof fn law_cut_file_refused(d: Seq<u8>, n: int, use_threats: bool, l1: int)
    requires
        1 <= l1,
        0 <= n < d.len(),
        parse_net(d, use_threats, l1) is Ok,
    ensures
        parse_net(d.take(n), use_threats, l1) is Err,
{
    if parse_net(d.take(n), use_threats, l1) is Ok {
        law_trailing_data_refused(d.take(n), d.skip(n), use_threats, l1);
        assert(d.take(n) + d.skip(n) =~= d);
    }
}

fn read_stacks(data: &[u8], pos: &mut usize, l1: usize) -> (r: Result<Vec<SfnnArch>, &'static str>)
    requires
        l1 * 2 <= u32::MAX,
        32 * padded_width(l1 as int) <= usize::MAX,
    ensures
        *final(pos) == parse_stacks(data@, *old(pos) as int, l1 as int, 8).pos,
        match parse_stacks(data@, *old(pos) as int, l1 as int, 8).result {
            Ok(m) => r matches Ok(v) && arch_models(v@) == m,
            Err(e) => r == Err::<Vec<SfnnArch>, &'static str>(e),
        },
{
    let ghost start = *pos as int;
    let ahash: u32 = arch_hash(l1 as u32);
    let mut stacks: Vec<SfnnArch> = Vec::new();
    let mut i: usize = 0;
    assert(arch_models(stacks@) =~= Seq::<ArchModel>::empty());
    while i < 8
        invariant
            i <= 8,
            start == *old(pos),
            ahash == arch_hash_spec(l1 as u32),
            32 * padded_width(l1 as int) <= usize::MAX,
            parse_stacks(data@, start, l1 as int, i as int).result == Ok::<
                Seq<ArchModel>,
                &'static str,
            >(arch_models(stacks@)),
            parse_stacks(data@, start, l1 as int, i as int).pos == *pos,
        decreases 8 - i,
    {
        match SfnnArch::load(data, pos, l1, ahash) {
            Ok(a) => {
                assert(arch_models(stacks@.push(a)) =~= arch_models(stacks@).push(a.model()));
                stacks.push(a);
            },
            Err(e) => {
                proof {
                    lemma_stacks_failed(data@, start, l1 as int, i + 1, 8);
                }
                return Err(e);
            },
        }
        i = i + 1;
    }
    Ok(stacks)
}

/// Length of a raw weight dump, without and with trailing padding.
pub const RAW_PAYLOAD: usize = 181_011_108;
pub const RAW_PAYLOAD_PADDED: usize = 181_011_136;

/// A little-endian 16-bit integer.
pub open spec fn half_at(data: Seq<u8>, pos: int) -> int {
    wrap16(data[pos] as int + 0x100 * data[pos + 1] as int)
}

pub open spec fn parse_raw_i8(data: Seq<u8>, pos: int, n: int) -> Parsed<Seq<int>> {
    if pos + n > data.len() {
        Parsed { result: Err("truncated whale payload"), pos }
    } else {
        Parsed { result: Ok(raw_i8(data, pos, n)), pos: pos + n }
    }
}

pub open spec fn raw_i8(data: Seq<u8>, pos: int, n: int) -> Seq<int> {
    Seq::new(n as nat, |i: int| wrap8(data[pos + i] as int))
}

pub open spec fn parse_raw_i16(data: Seq<u8>, pos: int, n: int) -> Parsed<Seq<int>> {
    if n * 2 > usize::MAX {
        Parsed { result: Err("bad whale length"), pos }
    } else if pos + n * 2 > data.len() {
        Parsed { result: Err("truncated whale payload"), pos }
    } else {
        Parsed { result: Ok(raw_i16(data, pos, n)), pos: pos + n * 2 }
    }
}

pub open spec fn raw_i16(data: Seq<u8>, pos: int, n: int) -> Seq<int> {
    Seq::new(n as nat, |i: int| half_at(data, pos + 2 * i))
}

pub open spec fn parse_raw_i32(data: Seq<u8>, pos: int, n: int) -> Parsed<Seq<int>> {
    if n * 4 > usize::MAX {
        Parsed { result: Err("bad whale length"), pos }
    } else if pos + n * 4 > data.len() {
        Parsed { result: Err("truncated whale payload"), pos }
    } else {
        Parsed { result: Ok(raw_i32(data, pos, n)), pos: pos + n * 4 }
    }
}

pub open spec fn raw_i32(data: Seq<u8>, pos: int, n: int) -> Seq<int> {
    Seq::new(n as nat, |i: int| wrap32(word_at(data, pos + 4 * i)))
}

pub fn read_rudi_i8(data: &[u8], offset: &mut usize, count: usize) -> (r: Result<
    Vec<i8>,
    &'static str,
>)
    ensures
        *final(offset) == parse_raw_i8(data@, *old(offset) as int, count as int).pos,
        match parse_raw_i8(data@, *old(offset) as int, count as int).result {
            Ok(items) => r matches Ok(v) && ints8(v@) == items,
            Err(e) => r == Err::<Vec<i8>, &'static str>(e),
        },
{
    let start: usize = *offset;
    if start > data.len() || count > data.len() - start {
        return Err("truncated whale payload");
    }
    let mut out: Vec<i8> = Vec::new();
    let mut i: usize = 0;
    while i < count
        invariant
            i <= count,
            start + count <= data.len(),
            out.len() == i,
            forall|k: int| 0 <= k < i ==> #[trigger] out@[k] == wrap8(data@[start + k] as int),
        decreases count - i,
    {
        out.push(byte_as_i8(data[start + i]));
        i = i + 1;
    }
    *offset = start + count;
    assert(ints8(out@) =~= raw_i8(data@, start as int, count as int));
    Ok(out)
}

/// The signed value of two bytes, low byte first.
fn half_word(lo: u8, hi: u8) -> (r: i16)
    ensures
        r == wrap16(lo as int + 0x100 * hi as int),
{
    let v: i32 = lo as i32 + 0x100 * hi as i32;
    if v >= 0x8000 {
        (v - 0x1_0000) as i16
    } else {
        v as i16
    }
}

pub fn read_rudi_i16(data: &[u8], offset: &mut usize, count: usize) -> (r: Result<
    Vec<i16>,
    &'static str,
>)
    ensures
        *final(offset) == parse_raw_i16(data@, *old(offset) as int, count as int).pos,
        match parse_raw_i16(data@, *old(offset) as int, count as int).result {
            Ok(items) => r matches Ok(v) && ints16(v@) == items,
            Err(e) => r == Err::<Vec<i16>, &'static str>(e),
        },
{
    let start: usize = *offset;
    if count > usize::MAX / 2 {
        return Err("bad whale length");
    }
    let bytes: usize = count * 2;
    if start > data.len() || bytes > data.len() - start {
        return Err("truncated whale payload");
    }
    let mut out: Vec<i16> = Vec::new();
    let mut i: usize = 0;
    while i < count
        invariant
            i <= count,
            bytes == count * 2,
            start + bytes <= data.len(),
            out.len() == i,
            forall|k: int| 0 <= k < i ==> #[trigger] out@[k] == half_at(data@, start + 2 * k),
        decreases count - i,
    {
        let p: usize = start + 2 * i;
        out.push(half_word(data[p], data[p + 1]));
        i = i + 1;
    }
    *offset = start + bytes;
    assert(ints16(out@) =~= raw_i16(data@, start as int, count as int));
    Ok(out)
}

pub fn read_rudi_i32(data: &[u8], offset: &mut usize, count: usize) -> (r: Result<
    Vec<i32>,
    &'static str,
>)
    ensures
        *final(offset) == parse_raw_i32(data@, *old(offset) as int, count as int).pos,
        match parse_raw_i32(data@, *old(offset) as int, count as int).result {
            Ok(items) => r matches Ok(v) && ints32(v@) == items,
            Err(e) => r == Err::<Vec<i32>, &'static str>(e),
        },
{
    let start: usize = *offset;
    if count > usize::MAX / 4 {
        return Err("bad whale length");
    }
    let bytes: usize = count * 4;
    if start > data.len() || bytes > data.len() - start {
        return Err("truncated whale payload");
    }
    let mut out: Vec<i32> = Vec::new();
    let mut i: usize = 0;
    let mut p: usize = start;
    while i < count
        invariant
            i <= count,
            bytes == count * 4,
            start + bytes <= data.len(),
            p == start + 4 * i,
            out.len() == i,
            forall|k: int|
                0 <= k < i ==> #[trigger] out@[k] == wrap32(word_at(data@, start + 4 * k)),
        decreases count - i,
    {
        if let Ok(v) = read_i32_le(data, &mut p) {
            out.push(v);
        }
        i = i + 1;
    }
    *offset = start + bytes;
    assert(ints32(out@) =~= raw_i32(data@, start as int, count as int));
    Ok(out)
}

/// Whether the data starts with the letters `RUDI`.
pub open spec fn rudi_tag(data: Seq<u8>) -> bool {
    data.len() >= 4 && data[0] == 82 && data[1] == 85 && data[2] == 68 && data[3] == 73
}

/// Where the weights of a raw dump start, or why it is none.
pub open spec fn raw_start(data: Seq<u8>) -> Result<int, &'static str> {
    if rudi_tag(data) {
        let len = parse_u32(data, 4);
        match len.result {
            Err(e) => Err(e),
            Ok(n) => if (n != RAW_PAYLOAD && n != RAW_PAYLOAD_PADDED) || data.len() != 8 + n {
                Err("unsupported RUDI payload layout")
            } else {
                Ok(8int)
            },
        }
    } else if data.len() == RAW_PAYLOAD || data.len() == RAW_PAYLOAD_PADDED {
        Ok(0int)
    } else {
        Err("not a whale net")
    }
}

/// Offsets of the parts of a raw dump.
pub const RAW_BIAS: usize = 177_963_008;
pub const RAW_FC0_W: usize = 177_965_056;
pub const RAW_FC0_BIAS: usize = 178_227_200;
pub const RAW_FC1_W: usize = 178_228_224;
pub const RAW_FC1_BIAS: usize = 178_230_272;
pub const RAW_FC2_W: usize = 178_230_400;
pub const RAW_FC2_BIAS: usize = 178_230_432;
pub const RAW_PSQT: usize = 178_230_436;

/// The feature weights of a raw dump that starts at `at`.
pub open spec fn raw_transformer(data: Seq<u8>, at: int) -> TransformerModel {
    TransformerModel {
        bias: raw_i16(data, at + RAW_BIAS, L1 as int),
        weights: raw_i16(data, at, PSQ_DIMS * 1024),
        threat_w: Seq::empty(),
        threat_w_i16: raw_i16(data, at + 2 * (PSQ_DIMS * 1024), THREAT_DIMS * 1024),
        psqt_w: raw_i32(data, at + RAW_PSQT, PSQ_DIMS * 8),
        threat_psqt_w: raw_i32(data, at + RAW_PSQT + 4 * (PSQ_DIMS * 8), THREAT_DIMS * 8),
        pair_w: Seq::empty(),
        pair_w_i16: raw_i16(
            data,
            at + 2 * ((PSQ_DIMS + THREAT_DIMS) * 1024),
            PAIR_DIMS * 1024,
        ),
        pair_psqt_w: raw_i32(
            data,
            at + RAW_PSQT + 4 * ((PSQ_DIMS + THREAT_DIMS) * 8),
            PAIR_DIMS * 8,
        ),
    }
}

/// The stack of one bucket: the first layer is stored input by input with all
/// buckets together, the others are shared.
pub open spec fn raw_stack(data: Seq<u8>, at: int, bucket: int) -> ArchModel {
    ArchModel {
        fc0_bias: Seq::new(
            32,
            |o: int| wrap32(word_at(data, at + RAW_FC0_BIAS + 4 * (bucket * 32 + o))),
        ),
        fc0_w: Seq::new(
            32_768,
            |k: int|
                wrap8(data[at + RAW_FC0_W + (k % 1024 * 256 + bucket * 32 + k / 1024)] as int),
        ),
        fc1_bias: raw_i32(data, at + RAW_FC1_BIAS, 32),
        fc1_w: Seq::new(2048, |k: int| wrap8(data[at + RAW_FC1_W + (k % 64 * 32 + k / 64)] as int)),
        fc2_bias: wrap32(word_at(data, at + RAW_FC2_BIAS)),
        fc2_w: Seq::new(
            128,
            |k: int|
                if k < 32 {
                    wrap8(data[at + RAW_FC2_W + k] as int)
                } else {
                    0
                },
        ),
        is_rudi: true,
    }
}

/// A raw dump.
pub open spec fn parse_raw_net(data: Seq<u8>) -> Result<NetModel, &'static str> {
    match raw_start(data) {
        Err(e) => Err(e),
        Ok(at) => Ok(
            NetModel {
                l1: 1024,
                use_threats: true,
                is_rudi: true,
                transformer: raw_transformer(data, at),
                stacks: Seq::new(8, |b: int| raw_stack(data, at, b)),
            },
        ),
    }
}

/// Where the weights of a raw dump start.
fn find_raw_start(data: &[u8]) -> (r: Result<usize, &'static str>)
    ensures
        match raw_start(data@) {
            Ok(at) => r matches Ok(p) && p == at && p + RAW_PAYLOAD <= data.len(),
            Err(e) => r == Err::<usize, &'static str>(e),
        },
{
    if data.len() >= 4 && data[0] == 82 && data[1] == 85 && data[2] == 68 && data[3] == 73 {
        let mut p: usize = 4;
        let n: u32 = match read_u32_le(data, &mut p) {
            Ok(v) => v,
            Err(e) => {
                return Err(e);
            },
        };
        let len: usize = n as usize;
        if (len != RAW_PAYLOAD && len != RAW_PAYLOAD_PADDED) || data.len() != 8 + len {
            return Err("unsupported RUDI payload layout");
        }
        Ok(8)
    } else if data.len() == RAW_PAYLOAD || data.len() == RAW_PAYLOAD_PADDED {
        Ok(0)
    } else {
        Err("not a whale net")
    }
}

/// Reads a part of a raw dump that is known to be there.
fn raw_part_i16(data: &[u8], at: usize, n: usize) -> (v: Vec<i16>)
    requires
        at + 2 * n <= data.len(),
    ensures
        ints16(v@) == raw_i16(data@, at as int, n as int),
{
    let mut p: usize = at;
    match read_rudi_i16(data, &mut p, n) {
        Ok(v) => v,
        Err(_) => Vec::new(),
    }
}

fn raw_part_i32(data: &[u8], at: usize, n: usize) -> (v: Vec<i32>)
    requires
        at + 4 * n <= data.len(),
    ensures
        ints32(v@) == raw_i32(data@, at as int, n as int),
{
    let mut p: usize = at;
    match read_rudi_i32(data, &mut p, n) {
        Ok(v) => v,
        Err(_) => Vec::new(),
    }
}

/// The feature weights of a raw dump.
fn raw_transformer_of(data: &[u8], at: usize) -> (t: SfnnTransformer)
    requires
        at + RAW_PAYLOAD <= data.len(),
    ensures
        t.model() == raw_transformer(data@, at as int),
{
    let mut t: SfnnTransformer = SfnnTransformer::default();
    t.bias = raw_part_i16(data, at + RAW_BIAS, L1);
    t.weights = raw_part_i16(data, at, PSQ_DIMS * L1);
    t.threat_w_i16 = raw_part_i16(data, at + 2 * (PSQ_DIMS * L1), THREAT_DIMS * L1);
    t.pair_w_i16 = raw_part_i16(data, at + 2 * ((PSQ_DIMS + THREAT_DIMS) * L1), PAIR_DIMS * L1);
    t.psqt_w = raw_part_i32(data, at + RAW_PSQT, PSQ_DIMS * N_BUCKETS);
    t.threat_psqt_w = raw_part_i32(
        data,
        at + RAW_PSQT + 4 * (PSQ_DIMS * N_BUCKETS),
        THREAT_DIMS * N_BUCKETS,
    );
    t.pair_psqt_w = raw_part_i32(
        data,
        at + RAW_PSQT + 4 * ((PSQ_DIMS + THREAT_DIMS) * N_BUCKETS),
        PAIR_DIMS * N_BUCKETS,
    );
    assert(t.model() =~= raw_transformer(data@, at as int));
    t
}

/// The first 32 numbers from `from` on, as an array.
fn row_of_32(v: &Vec<i32>, from: usize) -> (r: [i32; 32])
    requires
        from + 32 <= v.len(),
    ensures
        forall|k: int| 0 <= k < 32 ==> #[trigger] r@[k] == v@[from + k],
{
    let mut r: [i32; 32] = [0i32; 32];
    let mut i: usize = 0;
    while i < 32
        invariant
            i <= 32,
            from + 32 <= v.len(),
            forall|k: int| 0 <= k < i ==> #[trigger] r@[k] == v@[from + k],
        decreases 32 - i,
    {
        r[i] = v[from + i];
        i = i + 1;
    }
    r
}

/// The stack of one bucket of a raw dump.
fn raw_stack_of(data: &[u8], at: usize, bucket: usize) -> (a: SfnnArch)
    requires
        at + RAW_PAYLOAD <= data.len(),
        bucket < 8,
    ensures
        a.model() == raw_stack(data@, at as int, bucket as int),
{
    let l1b: Vec<i32> = raw_part_i32(data, at + RAW_FC0_BIAS, 256);
    let l2b: Vec<i32> = raw_part_i32(data, at + RAW_FC1_BIAS, 32);
    let outb: Vec<i32> = raw_part_i32(data, at + RAW_FC2_BIAS, 1);
    proof {
        assert(ints32(l1b@).len() == 256 && ints32(l2b@).len() == 32 && ints32(outb@).len() == 1);
        assert(ints32(outb@)[0] == outb@[0]);
    }
    let fc0_bias: [i32; 32] = row_of_32(&l1b, bucket * 32);
    let fc1_bias: [i32; 32] = row_of_32(&l2b, 0);
    let mut fc0_w: Vec<i8> = Vec::new();
    let mut k: usize = 0;
    while k < 32_768
        invariant
            k <= 32_768,
            bucket < 8,
            at + RAW_PAYLOAD <= data.len(),
            fc0_w.len() == k,
            forall|i: int|
                0 <= i < k ==> #[trigger] fc0_w@[i] == wrap8(
                    data@[at + RAW_FC0_W + (i % 1024 * 256 + bucket * 32 + i / 1024)] as int,
                ),
        decreases 32_768 - k,
    {
        fc0_w.push(byte_as_i8(data[at + RAW_FC0_W + (k % 1024 * 256 + bucket * 32 + k / 1024)]));
        k = k + 1;
    }
    let mut fc1_w: Vec<i8> = Vec::new();
    k = 0;
    while k < 2048
        invariant
            k <= 2048,
            at + RAW_PAYLOAD <= data.len(),
            fc1_w.len() == k,
            forall|i: int|
                0 <= i < k ==> #[trigger] fc1_w@[i] == wrap8(
                    data@[at + RAW_FC1_W + (i % 64 * 32 + i / 64)] as int,
                ),
        decreases 2048 - k,
    {
        fc1_w.push(byte_as_i8(data[at + RAW_FC1_W + (k % 64 * 32 + k / 64)]));
        k = k + 1;
    }
    let mut fc2_w: [i8; 128] = [0i8; 128];
    k = 0;
    while k < 32
        invariant
            k <= 32,
            at + RAW_PAYLOAD <= data.len(),
            forall|i: int|
                0 <= i < k ==> #[trigger] fc2_w@[i] == wrap8(data@[at + RAW_FC2_W + i] as int),
            forall|i: int| k <= i < 128 ==> #[trigger] fc2_w@[i] == 0,
        decreases 32 - k,
    {
        fc2_w[k] = byte_as_i8(data[at + RAW_FC2_W + k]);
        k = k + 1;
    }
    let a: SfnnArch = SfnnArch {
        fc0_bias,
        fc0_w,
        fc1_bias,
        fc1_w,
        fc2_bias: outb[0],
        fc2_w,
        is_rudi: true,
    };
    proof {
        let m = raw_stack(data@, at as int, bucket as int);
        assert forall|o: int| 0 <= o < 32 implies ints32(fc0_bias@)[o] == m.fc0_bias[o] by {
            assert(ints32(l1b@)[bucket * 32 + o] == l1b@[bucket * 32 + o]);
        }
        assert(ints32(fc0_bias@) =~= m.fc0_bias);
        assert forall|o: int| 0 <= o < 32 implies ints32(fc1_bias@)[o] == m.fc1_bias[o] by {
            assert(ints32(l2b@)[o] == l2b@[o]);
        }
        assert(ints32(fc1_bias@) =~= m.fc1_bias);
        assert(ints8(fc0_w@) =~= m.fc0_w);
        assert(ints8(fc1_w@) =~= m.fc1_w);
        assert(ints8(fc2_w@) =~= m.fc2_w);
    }
    a
}

/// Whether a file holds a raw dump rather than the tagged format.
pub open spec fn is_raw_file(data: Seq<u8>) -> bool {
    rudi_tag(data) || data.len() == RAW_PAYLOAD || data.len() == RAW_PAYLOAD_PADDED
}

/// What a network file holds, whichever of the two formats it is in.
pub open spec fn parse_net_file(data: Seq<u8>, use_threats: bool, l1: int) -> Result<
    NetModel,
    &'static str,
> {
    if is_raw_file(data) {
        parse_raw_net(data)
    } else {
        parse_net(data, use_threats, l1)
    }
}

impl Sfnn16Net {
    pub open spec fn model(&self) -> NetModel {
        NetModel {
            l1: self.l1 as int,
            use_threats: self.use_threats,
            is_rudi: self.is_rudi,
            transformer: self.transformer.model(),
            stacks: arch_models(self.stacks@),
        }
    }

    /// Reads a network of width `l1` in the tagged format.
    pub fn load_bytes(data: &[u8], use_threats: bool, l1: usize) -> (r: Result<
        Sfnn16Net,
        &'static str,
    >)
        requires
            l1 * 2 <= u32::MAX,
            (THREAT_DIMS + PSQ_DIMS) * l1 <= usize::MAX,
        ensures
            match parse_net(data@, use_threats, l1 as int) {
                Ok(m) => r matches Ok(net) && net.model() == m,
                Err(e) => r == Err::<Sfnn16Net, &'static str>(e),
            },
    {
        proof {
            lemma_list_sizes(l1 as int);
        }
        let mut pos: usize = 0;
        if let Err(e) = read_header(data, &mut pos, use_threats, l1) {
            return Err(e);
        }
        let transformer: SfnnTransformer = match read_transformer(data, &mut pos, use_threats, l1) {
            Ok(t) => t,
            Err(e) => {
                return Err(e);
            },
        };
        let stacks: Vec<SfnnArch> = match read_stacks(data, &mut pos, l1) {
            Ok(v) => v,
            Err(e) => {
                return Err(e);
            },
        };
        if pos != data.len() {
            return Err("trailing data after network");
        }
        Ok(Sfnn16Net { l1, use_threats, is_rudi: false, transformer, stacks })
    }

    /// Reads a raw dump.
    pub fn load_rudi(data: &[u8]) -> (r: Result<Sfnn16Net, &'static str>)
        ensures
            match parse_raw_net(data@) {
                Ok(m) => r matches Ok(net) && net.model() == m,
                Err(e) => r == Err::<Sfnn16Net, &'static str>(e),
            },
    {
        let at: usize = match find_raw_start(data) {
            Ok(p) => p,
            Err(e) => {
                return Err(e);
            },
        };
        let transformer: SfnnTransformer = raw_transformer_of(data, at);
        let mut stacks: Vec<SfnnArch> = Vec::new();
        let mut b: usize = 0;
        while b < 8
            invariant
                b <= 8,
                at + RAW_PAYLOAD <= data.len(),
                stacks.len() == b,
                forall|i: int|
                    0 <= i < b ==> (#[trigger] stacks@[i]).model() == raw_stack(
                        data@,
                        at as int,
                        i,
                    ),
            decreases 8 - b,
        {
            stacks.push(raw_stack_of(data, at, b));
            b = b + 1;
        }
        proof {
            let m = parse_raw_net(data@)->Ok_0;
            assert(arch_models(stacks@) =~= m.stacks);
        }
        Ok(Sfnn16Net { l1: L1, use_threats: true, is_rudi: true, transformer, stacks })
    }

    /// Reads the contents of a network file, whichever format they are in.
    pub fn load_contents(data: &[u8], use_threats: bool, l1: usize) -> (r: Result<
        Sfnn16Net,
        &'static str,
    >)
        requires
            l1 * 2 <= u32::MAX,
            (THREAT_DIMS + PSQ_DIMS) * l1 <= usize::MAX,
        ensures
            match parse_net_file(data@, use_threats, l1 as int) {
                Ok(m) => r matches Ok(net) && net.model() == m,
                Err(e) => r == Err::<Sfnn16Net, &'static str>(e),
            },
    {
        let tagged: bool = data.len() >= 4 && data[0] == 82 && data[1] == 85 && data[2] == 68
            && data[3] == 73;
        if tagged || data.len() == RAW_PAYLOAD_PADDED || data.len() == RAW_PAYLOAD {
            return Sfnn16Net::load_rudi(data);
        }
        Sfnn16Net::load_bytes(data, use_threats, l1)
    }
}

/// Where the numbers of a layer stack stand behind its hash: 32 words of
/// biases, the rows of the first layer, 32 words, 2048 bytes of the second
/// layer, one word, 128 bytes of the last layer.
#[verifier::rlimit(60)]
pub proof fn law_stack_layout(data: Seq<u8>, pos: int, fc0_in: int, expected_hash: int, i: int)
    requires
        0 <= pos,
        fc0_in >= 0,
        fc0_in % 32 == 0,
        parse_u32(data, pos).result == Ok::<int, &'static str>(expected_hash),
        pos + 2440 + 32 * fc0_in <= data.len(),
    ensures
        ({
            let p = parse_arch(data, pos, fc0_in, expected_hash);
            let at = pos + 132 + 32 * fc0_in;
            &&& p.pos == pos + 2440 + 32 * fc0_in
            &&& p.result matches Ok(m) && {
                &&& 0 <= i < 32 ==> m.fc0_bias[i] == wrap32(word_at(data, pos + 4 + 4 * i))
                &&& 0 <= i < 32 * fc0_in ==> m.fc0_w[i] == wrap8(data[pos + 132 + i] as int)
                &&& 0 <= i < 32 ==> m.fc1_bias[i] == wrap32(word_at(data, at + 4 * i))
                &&& 0 <= i < 2048 ==> m.fc1_w[i] == wrap8(data[at + 128 + i] as int)
                &&& m.fc2_bias == wrap32(word_at(data, at + 2176))
                &&& 0 <= i < 128 ==> m.fc2_w[i] == wrap8(data[at + 2180 + i] as int)
                &&& !m.is_rudi
            }
        }),
{
    law_words_follow_each_other(data, pos + 4, 32);
    law_words_follow_each_other(data, pos + 132 + 32 * fc0_in, 32);
    assert(padded_width(fc0_in) == fc0_in);
}

/// A stack with another hash than the one expected is refused.
pub proof fn law_wrong_hash_is_refused(data: Seq<u8>, pos: int, fc0_in: int, hash: int, other: int)
    requires
        parse_u32(data, pos).result == Ok::<int, &'static str>(hash),
        hash != other,
    ensures
        parse_arch(data, pos, fc0_in, other).result == Err::<ArchModel, &'static str>(
            "bad arch hash",
        ),
{
}

/// A file starts with one of two versions, its hash, a description with its
/// length before it, and the hash of the transformer; the hashes are looked at
/// only where threats are asked for. Any other version is refused.
#[verifier::rlimit(60)]
pub proof fn law_header(
    data: Seq<u8>,
    use_threats: bool,
    l1: int,
    version: int,
    hash: int,
    len: int,
    inner: int,
)
    requires
        parse_u32(data, 0).result == Ok::<int, &'static str>(version),
        parse_u32(data, 4).result == Ok::<int, &'static str>(hash),
        parse_u32(data, 8).result == Ok::<int, &'static str>(len),
        0 <= len,
        12 + len <= data.len(),
        parse_u32(data, 12 + len).result == Ok::<int, &'static str>(inner),
    ensures
        ({
            let p = parse_header(data, use_threats, l1);
            let known = version == 0x7AF3_2F20 || version == 0x6A44_8AFA;
            let matching = hash == network_hash_spec(true, l1 as u32) && inner
                == transformer_hash_spec(true, l1 as u32);
            &&& p.result is Ok <==> known && (!use_threats || matching)
            &&& p.result is Ok ==> p.pos == 16 + len
        }),
{
}

/// In a file with one block for threats and pieces the threats come first: what
/// is behind them belongs to the pieces.
pub proof fn law_threats_stand_first(
    data: Seq<u8>,
    pos: int,
    l1: int,
    bias: Seq<int>,
    dims: int,
    all: Seq<int>,
    psqt: Seq<int>,
    i: int,
)
    requires
        l1 >= 0,
        dims >= 0,
        parse_section(false, data, pos, (dims + PSQ_DIMS) * l1).result == Ok::<
            Seq<int>,
            &'static str,
        >(all),
        all.len() == (dims + PSQ_DIMS) * l1,
        parse_section(
            true,
            data,
            parse_section(false, data, pos, (dims + PSQ_DIMS) * l1).pos,
            (dims + PSQ_DIMS) * 8,
        ).result == Ok::<Seq<int>, &'static str>(psqt),
        psqt.len() == (dims + PSQ_DIMS) * 8,
    ensures
        parse_combined(data, pos, l1, bias, dims).result matches Ok(m) && {
            &&& m.bias == bias
            &&& 0 <= i < dims * l1 ==> m.threat_w[i] == wrap8(all[i])
            &&& 0 <= i < PSQ_DIMS * l1 ==> m.weights[i] == all[dims * l1 + i]
            &&& 0 <= i < dims * 8 ==> m.threat_psqt_w[i] == psqt[i]
            &&& 0 <= i < PSQ_DIMS * 8 ==> m.psqt_w[i] == psqt[dims * 8 + i]
            &&& m.pair_w.len() == 0
        },
{
    assert((dims + PSQ_DIMS) * l1 == dims * l1 + PSQ_DIMS * l1) by (nonlinear_arith);
    assert(dims * l1 >= 0) by (nonlinear_arith)
        requires
            dims >= 0,
            l1 >= 0,
    ;
}

/// A raw dump has the size of one, or the tag of one; anything else is read as
/// a network file.
pub proof fn law_raw_dumps_are_known_by_size(data: Seq<u8>, use_threats: bool, l1: int)
    ensures
        data.len() == 181_011_108 || data.len() == 181_011_136 ==> parse_net_file(
            data,
            use_threats,
            l1,
        ) == parse_raw_net(data),
        data.len() >= 4 && data.take(4) == seq![82u8, 85u8, 68u8, 73u8] ==> parse_net_file(
            data,
            use_threats,
            l1,
        ) == parse_raw_net(data),
        data.len() < 4 ==> parse_net_file(data, use_threats, l1) == parse_net(
            data,
            use_threats,
            l1,
        ),
        data.len() >= 4 && data[0] != 82 && data.len() != 181_011_108 && data.len() != 181_011_136
            ==> parse_net_file(data, use_threats, l1) == parse_net(data, use_threats, l1),
{
    if data.len() >= 4 && data.take(4) == seq![82u8, 85u8, 68u8, 73u8] {
        assert(data.take(4)[0] == 82u8 && data.take(4)[1] == 85u8);
        assert(data.take(4)[2] == 68u8 && data.take(4)[3] == 73u8);
    }
}

/// The sections of a transformer without threats: biases, weights for every
/// feature, and eight bucket weights for every feature.
pub proof fn law_plain_sections(
    data: Seq<u8>,
    pos: int,
    l1: int,
    bias: Parsed<Seq<int>>,
    weights: Parsed<Seq<int>>,
    buckets: Parsed<Seq<int>>,
)
    requires
        bias == parse_section(false, data, pos, l1),
        bias.result is Ok,
        weights == parse_section(false, data, bias.pos, 22_528 * l1),
        weights.result is Ok,
        buckets == parse_section(true, data, weights.pos, 180_224),
        buckets.result is Ok,
    ensures
        ({
            let p = parse_transformer(data, pos, false, l1);
            &&& p.pos == buckets.pos
            &&& p.result matches Ok(m) && m.bias == bias.result->Ok_0 && m.weights
                == weights.result->Ok_0 && m.psqt_w == buckets.result->Ok_0 && m.threat_w.len() == 0
                && m.pair_w.len() == 0
        }),
{
}

/// The sections of a transformer with threats and pairs apart: biases, threat
/// weights as bytes, their buckets, pair weights as bytes, their buckets, and
/// then the weights of the pieces and their buckets.
#[verifier::rlimit(60)]
pub proof fn law_split_sections(
    data: Seq<u8>,
    pos: int,
    l1: int,
    bias: Parsed<Seq<int>>,
    threats: Parsed<Seq<int>>,
    threat_buckets: Parsed<Seq<int>>,
    pairs: Parsed<Seq<int>>,
    pair_buckets: Parsed<Seq<int>>,
    rest: Parsed<TransformerModel>,
)
    requires
        bias == parse_section(false, data, pos, l1),
        bias.result is Ok,
        split_layout(data, bias.pos, l1),
        threats == parse_bytes(data, bias.pos, 59_808 * l1, "truncated threat weights"),
        threats.result is Ok,
        threat_buckets == parse_section(true, data, threats.pos, 478_464),
        threat_buckets.result is Ok,
        pairs == parse_bytes(data, threat_buckets.pos, 4560 * l1, "truncated pair weights"),
        pairs.result is Ok,
        pair_buckets == parse_section(true, data, pairs.pos, 36_480),
        pair_buckets.result is Ok,
        rest == parse_plain(data, pair_buckets.pos, l1, bias.result->Ok_0),
        rest.result is Ok,
    ensures
        ({
            let p = parse_transformer(data, pos, true, l1);
            &&& p.pos == rest.pos
            &&& p.result matches Ok(m) && m.threat_w == threats.result->Ok_0 && m.threat_psqt_w
                == threat_buckets.result->Ok_0 && m.pair_w == pairs.result->Ok_0 && m.pair_psqt_w
                == pair_buckets.result->Ok_0 && m.weights == rest.result->Ok_0.weights && m.psqt_w
                == rest.result->Ok_0.psqt_w && m.bias == bias.result->Ok_0
        }),
{
}

/// Layer stacks follow each other, each with the hash of the network.
pub proof fn law_stacks_follow_each_other(
    data: Seq<u8>,
    pos: int,
    l1: int,
    n: int,
    front: Seq<ArchModel>,
    at: int,
    last: ArchModel,
    end: int,
)
    requires
        n >= 0,
        parse_stacks(data, pos, l1, n) == (Parsed { result: Ok(front), pos: at }),
        parse_arch(data, at, l1, arch_hash_spec(l1 as u32) as int) == (Parsed {
            result: Ok(last),
            pos: end,
        }),
    ensures
        parse_stacks(data, pos, l1, n + 1) == (Parsed { result: Ok(front.push(last)), pos: end }),
        parse_stacks(data, pos, l1, 0) == (Parsed {
            result: Ok(Seq::<ArchModel>::empty()),
            pos,
        }),
{
}

/// A network is its header, its transformer and eight layer stacks, and nothing
/// behind them.
pub proof fn law_network_parts(
    data: Seq<u8>,
    use_threats: bool,
    l1: int,
    at: int,
    transformer: TransformerModel,
    from: int,
    stacks: Seq<ArchModel>,
)
    requires
        parse_header(data, use_threats, l1) == (Parsed { result: Ok(()), pos: at }),
        parse_transformer(data, at, use_threats, l1) == (Parsed {
            result: Ok(transformer),
            pos: from,
        }),
        parse_stacks(data, from, l1, 8) == (Parsed {
            result: Ok(stacks),
            pos: data.len() as int,
        }),
    ensures
        parse_net(data, use_threats, l1) matches Ok(m) && m.transformer == transformer && m.stacks
            == stacks && m.l1 == l1 && m.use_threats == use_threats && !m.is_rudi,
{
}

/// A raw dump holds signed numbers with the low byte first.
pub proof fn law_raw_numbers(data: Seq<u8>, pos: int, n: int, i: int)
    requires
        0 <= i < n,
    ensures
        raw_i8(data, pos, n)[i] == if data[pos + i] < 128 {
            data[pos + i] as int
        } else {
            data[pos + i] - 256
        },
        raw_i16(data, pos, n)[i] == wrap16(data[pos + 2 * i] + 256 * data[pos + 2 * i + 1]),
        raw_i32(data, pos, n)[i] == wrap32(
            data[pos + 4 * i] + 256 * data[pos + 4 * i + 1] + 65_536 * data[pos + 4 * i + 2]
                + 16_777_216 * data[pos + 4 * i + 3],
        ),
        raw_i8(data, pos, n).len() == n && raw_i16(data, pos, n).len() == n && raw_i32(
            data,
            pos,
            n,
        ).len() == n,
{
}

/// Reading raw numbers takes one, two or four bytes for each, and fails exactly
/// where there are not as many.
pub proof fn law_raw_reads(data: Seq<u8>, pos: int, n: int)
    requires
        0 <= pos,
        0 <= 4 * n <= usize::MAX,
    ensures
        parse_raw_i8(data, pos, n).result is Ok <==> pos + n <= data.len(),
        parse_raw_i16(data, pos, n).result is Ok <==> pos + 2 * n <= data.len(),
        parse_raw_i32(data, pos, n).result is Ok <==> pos + 4 * n <= data.len(),
        pos + n <= data.len() ==> parse_raw_i8(data, pos, n).pos == pos + n,
        pos + 2 * n <= data.len() ==> parse_raw_i16(data, pos, n).pos == pos + 2 * n,
        pos + 4 * n <= data.len() ==> parse_raw_i32(data, pos, n).pos == pos + 4 * n,
{
}

/// The blocks of a raw dump follow each other: weights of pieces, threats and
/// pairs, biases, the layers, and the buckets of pieces, threats and pairs.
#[verifier::rlimit(60)]
pub proof fn law_raw_blocks(data: Seq<u8>, at: int, i: int)
    requires
        0 <= i < 1024,
    ensures
        ({
            let t = raw_transformer(data, at);
            &&& t.weights[i] == wrap16(data[at + 2 * i] + 256 * data[at + 2 * i + 1])
            &&& t.threat_w_i16[i] == wrap16(
                data[at + 46_137_344 + 2 * i] + 256 * data[at + 46_137_344 + 2 * i + 1],
            )
            &&& t.pair_w_i16[i] == wrap16(
                data[at + 168_624_128 + 2 * i] + 256 * data[at + 168_624_128 + 2 * i + 1],
            )
            &&& t.bias[i] == wrap16(
                data[at + 177_963_008 + 2 * i] + 256 * data[at + 177_963_008 + 2 * i + 1],
            )
            &&& t.psqt_w[i] == wrap32(word_at(data, at + 178_230_436 + 4 * i))
            &&& t.threat_psqt_w[i] == wrap32(word_at(data, at + 178_951_332 + 4 * i))
            &&& t.pair_psqt_w[i] == wrap32(word_at(data, at + 180_865_188 + 4 * i))
        }),
{
}

} // verus!
