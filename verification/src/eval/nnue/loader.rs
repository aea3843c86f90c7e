//! The small network: weights, byte form and fingerprint.

use vstd::prelude::*;

use crate::eval::nnue::{ACC_SIZE, INPUT_SIZE};
use crate::math::wrap16;
use crate::text::{decimal, from_chars, push_decimal, push_str};

verus! {

/// Facts about a network that identify it.
#[derive(Clone, Copy, Debug, PartialEq, Eq)]
pub struct NetworkMetadata {
    pub input_size: usize,
    pub acc_size: usize,
    pub output_size: usize,
    pub bytes: usize,
    pub checksum: u64,
}

#[derive(Clone, Debug)]
pub struct Network {
    pub transformer_weights: Vec<i16>,
    pub transformer_biases: Vec<i16>,
    pub output_weights: Vec<i16>,
    pub output_bias: i16,
}

/// Number of weights.
pub const NETWORK_WORDS: usize = 197_377;

/// Size of the byte form: the weights, then zeros up to a whole cache line.
pub const NETWORK_BYTES: usize = 394_816;

pub const FNV_OFFSET: u64 = 14_695_981_039_346_656_037;

pub const FNV_PRIME: u64 = 1_099_511_628_211;

/// One byte of a 16-bit number, the low one first.
pub open spec fn byte_of(w: int, k: int) -> u8 {
    if k == 0 {
        (w % 0x100) as u8
    } else {
        (w % 0x1_0000 / 0x100) as u8
    }
}

/// Fingerprint of the first `n` bytes of some data.
pub open spec fn fingerprint(data: Seq<u8>, n: int) -> u64
    decreases n,
{
    if n <= 0 {
        FNV_OFFSET
    } else {
        (fingerprint(data, n - 1) ^ (data[n - 1] as u64)).wrapping_mul(FNV_PRIME)
    }
}

fn checksum_bytes(data: &[u8]) -> (r: u64)
    ensures
        r == fingerprint(data@, data.len() as int),
{
    let mut hash: u64 = FNV_OFFSET;
    let mut i: usize = 0;
    while i < data.len()
        invariant
            i <= data.len(),
            hash == fingerprint(data@, i as int),
        decreases data.len() - i,
    {
        hash = (hash ^ data[i] as u64).wrapping_mul(FNV_PRIME);
        i = i + 1;
    }
    hash
}

fn push_words(out: &mut Vec<u8>, list: &Vec<i16>)
    ensures
        final(out)@ == old(out)@ + list_bytes(list@),
{
    let ghost start = out@;
    let mut i: usize = 0;
    while i < list.len()
        invariant
            i <= list.len(),
            out.len() == start.len() + 2 * i,
            forall|k: int| 0 <= k < start.len() ==> out@[k] == start[k],
            forall|k: int|
                0 <= k < 2 * i ==> #[trigger] out@[start.len() + k] == list_bytes(list@)[k],
        decreases list.len() - i,
    {
        let w: i32 = list[i] as i32 + 0x1_0000;
        let ghost before = out@;
        assert(w as int % 0x1_0000 == list@[i as int] as int % 0x1_0000);
        assert(w as int % 0x100 == list@[i as int] as int % 0x100);
        out.push((w % 0x100) as u8);
        out.push((w % 0x1_0000 / 0x100) as u8);
        proof {
            assert forall|k: int| 0 <= k < 2 * (i + 1) implies #[trigger] out@[start.len() + k]
                == list_bytes(list@)[k] by {
                if k < 2 * i {
                    assert(out@[start.len() + k] == before[start.len() + k]);
                }
            }
        }
        i = i + 1;
    }
    proof {
        let want = start + list_bytes(list@);
        assert forall|j: int| 0 <= j < out.len() implies out@[j] == want[j] by {
            if j >= start.len() {
                let k = j - start.len();
                assert(out@[start.len() + k] == list_bytes(list@)[k]);
            }
        }
        assert(out@ =~= want);
    }
}

/// Low byte first, word by word.
pub open spec fn list_bytes(list: Seq<i16>) -> Seq<u8> {
    Seq::new(2 * list.len(), |k: int| byte_of(list[k / 2] as int, k % 2))
}

/// The 16-bit number at some bytes.
pub open spec fn word_of(data: Seq<u8>, at: int) -> int {
    wrap16(data[at] + 0x100 * data[at + 1])
}

fn read_words(data: &[u8], from: usize, n: usize) -> (r: Vec<i16>)
    requires
        n <= 1_000_000,
        from + 2 * n <= data.len(),
    ensures
        r.len() == n,
        forall|i: int| 0 <= i < n ==> #[trigger] r@[i] == word_of(data@, from + 2 * i),
{
    let mut r: Vec<i16> = Vec::new();
    let mut i: usize = 0;
    while i < n
        invariant
            i <= n <= 1_000_000,
            from + 2 * n <= data.len(),
            r.len() == i,
            forall|k: int| 0 <= k < i ==> #[trigger] r@[k] == word_of(data@, from + 2 * k),
        decreases n - i,
    {
        let x: i32 = data[from + 2 * i] as i32 + 0x100 * data[from + 2 * i + 1] as i32;
        let w: i16 = if x >= 0x8000 {
            (x - 0x1_0000) as i16
        } else {
            x as i16
        };
        r.push(w);
        i = i + 1;
    }
    r
}

fn zeros(n: usize) -> (r: Vec<i16>)
    ensures
        r.len() == n,
        forall|i: int| 0 <= i < n ==> #[trigger] r@[i] == 0,
{
    let mut r: Vec<i16> = Vec::new();
    let mut i: usize = 0;
    while i < n
        invariant
            i <= n,
            r.len() == i,
            forall|k: int| 0 <= k < i ==> #[trigger] r@[k] == 0,
        decreases n - i,
    {
        r.push(0);
        i = i + 1;
    }
    r
}

fn copy_words(data: &[i16], from: usize, n: usize) -> (r: Vec<i16>)
    requires
        from + n <= data.len(),
    ensures
        r@ == data@.subrange(from as int, from + n),
{
    let mut r: Vec<i16> = Vec::new();
    let mut i: usize = 0;
    while i < n
        invariant
            i <= n,
            from + n <= data.len(),
            r@ == data@.subrange(from as int, from + i),
        decreases n - i,
    {
        r.push(data[from + i]);
        i = i + 1;
        assert(r@ =~= data@.subrange(from as int, from + i));
    }
    r
}

/// The description that is kept beside a saved network.
pub open spec fn description(m: &NetworkMetadata) -> Seq<char> {
    "{\n  \"input_size\": "@ + decimal(m.input_size as int) + ",\n  \"acc_size\": "@ + decimal(
        m.acc_size as int,
    ) + ",\n  \"output_size\": "@ + decimal(m.output_size as int) + ",\n  \"bytes\": "@ + decimal(
        m.bytes as int,
    ) + ",\n  \"checksum\": "@ + decimal(m.checksum as int) + "\n}\n"@
}

/// Writes the description of a network.
pub fn metadata_text(m: &NetworkMetadata) -> (r: String)
    ensures
        r@ == description(m),
{
    let mut out: Vec<char> = Vec::new();
    push_str(&mut out, "{\n  \"input_size\": ");
    assert(out@ =~= "{\n  \"input_size\": "@);
    push_decimal(&mut out, m.input_size as u64);
    push_str(&mut out, ",\n  \"acc_size\": ");
    push_decimal(&mut out, m.acc_size as u64);
    push_str(&mut out, ",\n  \"output_size\": ");
    push_decimal(&mut out, m.output_size as u64);
    push_str(&mut out, ",\n  \"bytes\": ");
    push_decimal(&mut out, m.bytes as u64);
    push_str(&mut out, ",\n  \"checksum\": ");
    push_decimal(&mut out, m.checksum);
    push_str(&mut out, "\n}\n");
    from_chars(&out)
}

impl Network {
    /// The lists have the sizes of the architecture.
    pub open spec fn wf(&self) -> bool {
        &&& self.transformer_weights.len() == 196_608
        &&& self.transformer_biases.len() == 256
        &&& self.output_weights.len() == 512
    }

    /// Every weight, in file order.
    pub open spec fn words(&self) -> Seq<i16> {
        self.transformer_weights@ + self.transformer_biases@ + self.output_weights@ + seq![
            self.output_bias,
        ]
    }

    /// The byte form.
    pub open spec fn bytes(&self) -> Seq<u8> {
        list_bytes(self.words()) + Seq::new(62, |i: int| 0u8)
    }

    /// Whether every weight is zero.
    pub open spec fn is_zero(&self) -> bool {
        forall|i: int| 0 <= i < NETWORK_WORDS ==> #[trigger] self.words()[i] == 0
    }

    /// A network of zeros.
    pub fn new_boxed() -> (r: Box<Network>)
        ensures
            r.wf(),
            r.is_zero(),
    {
        Box::new(
            Network {
                transformer_weights: zeros(INPUT_SIZE * ACC_SIZE),
                transformer_biases: zeros(ACC_SIZE),
                output_weights: zeros(2 * ACC_SIZE),
                output_bias: 0,
            },
        )
    }

    /// A network of zeros.
    pub fn zeroed() -> (r: Box<Network>)
        ensures
            r.wf(),
            r.is_zero(),
    {
        Network::new_boxed()
    }

    /// Replaces every weight by a drawn one, in file order.
    pub fn randomize(&mut self, draws: &[i16])
        requires
            draws.len() == NETWORK_WORDS,
        ensures
            final(self).wf(),
            final(self).words() == draws@,
    {
        self.transformer_weights = copy_words(draws, 0, 196_608);
        self.transformer_biases = copy_words(draws, 196_608, 256);
        self.output_weights = copy_words(draws, 196_864, 512);
        self.output_bias = draws[197_376];
        assert(self.words() =~= draws@);
    }

    /// The byte form of the network, as it is saved.
    pub fn to_bytes(&self) -> (r: Vec<u8>)
        requires
            self.wf(),
        ensures
            r@ == self.bytes(),
            r.len() == NETWORK_BYTES,
    {
        let mut out: Vec<u8> = Vec::new();
        push_words(&mut out, &self.transformer_weights);
        push_words(&mut out, &self.transformer_biases);
        push_words(&mut out, &self.output_weights);
        let mut last: Vec<i16> = Vec::new();
        last.push(self.output_bias);
        push_words(&mut out, &last);
        assert(out@ =~= list_bytes(self.words()));
        let mut i: usize = 0;
        while i < 62
            invariant
                i <= 62,
                out@ == list_bytes(self.words()) + Seq::new(i as nat, |k: int| 0u8),
            decreases 62 - i,
        {
            out.push(0);
            i = i + 1;
            assert(out@ =~= list_bytes(self.words()) + Seq::new(i as nat, |k: int| 0u8));
        }
        out
    }

    /// Reads a network back from its byte form; data of another size is none.
    pub fn from_bytes(data: &[u8]) -> (r: Option<Network>)
        ensures
            r is Some <==> data.len() == NETWORK_BYTES,
            r matches Some(n) ==> n.wf() && forall|i: int|
                0 <= i < NETWORK_WORDS ==> #[trigger] n.words()[i] == word_of(data@, 2 * i),
    {
        if data.len() != NETWORK_BYTES {
            return None;
        }
        let n: Network = Network {
            transformer_weights: read_words(data, 0, 196_608),
            transformer_biases: read_words(data, 393_216, 256),
            output_weights: read_words(data, 393_728, 512),
            output_bias: read_words(data, 394_752, 1)[0],
        };
        proof {
            assert forall|i: int| 0 <= i < NETWORK_WORDS implies #[trigger] n.words()[i]
                == word_of(data@, 2 * i) by {
                if i < 196_608 {
                    assert(n.words()[i] == n.transformer_weights@[i]);
                } else if i < 196_864 {
                    assert(n.words()[i] == n.transformer_biases@[i - 196_608]);
                } else if i < 197_376 {
                    assert(n.words()[i] == n.output_weights@[i - 196_864]);
                }
            }
        }
        Some(n)
    }

    /// Shape and fingerprint of the network.
    pub fn metadata(&self) -> (r: NetworkMetadata)
        requires
            self.wf(),
        ensures
            r.input_size == INPUT_SIZE,
            r.acc_size == ACC_SIZE,
            r.output_size == 1,
            r.bytes == NETWORK_BYTES,
            r.checksum == fingerprint(self.bytes(), NETWORK_BYTES as int),
    {
        let data: Vec<u8> = self.to_bytes();
        NetworkMetadata {
            input_size: INPUT_SIZE,
            acc_size: ACC_SIZE,
            output_size: 1,
            bytes: data.len(),
            checksum: checksum_bytes(data.as_slice()),
        }
    }
}

impl Default for Box<Network> {
    fn default() -> (r: Self)
        ensures
            r.wf(),
            r.is_zero(),
    {
        Network::new_boxed()
    }
}

/// Reading back the byte form of a network gives the same weights.
pub proof fn law_bytes_roundtrip(net: &Network, back: &Network)
    requires
        net.wf(),
        back.wf(),
        forall|i: int|
            0 <= i < NETWORK_WORDS ==> #[trigger] back.words()[i] == word_of(net.bytes(), 2 * i),
    ensures
        back.words() == net.words(),
{
    assert forall|i: int| 0 <= i < NETWORK_WORDS implies #[trigger] back.words()[i]
        == net.words()[i] by {
        let w = net.words()[i] as int;
        assert(net.bytes()[2 * i] == byte_of(w, 0));
        assert(net.bytes()[2 * i + 1] == byte_of(w, 1));
        assert(w % 0x1_0000 == w % 0x100 + 0x100 * (w % 0x1_0000 / 0x100));
    }
    assert(back.words() =~= net.words());
}

/// Words are written with the low byte first, negative ones as their
/// complement.
pub proof fn law_low_byte_first(w: i16, data: Seq<u8>)
    requires
        data == list_bytes(seq![w]),
    ensures
        data.len() == 2,
        w >= 0 ==> data[0] as int + 256 * data[1] as int == w,
        w < 0 ==> data[0] as int + 256 * data[1] as int == w + 65_536,
        word_of(data, 0) == w,
{
    let v = w as int;
    assert(v % 0x1_0000 == v % 0x100 + 0x100 * (v % 0x1_0000 / 0x100));
    assert(data[0] == byte_of(v, 0));
    assert(data[1] == byte_of(v, 1));
}

/// The words of a network: the weights of the features, then the biases, then
/// the output weights, then the output bias; the file ends in 62 zeros.
pub proof fn law_words_of_a_network(net: &Network, i: int)
    requires
        net.wf(),
    ensures
        net.words().len() == NETWORK_WORDS,
        0 <= i < 196_608 ==> net.words()[i] == net.transformer_weights@[i],
        0 <= i < 256 ==> net.words()[196_608 + i] == net.transformer_biases@[i],
        0 <= i < 512 ==> net.words()[196_864 + i] == net.output_weights@[i],
        net.words()[197_376] == net.output_bias,
        net.bytes().len() == NETWORK_BYTES,
        2 * 197_377 <= i < NETWORK_BYTES ==> net.bytes()[i] == 0,
{
}

/// The fingerprint of a text is the start value without bytes, and each byte is
/// mixed in before the multiplication.
pub proof fn law_fingerprint_mixes_bytes(data: Seq<u8>, byte: u8)
    ensures
        fingerprint(data, 0) == 14_695_981_039_346_656_037u64,
        fingerprint(data.push(byte), data.len() as int + 1) == (fingerprint(
            data,
            data.len() as int,
        ) ^ (byte as u64)).wrapping_mul(1_099_511_628_211u64),
{
    lemma_fingerprint_same(data, data.push(byte), data.len() as int);
}

proof fn lemma_fingerprint_same(a: Seq<u8>, b: Seq<u8>, n: int)
    requires
        n <= a.len(),
        n <= b.len(),
        forall|i: int| 0 <= i < n ==> a[i] == b[i],
    ensures
        fingerprint(a, n) == fingerprint(b, n),
    decreases n,
{
    if n > 0 {
        lemma_fingerprint_same(a, b, n - 1);
    }
}

} // verus!
