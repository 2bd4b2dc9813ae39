use vstd::prelude::*;
use byteorder::ByteOrder;
use crate::activation::{ActivationFunction, lemma_tag_round_trip};

verus! {

/// The four little-endian bytes of `x`.
pub open spec fn le32_bytes(x: u32) -> Seq<u8> {
    seq![x as u8, (x >> 8) as u8, (x >> 16) as u8, (x >> 24) as u8]
}

/// The eight little-endian bytes of `x`.
pub open spec fn le64_bytes(x: u64) -> Seq<u8> {
    seq![
        x as u8,
        (x >> 8) as u8,
        (x >> 16) as u8,
        (x >> 24) as u8,
        (x >> 32) as u8,
        (x >> 40) as u8,
        (x >> 48) as u8,
        (x >> 56) as u8,
    ]
}

/// `b[at .. at + 4]` read as a little-endian integer.
pub open spec fn le_u32_at(b: Seq<u8>, at: int) -> u32 {
    (b[at] as u32) | ((b[at + 1] as u32) << 8u32) | ((b[at + 2] as u32) << 16u32) | ((b[at
        + 3] as u32) << 24u32)
}

/// `b[at .. at + 8]` read as a little-endian integer.
pub open spec fn le_u64_at(b: Seq<u8>, at: int) -> u64 {
    (b[at] as u64) | ((b[at + 1] as u64) << 8u64) | ((b[at + 2] as u64) << 16u64) | ((b[at
        + 3] as u64) << 24u64) | ((b[at + 4] as u64) << 32u64) | ((b[at + 5] as u64) << 40u64)
        | ((b[at + 6] as u64) << 48u64) | ((b[at + 7] as u64) << 56u64)
}

proof fn lemma_le32_value(x: u32, b0: u8, b1: u8, b2: u8, b3: u8)
    by (bit_vector)
    requires
        b0 == x as u8,
        b1 == (x >> 8) as u8,
        b2 == (x >> 16) as u8,
        b3 == (x >> 24) as u8,
    ensures
        x == (b0 as u32) | ((b1 as u32) << 8u32) | ((b2 as u32) << 16u32) | ((b3 as u32) << 24u32),
{
}

proof fn lemma_le32_parts(x: u32, b0: u8, b1: u8, b2: u8, b3: u8)
    by (bit_vector)
    requires
        x == (b0 as u32) | ((b1 as u32) << 8u32) | ((b2 as u32) << 16u32) | ((b3 as u32) << 24u32),
    ensures
        b0 == x as u8,
        b1 == (x >> 8) as u8,
        b2 == (x >> 16) as u8,
        b3 == (x >> 24) as u8,
{
}

proof fn lemma_le64_value(x: u64, b0: u8, b1: u8, b2: u8, b3: u8, b4: u8, b5: u8, b6: u8, b7: u8)
    by (bit_vector)
    requires
        b0 == x as u8,
        b1 == (x >> 8) as u8,
        b2 == (x >> 16) as u8,
        b3 == (x >> 24) as u8,
        b4 == (x >> 32) as u8,
        b5 == (x >> 40) as u8,
        b6 == (x >> 48) as u8,
        b7 == (x >> 56) as u8,
    ensures
        x == (b0 as u64) | ((b1 as u64) << 8u64) | ((b2 as u64) << 16u64) | ((b3 as u64) << 24u64)
            | ((b4 as u64) << 32u64) | ((b5 as u64) << 40u64) | ((b6 as u64) << 48u64) | ((
        b7 as u64) << 56u64),
{
}

proof fn lemma_le64_parts(x: u64, b0: u8, b1: u8, b2: u8, b3: u8, b4: u8, b5: u8, b6: u8, b7: u8)
    by (bit_vector)
    requires
        x == (b0 as u64) | ((b1 as u64) << 8u64) | ((b2 as u64) << 16u64) | ((b3 as u64) << 24u64)
            | ((b4 as u64) << 32u64) | ((b5 as u64) << 40u64) | ((b6 as u64) << 48u64) | ((
        b7 as u64) << 56u64),
    ensures
        b0 == x as u8,
        b1 == (x >> 8) as u8,
        b2 == (x >> 16) as u8,
        b3 == (x >> 24) as u8,
        b4 == (x >> 32) as u8,
        b5 == (x >> 40) as u8,
        b6 == (x >> 48) as u8,
        b7 == (x >> 56) as u8,
{
}

/// Where four bytes of `b` are those of `x`, they read back as `x`.
proof fn lemma_read_le32(b: Seq<u8>, at: int, x: u32)
    requires
        0 <= at,
        at + 4 <= b.len(),
        b.subrange(at, at + 4) == le32_bytes(x),
    ensures
        le_u32_at(b, at) == x,
{
    let s = b.subrange(at, at + 4);
    assert(b[at] == s[0] && b[at + 1] == s[1] && b[at + 2] == s[2] && b[at + 3] == s[3]);
    lemma_le32_value(x, s[0], s[1], s[2], s[3]);
}

/// Four bytes of `b` are the bytes of what they read as.
proof fn lemma_bytes_le32(b: Seq<u8>, at: int)
    requires
        0 <= at,
        at + 4 <= b.len(),
    ensures
        b.subrange(at, at + 4) == le32_bytes(le_u32_at(b, at)),
{
    lemma_le32_parts(le_u32_at(b, at), b[at], b[at + 1], b[at + 2], b[at + 3]);
    assert(b.subrange(at, at + 4) =~= le32_bytes(le_u32_at(b, at)));
}

/// Where eight bytes of `b` are those of `x`, they read back as `x`.
proof fn lemma_read_le64(b: Seq<u8>, at: int, x: u64)
    requires
        0 <= at,
        at + 8 <= b.len(),
        b.subrange(at, at + 8) == le64_bytes(x),
    ensures
        le_u64_at(b, at) == x,
{
    let s = b.subrange(at, at + 8);
    assert(b[at] == s[0] && b[at + 1] == s[1] && b[at + 2] == s[2] && b[at + 3] == s[3]);
    assert(b[at + 4] == s[4] && b[at + 5] == s[5] && b[at + 6] == s[6] && b[at + 7] == s[7]);
    lemma_le64_value(x, s[0], s[1], s[2], s[3], s[4], s[5], s[6], s[7]);
}

/// Eight bytes of `b` are the bytes of what they read as.
proof fn lemma_bytes_le64(b: Seq<u8>, at: int)
    requires
        0 <= at,
        at + 8 <= b.len(),
    ensures
        b.subrange(at, at + 8) == le64_bytes(le_u64_at(b, at)),
{
    lemma_le64_parts(
        le_u64_at(b, at),
        b[at],
        b[at + 1],
        b[at + 2],
        b[at + 3],
        b[at + 4],
        b[at + 5],
        b[at + 6],
        b[at + 7],
    );
    assert(b.subrange(at, at + 8) =~= le64_bytes(le_u64_at(b, at)));
}

/// Relies on byteorder's `LittleEndian::read_u32`: the first four bytes of
/// the slice it is given, read as a little-endian integer (it panics on fewer).
#[verifier::external_body]
fn read_u32_le(b: &[u8], at: usize) -> (r: u32)
    requires
        at + 4 <= b@.len(),
    ensures
        r == le_u32_at(b@, at as int),
{
    byteorder::LittleEndian::read_u32(&b[at..])
}

/// Relies on byteorder's `LittleEndian::read_u64`: the first eight bytes of
/// the slice it is given, read as a little-endian integer (it panics on fewer).
#[verifier::external_body]
fn read_u64_le(b: &[u8], at: usize) -> (r: u64)
    requires
        at + 8 <= b@.len(),
    ensures
        r == le_u64_at(b@, at as int),
{
    byteorder::LittleEndian::read_u64(&b[at..])
}

/// Relies on byteorder's `LittleEndian::write_u32`: it writes the four
/// little-endian bytes of `x` at the front of a four-byte buffer.
#[verifier::external_body]
fn u32_le_bytes(x: u32) -> (r: Vec<u8>)
    ensures
        r@ == le32_bytes(x),
{
    let mut buf = vec![0u8; 4];
    byteorder::LittleEndian::write_u32(&mut buf, x);
    buf
}

/// Relies on byteorder's `LittleEndian::write_u64`: it writes the eight
/// little-endian bytes of `x` at the front of an eight-byte buffer.
#[verifier::external_body]
fn u64_le_bytes(x: u64) -> (r: Vec<u8>)
    ensures
        r@ == le64_bytes(x),
{
    let mut buf = vec![0u8; 8];
    byteorder::LittleEndian::write_u64(&mut buf, x);
    buf
}

/// The parameters of one dense layer as a weight file holds them.
pub ghost struct LayerView {
    /// Weights in row-major order: `rows` rows of `cols` entries.
    pub weights: Seq<u32>,
    pub rows: u64,
    pub cols: u64,
    pub biases: Seq<u32>,
    pub activation: ActivationFunction,
}

/// A layer record whose buffers fit its declared shape.
pub open spec fn layer_wf(l: LayerView) -> bool {
    &&& l.weights.len() == l.rows * l.cols
    &&& l.weights.len() <= u64::MAX
    &&& l.biases.len() == l.cols
}

/// A flat parameter record of one dense layer. Each weight and bias is kept
/// as the 32-bit pattern of its single-precision value: the format stores the
/// patterns and never reads them as numbers.
#[derive(Debug, Clone)]
pub struct SerializableDenseLayer {
    /// Weights in row-major order, `weights_rows` rows of `weights_cols`.
    pub weights_data: Vec<u32>,
    /// The layer's input width.
    pub weights_rows: u64,
    /// The layer's output width.
    pub weights_cols: u64,
    pub biases_data: Vec<u32>,
    pub activation_fn: ActivationFunction,
}

impl View for SerializableDenseLayer {
    type V = LayerView;

    open spec fn view(&self) -> LayerView {
        LayerView {
            weights: self.weights_data@,
            rows: self.weights_rows,
            cols: self.weights_cols,
            biases: self.biases_data@,
            activation: self.activation_fn,
        }
    }
}

/// The parameter records of a network's layers, input layer first.
#[derive(Debug, Clone)]
pub struct SerializableNeuralNetwork {
    pub layers: Vec<SerializableDenseLayer>,
}

impl View for SerializableNeuralNetwork {
    type V = Seq<LayerView>;

    open spec fn view(&self) -> Seq<LayerView> {
        self.layers@.map_values(|l: SerializableDenseLayer| l@)
    }
}

/// Why a weight buffer could not be decoded.
#[derive(Debug, Clone, Copy, PartialEq, Eq, Structural)]
pub enum WeightsError {
    /// The buffer ends inside a record.
    Truncated,
    /// A layer's activation tag names no activation.
    UnknownActivation { tag: u32 },
    /// A layer's weight count is not rows times columns, or its bias count
    /// is not its column count.
    ShapeMismatch,
    /// Bytes follow the last layer.
    TrailingBytes,
}

/// The bytes of a sequence of 32-bit patterns, four little-endian bytes each.
pub open spec fn words_bytes(w: Seq<u32>) -> Seq<u8> {
    Seq::new(4 * w.len(), |i: int| le32_bytes(w[i / 4])[i % 4])
}

/// The record of one layer: weight count, weights, rows, columns, bias
/// count, biases, activation tag.
#[verifier::opaque]
pub open spec fn layer_bytes(l: LayerView) -> Seq<u8> {
    le64_bytes(l.weights.len() as u64) + words_bytes(l.weights) + le64_bytes(l.rows) + le64_bytes(
        l.cols,
    ) + le64_bytes(l.biases.len() as u64) + words_bytes(l.biases) + le32_bytes(
        l.activation.tag_spec(),
    )
}

/// The records of layers, one after another.
pub open spec fn layers_bytes(ls: Seq<LayerView>) -> Seq<u8>
    decreases ls.len(),
{
    if ls.len() == 0 {
        Seq::empty()
    } else {
        layers_bytes(ls.drop_last()) + layer_bytes(ls.last())
    }
}

/// A network's weight buffer: the layer count, then each layer's record.
pub open spec fn network_bytes(ls: Seq<LayerView>) -> Seq<u8> {
    le64_bytes(ls.len() as u64) + layers_bytes(ls)
}

/// The `n` 32-bit patterns stored from position `at` of `b`.
pub open spec fn words_at(b: Seq<u8>, at: int, n: nat) -> Seq<u32> {
    Seq::new(n, |k: int| le_u32_at(b, at + 4 * k))
}

/// Reads the layer record at position `at` of `b`: the layer and the
/// position after it, or why it cannot be read.
#[verifier::opaque]
pub open spec fn parse_layer(b: Seq<u8>, at: int) -> Result<(LayerView, int), WeightsError> {
    if b.len() < at + 8 {
        Err(WeightsError::Truncated)
    } else {
        let nw = le_u64_at(b, at);
        let at_w = at + 8;
        if b.len() < at_w + 4 * nw + 24 {
            Err(WeightsError::Truncated)
        } else {
            let at_dims = at_w + 4 * nw;
            let rows = le_u64_at(b, at_dims);
            let cols = le_u64_at(b, at_dims + 8);
            let nb = le_u64_at(b, at_dims + 16);
            let at_b = at_dims + 24;
            if b.len() < at_b + 4 * nb + 4 {
                Err(WeightsError::Truncated)
            } else {
                let at_tag = at_b + 4 * nb;
                let tag = le_u32_at(b, at_tag);
                match ActivationFunction::from_tag_spec(tag) {
                    None => Err(WeightsError::UnknownActivation { tag }),
                    Some(activation) => {
                        if nw != rows * cols || nb != cols {
                            Err(WeightsError::ShapeMismatch)
                        } else {
                            Ok(
                                (
                                    LayerView {
                                        weights: words_at(b, at_w, nw as nat),
                                        rows,
                                        cols,
                                        biases: words_at(b, at_b, nb as nat),
                                        activation,
                                    },
                                    at_tag + 4,
                                ),
                            )
                        }
                    },
                }
            }
        }
    }
}

/// Reads `n` layer records one after another from position `at` of `b`.
pub open spec fn parse_layers(b: Seq<u8>, at: int, n: nat) -> Result<(Seq<LayerView>, int), WeightsError>
    decreases n,
{
    if n == 0 {
        Ok((Seq::empty(), at))
    } else {
        match parse_layers(b, at, (n - 1) as nat) {
            Err(e) => Err(e),
            Ok((ls, q)) => match parse_layer(b, q) {
                Err(e) => Err(e),
                Ok((l, q2)) => Ok((ls.push(l), q2)),
            },
        }
    }
}

/// Reads a whole weight buffer: the layers, or why it cannot be read.
pub open spec fn parse_network(b: Seq<u8>) -> Result<Seq<LayerView>, WeightsError> {
    if b.len() < 8 {
        Err(WeightsError::Truncated)
    } else {
        match parse_layers(b, 8, le_u64_at(b, 0) as nat) {
            Err(e) => Err(e),
            Ok((ls, q)) => if q == b.len() {
                Ok(ls)
            } else {
                Err(WeightsError::TrailingBytes)
            },
        }
    }
}

proof fn lemma_words_bytes_push(w: Seq<u32>, x: u32)
    ensures
        words_bytes(w.push(x)) == words_bytes(w) + le32_bytes(x),
{
    let n = w.len() as int;
    assert forall|i: int| 0 <= i < 4 * n + 4 implies #[trigger] words_bytes(w.push(x))[i] == (
    words_bytes(w) + le32_bytes(x))[i] by {
        if i < 4 * n {
            assert(i / 4 < n);
        } else {
            assert(i / 4 == n);
            assert(i % 4 == i - 4 * n);
        }
    }
    assert(words_bytes(w.push(x)) =~= words_bytes(w) + le32_bytes(x));
}

fn push_words(out: &mut Vec<u8>, w: &Vec<u32>)
    ensures
        final(out)@ == old(out)@ + words_bytes(w@),
{
    let ghost start = out@;
    let mut k: usize = 0;
    while k < w.len()
        invariant
            k <= w@.len(),
            out@ == start + words_bytes(w@.subrange(0, k as int)),
        decreases w@.len() - k,
    {
        let mut bytes = u32_le_bytes(w[k]);
        out.append(&mut bytes);
        proof {
            lemma_words_bytes_push(w@.subrange(0, k as int), w@[k as int]);
            assert(w@.subrange(0, k + 1) =~= w@.subrange(0, k as int).push(w@[k as int]));
        }
        k = k + 1;
    }
    assert(w@.subrange(0, w@.len() as int) =~= w@);
}

fn push_u64(out: &mut Vec<u8>, x: u64)
    ensures
        final(out)@ == old(out)@ + le64_bytes(x),
{
    let mut bytes = u64_le_bytes(x);
    out.append(&mut bytes);
}

fn push_layer(out: &mut Vec<u8>, l: &SerializableDenseLayer)
    ensures
        final(out)@ == old(out)@ + layer_bytes(l@),
{
    let ghost start = out@;
    push_u64(out, l.weights_data.len() as u64);
    push_words(out, &l.weights_data);
    push_u64(out, l.weights_rows);
    push_u64(out, l.weights_cols);
    push_u64(out, l.biases_data.len() as u64);
    push_words(out, &l.biases_data);
    let mut tag = u32_le_bytes(l.activation_fn.tag());
    out.append(&mut tag);
    reveal(layer_bytes);
    assert(out@ =~= start + layer_bytes(l@));
}

fn read_words(b: &[u8], at: usize, n: usize) -> (r: Vec<u32>)
    requires
        at + 4 * n <= b@.len(),
    ensures
        r@ == words_at(b@, at as int, n as nat),
{
    let len = b.len();
    let mut out: Vec<u32> = Vec::new();
    let mut k: usize = 0;
    while k < n
        invariant
            k <= n,
            len == b@.len(),
            at + 4 * n <= len,
            out@ == words_at(b@, at as int, k as nat),
        decreases n - k,
    {
        out.push(read_u32_le(b, at + 4 * k));
        assert(out@ =~= words_at(b@, at as int, (k + 1) as nat));
        k = k + 1;
    }
    out
}

fn parse_layer_exec(b: &[u8], at: usize) -> (r: Result<(SerializableDenseLayer, usize), WeightsError>)
    requires
        at <= b@.len(),
    ensures
        match r {
            Ok((l, q)) => {
                &&& parse_layer(b@, at as int) == Ok::<(LayerView, int), WeightsError>((l@, q as int))
                &&& q <= b@.len()
            },
            Err(e) => parse_layer(b@, at as int) == Err::<(LayerView, int), WeightsError>(e),
        },
{
    reveal(parse_layer);
    let len = b.len();
    if len - at < 8 {
        return Err(WeightsError::Truncated);
    }
    let nw = read_u64_le(b, at);
    let at_w = at + 8;
    if ((len - at_w) as u128) < 4 * (nw as u128) + 24 {
        return Err(WeightsError::Truncated);
    }
    let nw_len = nw as usize;
    let weights_data = read_words(b, at_w, nw_len);
    let at_dims = at_w + 4 * nw_len;
    let rows = read_u64_le(b, at_dims);
    let cols = read_u64_le(b, at_dims + 8);
    let nb = read_u64_le(b, at_dims + 16);
    let at_b = at_dims + 24;
    if ((len - at_b) as u128) < 4 * (nb as u128) + 4 {
        return Err(WeightsError::Truncated);
    }
    let nb_len = nb as usize;
    let biases_data = read_words(b, at_b, nb_len);
    let at_tag = at_b + 4 * nb_len;
    let tag = read_u32_le(b, at_tag);
    let activation_fn = match ActivationFunction::from_tag(tag) {
        Some(a) => a,
        None => {
            return Err(WeightsError::UnknownActivation { tag });
        },
    };
    assert((rows as int) * (cols as int) <= 0xffff_ffff_ffff_ffffint * 0xffff_ffff_ffff_ffffint)
        by (nonlinear_arith)
        requires
            rows <= 0xffff_ffff_ffff_ffffint,
            cols <= 0xffff_ffff_ffff_ffffint,
    ;
    if nw as u128 != (rows as u128) * (cols as u128) || nb != cols {
        return Err(WeightsError::ShapeMismatch);
    }
    let layer = SerializableDenseLayer {
        weights_data,
        weights_rows: rows,
        weights_cols: cols,
        biases_data,
        activation_fn,
    };
    Ok((layer, at_tag + 4))
}

/// After a failed record, reading more records fails in the same way.
proof fn lemma_parse_layers_stays_failed(b: Seq<u8>, at: int, i: nat, n: nat)
    requires
        i <= n,
        parse_layers(b, at, i) is Err,
    ensures
        parse_layers(b, at, n) == parse_layers(b, at, i),
    decreases n,
{
    if n > i {
        lemma_parse_layers_stays_failed(b, at, i, (n - 1) as nat);
    }
}

proof fn lemma_div4(k: int, j: int)
    by (nonlinear_arith)
    requires
        0 <= k,
        0 <= j < 4,
    ensures
        (4 * k + j) / 4 == k,
        (4 * k + j) % 4 == j,
{
}

/// Where the bytes of `w` stand at position `at` of `b`, they read back as `w`.
proof fn lemma_read_words(b: Seq<u8>, at: int, w: Seq<u32>)
    requires
        0 <= at,
        at + 4 * w.len() <= b.len(),
        b.subrange(at, at + 4 * w.len()) == words_bytes(w),
    ensures
        words_at(b, at, w.len()) == w,
{
    assert forall|k: int| 0 <= k < w.len() implies #[trigger] words_at(b, at, w.len())[k] == w[k] by {
        assert forall|j: int| 0 <= j < 4 implies b.subrange(at + 4 * k, at + 4 * k + 4)[j]
            == le32_bytes(w[k])[j] by {
            lemma_div4(k, j);
            assert(b[at + (4 * k + j)] == words_bytes(w)[4 * k + j]);
        }
        assert(b.subrange(at + 4 * k, at + 4 * k + 4) =~= le32_bytes(w[k]));
        lemma_read_le32(b, at + 4 * k, w[k]);
    }
    assert(words_at(b, at, w.len()) =~= w);
}

/// The bytes at position `at` of `b` are those of the values read there.
proof fn lemma_words_read_bytes(b: Seq<u8>, at: int, n: nat)
    requires
        0 <= at,
        at + 4 * n <= b.len(),
    ensures
        words_bytes(words_at(b, at, n)) == b.subrange(at, at + 4 * n),
{
    let w = words_at(b, at, n);
    assert forall|i: int| 0 <= i < 4 * n implies #[trigger] words_bytes(w)[i] == b.subrange(
        at,
        at + 4 * n,
    )[i] by {
        let k = i / 4;
        let j = i % 4;
        assert(i == 4 * k + j);
        lemma_bytes_le32(b, at + 4 * k);
        assert(b.subrange(at + 4 * k, at + 4 * k + 4)[j] == b[at + i]);
    }
    assert(words_bytes(w) =~= b.subrange(at, at + 4 * n));
}

/// A piece of a piece of `b` is a piece of `b`.
proof fn lemma_piece(b: Seq<u8>, p: int, s: Seq<u8>, off: int, t: Seq<u8>)
    requires
        0 <= p,
        p + s.len() <= b.len(),
        b.subrange(p, p + s.len()) == s,
        0 <= off,
        off + t.len() <= s.len(),
        s.subrange(off, off + t.len()) == t,
    ensures
        b.subrange(p + off, p + off + t.len()) == t,
{
    assert forall|i: int| 0 <= i < t.len() implies b.subrange(p + off, p + off + t.len())[i]
        == t[i] by {
        assert(s[off + i] == t[i]);
        assert(b[p + (off + i)] == s[off + i]);
    }
    assert(b.subrange(p + off, p + off + t.len()) =~= t);
}

/// Where each field of a layer's record starts within the record.
#[verifier::rlimit(50)]
proof fn lemma_layer_bytes_pieces(l: LayerView)
    ensures
        ({
            let lb = layer_bytes(l);
            let nw = l.weights.len() as int;
            let nb = l.biases.len() as int;
            let d = 8 + 4 * nw;
            let t = d + 24 + 4 * nb;
            &&& lb.len() == t + 4
            &&& lb.subrange(0, 8) == le64_bytes(nw as u64)
            &&& lb.subrange(8, d) == words_bytes(l.weights)
            &&& lb.subrange(d, d + 8) == le64_bytes(l.rows)
            &&& lb.subrange(d + 8, d + 16) == le64_bytes(l.cols)
            &&& lb.subrange(d + 16, d + 24) == le64_bytes(nb as u64)
            &&& lb.subrange(d + 24, t) == words_bytes(l.biases)
            &&& lb.subrange(t, t + 4) == le32_bytes(l.activation.tag_spec())
        }),
{
    let nw = l.weights.len() as int;
    let nb = l.biases.len() as int;
    let d = 8 + 4 * nw;
    let t = d + 24 + 4 * nb;
    let a = le64_bytes(nw as u64);
    let w = words_bytes(l.weights);
    let r = le64_bytes(l.rows);
    let c = le64_bytes(l.cols);
    let n = le64_bytes(nb as u64);
    let bi = words_bytes(l.biases);
    let g = le32_bytes(l.activation.tag_spec());
    let s1 = a + w;
    let s2 = s1 + r;
    let s3 = s2 + c;
    let s4 = s3 + n;
    let s5 = s4 + bi;
    let lb = s5 + g;
    assert(lb == layer_bytes(l)) by {
        reveal(layer_bytes);
    }
    assert(lb.subrange(0, t) =~= s5);
    assert(s5.subrange(0, d + 24) =~= s4);
    assert(s4.subrange(0, d + 16) =~= s3);
    assert(s3.subrange(0, d + 8) =~= s2);
    assert(s2.subrange(0, d) =~= s1);
    assert(s1.subrange(0, 8) =~= a);
    assert(s1.subrange(8, d) =~= w);
    assert(s2.subrange(d, d + 8) =~= r);
    assert(s3.subrange(d + 8, d + 16) =~= c);
    assert(s4.subrange(d + 16, d + 24) =~= n);
    assert(s5.subrange(d + 24, t) =~= bi);
    assert(lb.subrange(t, t + 4) =~= g);
    lemma_piece(lb, 0, s5, 0, s4);
    lemma_piece(lb, 0, s4, 0, s3);
    lemma_piece(lb, 0, s3, 0, s2);
    lemma_piece(lb, 0, s2, 0, s1);
    lemma_piece(lb, 0, s1, 0, a);
    lemma_piece(lb, 0, s1, 8, w);
    lemma_piece(lb, 0, s2, d, r);
    lemma_piece(lb, 0, s3, d + 8, c);
    lemma_piece(lb, 0, s4, d + 16, n);
    lemma_piece(lb, 0, s5, d + 24, bi);
}

/// A well-formed layer whose fields read back from position `at` of `b`.
proof fn lemma_parse_layer_fields(b: Seq<u8>, at: int, l: LayerView)
    requires
        layer_wf(l),
        0 <= at,
        at + 8 + 4 * l.weights.len() + 24 + 4 * l.biases.len() + 4 <= b.len(),
        le_u64_at(b, at) == l.weights.len(),
        words_at(b, at + 8, l.weights.len()) == l.weights,
        le_u64_at(b, at + 8 + 4 * l.weights.len()) == l.rows,
        le_u64_at(b, at + 8 + 4 * l.weights.len() + 8) == l.cols,
        le_u64_at(b, at + 8 + 4 * l.weights.len() + 16) == l.biases.len(),
        words_at(b, at + 8 + 4 * l.weights.len() + 24, l.biases.len()) == l.biases,
        le_u32_at(b, at + 8 + 4 * l.weights.len() + 24 + 4 * l.biases.len()) == l.activation.tag_spec(),
    ensures
        parse_layer(b, at) == Ok::<(LayerView, int), WeightsError>(
            (l, at + 8 + 4 * l.weights.len() + 24 + 4 * l.biases.len() + 4),
        ),
{
    reveal(parse_layer);
    lemma_tag_round_trip(l.activation, l.activation.tag_spec());
}

/// A layer's record, wherever it stands in a buffer, reads back as the layer.
proof fn lemma_parse_layer_bytes(pre: Seq<u8>, l: LayerView, rest: Seq<u8>)
    requires
        layer_wf(l),
    ensures
        parse_layer(pre + layer_bytes(l) + rest, pre.len() as int) == Ok::<(LayerView, int), WeightsError>(
            (l, (pre.len() + layer_bytes(l).len()) as int),
        ),
{
    let lb = layer_bytes(l);
    let b = pre + lb + rest;
    let p = pre.len() as int;
    let nw = l.weights.len() as int;
    let nb = l.biases.len() as int;
    let d = 8 + 4 * nw;
    let t = d + 24 + 4 * nb;
    lemma_layer_bytes_pieces(l);
    assert(b.subrange(p, p + lb.len()) =~= lb);
    lemma_piece(b, p, lb, 0, le64_bytes(nw as u64));
    lemma_read_le64(b, p, nw as u64);
    lemma_piece(b, p, lb, 8, words_bytes(l.weights));
    lemma_read_words(b, p + 8, l.weights);
    lemma_piece(b, p, lb, d, le64_bytes(l.rows));
    lemma_read_le64(b, p + d, l.rows);
    lemma_piece(b, p, lb, d + 8, le64_bytes(l.cols));
    lemma_read_le64(b, p + d + 8, l.cols);
    lemma_piece(b, p, lb, d + 16, le64_bytes(nb as u64));
    lemma_read_le64(b, p + d + 16, nb as u64);
    lemma_piece(b, p, lb, d + 24, words_bytes(l.biases));
    lemma_read_words(b, p + d + 24, l.biases);
    lemma_piece(b, p, lb, t, le32_bytes(l.activation.tag_spec()));
    lemma_read_le32(b, p + t, l.activation.tag_spec());
    lemma_parse_layer_fields(b, p, l);
}

/// A layer record that reads is the record of the layer it reads as.
proof fn lemma_layer_bytes_parse(b: Seq<u8>, at: int)
    requires
        0 <= at,
        parse_layer(b, at) is Ok,
    ensures
        ({
            let (l, q) = parse_layer(b, at)->Ok_0;
            &&& layer_wf(l)
            &&& at <= q <= b.len()
            &&& b.subrange(at, q) == layer_bytes(l)
        }),
{
    reveal(parse_layer);
    let (l, q) = parse_layer(b, at)->Ok_0;
    let nw = le_u64_at(b, at) as int;
    let at_w = at + 8;
    let at_dims = at_w + 4 * nw;
    let nb = le_u64_at(b, at_dims + 16) as int;
    let at_b = at_dims + 24;
    let at_tag = at_b + 4 * nb;
    lemma_bytes_le64(b, at);
    lemma_words_read_bytes(b, at_w, nw as nat);
    lemma_bytes_le64(b, at_dims);
    lemma_bytes_le64(b, at_dims + 8);
    lemma_bytes_le64(b, at_dims + 16);
    lemma_words_read_bytes(b, at_b, nb as nat);
    lemma_bytes_le32(b, at_tag);
    lemma_tag_round_trip(l.activation, le_u32_at(b, at_tag));
    reveal(layer_bytes);
    assert(b.subrange(at, q) =~= b.subrange(at, at + 8) + b.subrange(at_w, at_dims) + b.subrange(
        at_dims,
        at_dims + 8,
    ) + b.subrange(at_dims + 8, at_dims + 16) + b.subrange(at_dims + 16, at_b) + b.subrange(
        at_b,
        at_tag,
    ) + b.subrange(at_tag, at_tag + 4));
}

proof fn lemma_parse_layers_bytes(pre: Seq<u8>, ls: Seq<LayerView>, rest: Seq<u8>)
    requires
        forall|i: int| 0 <= i < ls.len() ==> layer_wf(#[trigger] ls[i]),
    ensures
        parse_layers(pre + layers_bytes(ls) + rest, pre.len() as int, ls.len()) == Ok::<
            (Seq<LayerView>, int),
            WeightsError,
        >((ls, (pre.len() + layers_bytes(ls).len()) as int)),
    decreases ls.len(),
{
    if ls.len() == 0 {
        assert(ls =~= Seq::<LayerView>::empty());
    } else {
        let init = ls.drop_last();
        let last = ls.last();
        let b = pre + layers_bytes(ls) + rest;
        assert(layers_bytes(ls) == layers_bytes(init) + layer_bytes(last));
        assert(b =~= pre + layers_bytes(init) + (layer_bytes(last) + rest));
        assert forall|i: int| 0 <= i < init.len() implies layer_wf(#[trigger] init[i]) by {
            assert(init[i] == ls[i]);
        }
        lemma_parse_layers_bytes(pre, init, layer_bytes(last) + rest);
        assert(layer_wf(ls[ls.len() - 1]));
        assert(b =~= (pre + layers_bytes(init)) + layer_bytes(last) + rest);
        lemma_parse_layer_bytes(pre + layers_bytes(init), last, rest);
        assert(init.push(last) =~= ls);
    }
}

proof fn lemma_layers_bytes_parse(b: Seq<u8>, at: int, n: nat)
    requires
        0 <= at <= b.len(),
        parse_layers(b, at, n) is Ok,
    ensures
        ({
            let (ls, q) = parse_layers(b, at, n)->Ok_0;
            &&& ls.len() == n
            &&& forall|i: int| 0 <= i < ls.len() ==> layer_wf(#[trigger] ls[i])
            &&& at <= q <= b.len()
            &&& b.subrange(at, q) == layers_bytes(ls)
        }),
    decreases n,
{
    if n == 0 {
        assert(b.subrange(at, at) =~= Seq::<u8>::empty());
    } else {
        lemma_layers_bytes_parse(b, at, (n - 1) as nat);
        let (init, q) = parse_layers(b, at, (n - 1) as nat)->Ok_0;
        lemma_layer_bytes_parse(b, q);
        let (l, q2) = parse_layer(b, q)->Ok_0;
        let ls = init.push(l);
        assert(ls.drop_last() =~= init);
        assert(b.subrange(at, q2) =~= b.subrange(at, q) + b.subrange(q, q2));
        assert forall|i: int| 0 <= i < ls.len() implies layer_wf(#[trigger] ls[i]) by {
            if i < init.len() {
                assert(ls[i] == init[i]);
            }
        }
    }
}

/// Decoding the weight buffer of well-formed layer records gives back the
/// same records, in the same order.
pub proof fn lemma_decode_encode(ls: Seq<LayerView>)
    requires
        ls.len() <= u64::MAX,
        forall|i: int| 0 <= i < ls.len() ==> layer_wf(#[trigger] ls[i]),
    ensures
        parse_network(network_bytes(ls)) == Ok::<Seq<LayerView>, WeightsError>(ls),
{
    let b = network_bytes(ls);
    let head = le64_bytes(ls.len() as u64);
    assert(b =~= head + layers_bytes(ls) + Seq::<u8>::empty());
    assert(b.subrange(0, 8) =~= head);
    lemma_read_le64(b, 0, ls.len() as u64);
    lemma_parse_layers_bytes(head, ls, Seq::<u8>::empty());
}

/// A weight buffer that decodes is exactly the encoding of the records it
/// decodes to, and those records are well formed.
pub proof fn lemma_encode_decode(b: Seq<u8>)
    requires
        parse_network(b) is Ok,
    ensures
        network_bytes(parse_network(b)->Ok_0) == b,
        forall|i: int|
            0 <= i < parse_network(b)->Ok_0.len() ==> layer_wf(#[trigger] parse_network(b)->Ok_0[i]),
{
    let n = le_u64_at(b, 0);
    lemma_layers_bytes_parse(b, 8, n as nat);
    let (ls, q) = parse_layers(b, 8, n as nat)->Ok_0;
    lemma_bytes_le64(b, 0);
    assert(b =~= b.subrange(0, 8) + b.subrange(8, q));
}

impl SerializableNeuralNetwork {
    /// The weight buffer of these layers.
    pub fn to_bytes(&self) -> (r: Vec<u8>)
        ensures
            r@ == network_bytes(self@),
    {
        let mut out: Vec<u8> = Vec::new();
        push_u64(&mut out, self.layers.len() as u64);
        let mut i: usize = 0;
        while i < self.layers.len()
            invariant
                i <= self@.len(),
                self@.len() == self.layers@.len(),
                out@ == le64_bytes(self@.len() as u64) + layers_bytes(self@.subrange(0, i as int)),
            decreases self.layers@.len() - i,
        {
            let ghost before = out@;
            push_layer(&mut out, &self.layers[i]);
            proof {
                let pre = self@.subrange(0, i + 1);
                assert(pre.drop_last() =~= self@.subrange(0, i as int));
                assert(pre.last() == self.layers@[i as int]@);
                assert(out@ =~= le64_bytes(self@.len() as u64) + layers_bytes(pre));
            }
            i = i + 1;
        }
        assert(self@.subrange(0, self@.len() as int) =~= self@);
        out
    }

    /// Reads a weight buffer back into layer records.
    pub fn from_bytes(b: &[u8]) -> (r: Result<SerializableNeuralNetwork, WeightsError>)
        ensures
            match r {
                Ok(net) => parse_network(b@) == Ok::<Seq<LayerView>, WeightsError>(net@),
                Err(e) => parse_network(b@) == Err::<Seq<LayerView>, WeightsError>(e),
            },
    {
        let len = b.len();
        if len < 8 {
            return Err(WeightsError::Truncated);
        }
        let n = read_u64_le(b, 0);
        let mut layers: Vec<SerializableDenseLayer> = Vec::new();
        let mut at: usize = 8;
        let mut i: u64 = 0;
        assert(layers@.map_values(|l: SerializableDenseLayer| l@) =~= Seq::<LayerView>::empty());
        while i < n
            invariant
                len == b@.len(),
                8 <= len,
                n == le_u64_at(b@, 0),
                i <= n,
                at <= len,
                parse_layers(b@, 8, i as nat) == Ok::<(Seq<LayerView>, int), WeightsError>(
                    (layers@.map_values(|l: SerializableDenseLayer| l@), at as int),
                ),
            decreases n - i,
        {
            match parse_layer_exec(b, at) {
                Ok((layer, next)) => {
                    let ghost before = layers@;
                    layers.push(layer);
                    assert(layers@.map_values(|l: SerializableDenseLayer| l@) =~= before.map_values(
                        |l: SerializableDenseLayer| l@,
                    ).push(layer@));
                    at = next;
                },
                Err(e) => {
                    proof {
                        lemma_parse_layers_stays_failed(b@, 8, (i + 1) as nat, n as nat);
                    }
                    return Err(e);
                },
            }
            i = i + 1;
        }
        if at != len {
            return Err(WeightsError::TrailingBytes);
        }
        Ok(SerializableNeuralNetwork { layers })
    }
}

} // verus!
