use vstd::prelude::*;
use byteorder::ByteOrder;
use std::io::Read;
use crate::matrix::{RowMatrix, rows_of};

verus! {

/// Signature word of an IDX image file.
pub const IMAGE_MAGIC_NUMBER: u32 = 2051;

/// Signature word of an IDX label file.
pub const LABEL_MAGIC_NUMBER: u32 = 2049;

pub const IMAGE_WIDTH: usize = 28;

pub const IMAGE_HEIGHT: usize = 28;

/// Pixels in one flattened image.
pub const IMAGE_SIZE: usize = IMAGE_WIDTH * IMAGE_HEIGHT;

/// Number of digit classes a label may name.
pub const NUM_CLASSES: usize = 10;

/// The input width of a model that reads one flattened image.
pub fn get_model_input_size() -> (r: usize)
    ensures
        r == IMAGE_SIZE,
{
    IMAGE_SIZE
}

/// Why an IDX image or label file could not be decoded.
#[derive(Debug, Clone, Copy, PartialEq, Eq, Structural)]
pub enum IdxError {
    /// The gzip stream around the file is malformed.
    Decompress,
    /// The file ends before the data that its header announces.
    Truncated,
    /// The signature word is not the one this kind of file carries.
    BadMagic { expected: u32, found: u32 },
    /// An image file whose images are not 28 by 28 pixels.
    BadDimensions { rows: u32, cols: u32 },
    /// A label that names no class.
    LabelOutOfRange { label: u8 },
}

/// `b[at .. at + 4]` read as a big-endian unsigned integer.
pub open spec fn be_u32_at(b: Seq<u8>, at: int) -> int {
    b[at] as int * 0x1000000 + b[at + 1] as int * 0x10000 + b[at + 2] as int * 0x100 + b[at
        + 3] as int
}

/// Relies on byteorder's `BigEndian::read_u32`: the first four bytes of the
/// slice it is given, read as a big-endian integer (it panics on fewer).
#[verifier::external_body]
fn read_u32_be(b: &[u8], at: usize) -> (r: u32)
    requires
        at + 4 <= b@.len(),
    ensures
        r as int == be_u32_at(b@, at as int),
{
    byteorder::BigEndian::read_u32(&b[at..])
}

/// What a gzip stream decompresses to, or `None` for a malformed stream.
pub uninterp spec fn gunzip_of(b: Seq<u8>) -> Option<Seq<u8>>;

/// Relies on flate2's `read::GzDecoder`, read to the end: the decompressed
/// bytes of the stream, or an error; which of the two depends on the bytes alone.
#[verifier::external_body]
fn gunzip(b: &[u8]) -> (r: Option<Vec<u8>>)
    ensures
        match r {
            Some(v) => gunzip_of(b@) == Some(v@),
            None => gunzip_of(b@) is None,
        },
{
    let mut out = Vec::new();
    match flate2::read::GzDecoder::new(b).read_to_end(&mut out) {
        Ok(_) => Some(out),
        Err(_) => None,
    }
}

/// The error an image file gives, or `None` where it decodes.
pub open spec fn image_error(b: Seq<u8>) -> Option<IdxError> {
    if b.len() < 4 {
        Some(IdxError::Truncated)
    } else if be_u32_at(b, 0) != IMAGE_MAGIC_NUMBER {
        Some(IdxError::BadMagic { expected: IMAGE_MAGIC_NUMBER, found: be_u32_at(b, 0) as u32 })
    } else if b.len() < 16 {
        Some(IdxError::Truncated)
    } else if be_u32_at(b, 8) != IMAGE_HEIGHT || be_u32_at(b, 12) != IMAGE_WIDTH {
        Some(IdxError::BadDimensions { rows: be_u32_at(b, 8) as u32, cols: be_u32_at(b, 12) as u32 })
    } else if b.len() < 16 + be_u32_at(b, 4) * IMAGE_SIZE {
        Some(IdxError::Truncated)
    } else {
        None
    }
}

/// `r` is what decoding the image file `b` gives: one row of `IMAGE_SIZE`
/// pixel bytes per image, in file order, or the error of `image_error`.
pub open spec fn images_outcome(b: Seq<u8>, r: Result<RowMatrix<u8>, IdxError>) -> bool {
    match r {
        Ok(m) => {
            &&& image_error(b) is None
            &&& m.wf()
            &&& m.width() == IMAGE_SIZE
            &&& m@ == rows_of(
                b.subrange(16, 16 + be_u32_at(b, 4) * IMAGE_SIZE),
                be_u32_at(b, 4) as nat,
                IMAGE_SIZE as nat,
            )
        },
        Err(e) => image_error(b) == Some(e),
    }
}

/// Decodes an uncompressed IDX image file into its pixel bytes.
pub fn parse_images(b: &[u8]) -> (r: Result<RowMatrix<u8>, IdxError>)
    ensures
        images_outcome(b@, r),
{
    let len = b.len();
    if len < 4 {
        return Err(IdxError::Truncated);
    }
    let magic = read_u32_be(b, 0);
    if magic != IMAGE_MAGIC_NUMBER {
        return Err(IdxError::BadMagic { expected: IMAGE_MAGIC_NUMBER, found: magic });
    }
    if len < 16 {
        return Err(IdxError::Truncated);
    }
    let count = read_u32_be(b, 4);
    let rows = read_u32_be(b, 8);
    let cols = read_u32_be(b, 12);
    if rows as usize != IMAGE_HEIGHT || cols as usize != IMAGE_WIDTH {
        return Err(IdxError::BadDimensions { rows, cols });
    }
    let total: u64 = count as u64 * IMAGE_SIZE as u64;
    if (len as u64) < 16 + total {
        return Err(IdxError::Truncated);
    }
    let total = total as usize;
    let mut pixels: Vec<u8> = Vec::new();
    let mut k: usize = 0;
    while k < total
        invariant
            k <= total,
            len == b@.len(),
            16 + total <= len,
            pixels@ == b@.subrange(16, 16 + k),
        decreases total - k,
    {
        pixels.push(b[16 + k]);
        assert(pixels@ =~= b@.subrange(16, 16 + k + 1));
        k = k + 1;
    }
    Ok(RowMatrix::from_row_major(count as usize, IMAGE_SIZE, pixels))
}

/// `i` is the first of the first `avail` labels of the label file `b` that
/// names no class.
pub open spec fn first_bad_label(b: Seq<u8>, i: int, avail: int) -> bool {
    &&& 0 <= i < avail
    &&& b[8 + i] >= NUM_CLASSES
    &&& forall|k: int| 8 <= k < 8 + i ==> #[trigger] b[k] < NUM_CLASSES
}

/// How many labels the file `b` holds at least: those its header announces
/// that are present.
pub open spec fn labels_present(b: Seq<u8>) -> int {
    let n = be_u32_at(b, 4);
    if n <= b.len() - 8 {
        n
    } else {
        b.len() - 8
    }
}

/// The error a label file gives, or `None` where it decodes.
pub open spec fn label_error(b: Seq<u8>) -> Option<IdxError> {
    if b.len() < 4 {
        Some(IdxError::Truncated)
    } else if be_u32_at(b, 0) != LABEL_MAGIC_NUMBER {
        Some(IdxError::BadMagic { expected: LABEL_MAGIC_NUMBER, found: be_u32_at(b, 0) as u32 })
    } else if b.len() < 8 {
        Some(IdxError::Truncated)
    } else if exists|i: int| first_bad_label(b, i, labels_present(b)) {
        let i = choose|i: int| first_bad_label(b, i, labels_present(b));
        Some(IdxError::LabelOutOfRange { label: b[8 + i] })
    } else if b.len() < 8 + be_u32_at(b, 4) {
        Some(IdxError::Truncated)
    } else {
        None
    }
}

/// The one-hot row of a class: 1 in its column, 0 elsewhere.
pub open spec fn one_hot_row(label: u8) -> Seq<u8> {
    Seq::new(NUM_CLASSES as nat, |j: int| if j == label { 1u8 } else { 0u8 })
}

/// The row a label becomes: one-hot, or the class index alone.
pub open spec fn label_row(label: u8, one_hot: bool) -> Seq<u8> {
    if one_hot {
        one_hot_row(label)
    } else {
        seq![label]
    }
}

/// `r` is what decoding the label file `b` gives: one row per label, in file
/// order, or the error of `label_error`.
pub open spec fn labels_outcome(b: Seq<u8>, one_hot: bool, r: Result<RowMatrix<u8>, IdxError>) -> bool {
    match r {
        Ok(m) => {
            &&& label_error(b) is None
            &&& m.wf()
            &&& m.width() == (if one_hot { NUM_CLASSES } else { 1 })
            &&& m@ == Seq::new(be_u32_at(b, 4) as nat, |i: int| label_row(b[8 + i], one_hot))
        },
        Err(e) => label_error(b) == Some(e),
    }
}

fn label_row_vec(label: u8, one_hot: bool) -> (r: Vec<u8>)
    ensures
        r@ == label_row(label, one_hot),
{
    let mut row: Vec<u8> = Vec::new();
    if one_hot {
        let mut j: usize = 0;
        while j < NUM_CLASSES
            invariant
                j <= NUM_CLASSES,
                row@ == one_hot_row(label).subrange(0, j as int),
            decreases NUM_CLASSES - j,
        {
            row.push(if j == label as usize { 1u8 } else { 0u8 });
            assert(row@ =~= one_hot_row(label).subrange(0, j + 1));
            j = j + 1;
        }
        assert(row@ =~= one_hot_row(label));
    } else {
        row.push(label);
        assert(row@ =~= seq![label]);
    }
    row
}

/// Decodes an uncompressed IDX label file; with `one_hot` each label becomes
/// a row of `NUM_CLASSES` entries, else a row holding the class index.
pub fn parse_labels(b: &[u8], one_hot: bool) -> (r: Result<RowMatrix<u8>, IdxError>)
    ensures
        labels_outcome(b@, one_hot, r),
{
    let len = b.len();
    if len < 4 {
        return Err(IdxError::Truncated);
    }
    let magic = read_u32_be(b, 0);
    if magic != LABEL_MAGIC_NUMBER {
        return Err(IdxError::BadMagic { expected: LABEL_MAGIC_NUMBER, found: magic });
    }
    if len < 8 {
        return Err(IdxError::Truncated);
    }
    let count = read_u32_be(b, 4);
    let width: usize = if one_hot { NUM_CLASSES } else { 1 };
    let mut out: RowMatrix<u8> = RowMatrix::empty(width);
    let ghost avail = labels_present(b@);
    let mut i: u32 = 0;
    while i < count
        invariant
            8 <= len == b@.len(),
            be_u32_at(b@, 0) == LABEL_MAGIC_NUMBER,
            count == be_u32_at(b@, 4),
            avail == labels_present(b@),
            i <= count,
            i <= len - 8,
            forall|k: int| 8 <= k < 8 + i ==> #[trigger] b@[k] < NUM_CLASSES,
            out.wf(),
            out.width() == width,
            width == (if one_hot { NUM_CLASSES } else { 1 }),
            out@ == Seq::new(i as nat, |k: int| label_row(b@[8 + k], one_hot)),
        decreases count - i,
    {
        if i as usize >= len - 8 {
            proof {
                assert(avail == i);
                assert(!exists|j: int| first_bad_label(b@, j, avail));
            }
            return Err(IdxError::Truncated);
        }
        let label = b[8 + i as usize];
        if label as usize >= NUM_CLASSES {
            proof {
                assert(first_bad_label(b@, i as int, avail));
                let j = choose|j: int| first_bad_label(b@, j, avail);
                assert(j == i);
            }
            return Err(IdxError::LabelOutOfRange { label });
        }
        let row = label_row_vec(label, one_hot);
        out.push_row(row);
        assert(out@ =~= Seq::new((i + 1) as nat, |k: int| label_row(b@[8 + k], one_hot)));
        i = i + 1;
    }
    proof {
        assert(avail == count);
        assert(!exists|j: int| first_bad_label(b@, j, avail));
    }
    Ok(out)
}

/// Which bytes an IDX file holds once unpacked: its gzip stream decompressed,
/// or the bytes as they are.
pub open spec fn unpacked(contents: Seq<u8>, gzipped: bool) -> Option<Seq<u8>> {
    if gzipped {
        gunzip_of(contents)
    } else {
        Some(contents)
    }
}

/// Decodes an image file as read from disk, gzip-compressed or not.
pub fn decode_images(contents: &[u8], gzipped: bool) -> (r: Result<RowMatrix<u8>, IdxError>)
    ensures
        match unpacked(contents@, gzipped) {
            None => r == Err::<RowMatrix<u8>, IdxError>(IdxError::Decompress),
            Some(b) => images_outcome(b, r),
        },
{
    if gzipped {
        match gunzip(contents) {
            Some(b) => parse_images(b.as_slice()),
            None => Err(IdxError::Decompress),
        }
    } else {
        parse_images(contents)
    }
}

/// Decodes a label file as read from disk, gzip-compressed or not.
pub fn decode_labels(contents: &[u8], gzipped: bool, one_hot: bool) -> (r: Result<RowMatrix<u8>, IdxError>)
    ensures
        match unpacked(contents@, gzipped) {
            None => r == Err::<RowMatrix<u8>, IdxError>(IdxError::Decompress),
            Some(b) => labels_outcome(b, one_hot, r),
        },
{
    if gzipped {
        match gunzip(contents) {
            Some(b) => parse_labels(b.as_slice(), one_hot),
            None => Err(IdxError::Decompress),
        }
    } else {
        parse_labels(contents, one_hot)
    }
}

/// The rows of `data` and of `targets` that `indices` names, in that order.
pub fn get_mini_batch<T: Copy>(data: &RowMatrix<T>, targets: &RowMatrix<T>, indices: &[usize]) -> (r: (RowMatrix<T>, RowMatrix<T>))
    requires
        data.wf(),
        targets.wf(),
        forall|k: int| 0 <= k < indices@.len() ==> #[trigger] indices@[k] < data@.len() && indices@[k] < targets@.len(),
    ensures
        r.0.wf(),
        r.1.wf(),
        r.0.width() == data.width(),
        r.1.width() == targets.width(),
        r.0@ == indices@.map_values(|i: usize| data@[i as int]),
        r.1@ == indices@.map_values(|i: usize| targets@[i as int]),
{
    (data.select_rows(indices), targets.select_rows(indices))
}

} // verus!
