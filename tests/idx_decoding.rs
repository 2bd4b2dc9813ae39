use std::io::Write;

use genius_hour::matrix::RowMatrix;
use genius_hour::mnist::{
    decode_images, decode_labels, get_mini_batch, get_model_input_size, parse_images,
    parse_labels, IdxError, IMAGE_SIZE, NUM_CLASSES,
};

fn be(x: u32) -> [u8; 4] {
    x.to_be_bytes()
}

fn image_file(count: u32, rows: u32, cols: u32, pixels: &[u8]) -> Vec<u8> {
    let mut b = Vec::new();
    b.extend_from_slice(&be(2051));
    b.extend_from_slice(&be(count));
    b.extend_from_slice(&be(rows));
    b.extend_from_slice(&be(cols));
    b.extend_from_slice(pixels);
    b
}

fn label_file(count: u32, labels: &[u8]) -> Vec<u8> {
    let mut b = Vec::new();
    b.extend_from_slice(&be(2049));
    b.extend_from_slice(&be(count));
    b.extend_from_slice(labels);
    b
}

fn gzip(bytes: &[u8]) -> Vec<u8> {
    let mut enc = flate2::write::GzEncoder::new(Vec::new(), flate2::Compression::default());
    enc.write_all(bytes).unwrap();
    enc.finish().unwrap()
}

fn two_images() -> Vec<u8> {
    (0..2 * IMAGE_SIZE).map(|i| (i % 251) as u8).collect()
}

#[test]
fn images_decode_row_by_row() {
    let pixels = two_images();
    let m = parse_images(&image_file(2, 28, 28, &pixels)).unwrap();
    assert_eq!(m.nrows(), 2);
    assert_eq!(m.ncols(), 784);
    assert_eq!(m.get(0, 0), 0);
    assert_eq!(m.get(0, 783), (783 % 251) as u8);
    assert_eq!(m.get(1, 0), (784 % 251) as u8);
    assert_eq!(m.row_major(), &pixels);
}

#[test]
fn images_ignore_bytes_after_the_last_image() {
    let mut pixels = two_images();
    pixels.extend_from_slice(&[9, 9, 9]);
    let m = parse_images(&image_file(2, 28, 28, &pixels)).unwrap();
    assert_eq!(m.nrows(), 2);
    assert_eq!(m.row_major().len(), 2 * 784);
}

#[test]
fn images_with_zero_count_give_empty_matrix() {
    let m = parse_images(&image_file(0, 28, 28, &[])).unwrap();
    assert_eq!(m.nrows(), 0);
    assert_eq!(m.ncols(), IMAGE_SIZE);
}

#[test]
fn images_reject_wrong_magic() {
    let mut b = image_file(0, 28, 28, &[]);
    b[3] = 0x01; // 2049, the label signature
    assert_eq!(
        parse_images(&b).unwrap_err(),
        IdxError::BadMagic { expected: 2051, found: 2049 }
    );
}

#[test]
fn images_reject_wrong_dimensions() {
    let b = image_file(0, 32, 28, &[]);
    assert_eq!(parse_images(&b).unwrap_err(), IdxError::BadDimensions { rows: 32, cols: 28 });
}

#[test]
fn images_reject_short_files() {
    assert_eq!(parse_images(&[0x00, 0x00, 0x08]).unwrap_err(), IdxError::Truncated);
    assert_eq!(parse_images(&be(2051)).unwrap_err(), IdxError::Truncated);
    let pixels = vec![0u8; IMAGE_SIZE + 10];
    assert_eq!(parse_images(&image_file(2, 28, 28, &pixels)).unwrap_err(), IdxError::Truncated);
}

#[test]
fn labels_decode_as_class_indices() {
    let m = parse_labels(&label_file(3, &[7, 0, 9]), false).unwrap();
    assert_eq!(m.nrows(), 3);
    assert_eq!(m.ncols(), 1);
    assert_eq!(m.row_major(), &vec![7, 0, 9]);
}

#[test]
fn labels_decode_one_hot() {
    let m = parse_labels(&label_file(2, &[3, 9]), true).unwrap();
    assert_eq!(m.nrows(), 2);
    assert_eq!(m.ncols(), NUM_CLASSES);
    let mut expected = vec![0u8; 20];
    expected[3] = 1;
    expected[10 + 9] = 1;
    assert_eq!(m.row_major(), &expected);
}

#[test]
fn labels_reject_out_of_range() {
    let b = label_file(3, &[1, 10, 2]);
    assert_eq!(parse_labels(&b, false).unwrap_err(), IdxError::LabelOutOfRange { label: 10 });
    assert_eq!(parse_labels(&b, true).unwrap_err(), IdxError::LabelOutOfRange { label: 10 });
}

#[test]
fn labels_report_the_first_fault_in_file_order() {
    // A bad label before the file runs out is reported as such.
    let b = label_file(5, &[1, 200]);
    assert_eq!(parse_labels(&b, false).unwrap_err(), IdxError::LabelOutOfRange { label: 200 });
    // Running out before any bad label is a truncation.
    let b = label_file(5, &[1, 2]);
    assert_eq!(parse_labels(&b, false).unwrap_err(), IdxError::Truncated);
}

#[test]
fn labels_reject_wrong_magic() {
    let mut b = label_file(0, &[]);
    b[3] = 0x03;
    assert_eq!(
        parse_labels(&b, true).unwrap_err(),
        IdxError::BadMagic { expected: 2049, found: 2051 }
    );
    assert_eq!(parse_labels(&be(2049), true).unwrap_err(), IdxError::Truncated);
}

#[test]
fn gzipped_files_are_unpacked_first() {
    let pixels = two_images();
    let raw = image_file(2, 28, 28, &pixels);
    let m = decode_images(&gzip(&raw), true).unwrap();
    assert_eq!(m.nrows(), 2);
    assert_eq!(m.row_major(), &pixels);
    let labels = decode_labels(&gzip(&label_file(2, &[4, 5])), true, false).unwrap();
    assert_eq!(labels.row_major(), &vec![4, 5]);
}

#[test]
fn plain_files_are_read_as_they_are() {
    let labels = decode_labels(&label_file(1, &[6]), false, true).unwrap();
    assert_eq!(labels.get(0, 6), 1);
    assert_eq!(labels.get(0, 5), 0);
}

#[test]
fn malformed_gzip_is_a_decompress_error() {
    let raw = image_file(0, 28, 28, &[]);
    assert_eq!(decode_images(&raw, true).unwrap_err(), IdxError::Decompress);
    assert_eq!(decode_labels(&[0x1f, 0x8b, 0x08], true, false).unwrap_err(), IdxError::Decompress);
}

#[test]
fn mini_batch_takes_rows_in_index_order() {
    let data = RowMatrix::from_row_major(3, 2, vec![1.0f32, 2.0, 3.0, 4.0, 5.0, 6.0]);
    let targets = RowMatrix::from_row_major(3, 1, vec![10.0f32, 20.0, 30.0]);
    let (x, y) = get_mini_batch(&data, &targets, &[2, 0, 2]);
    assert_eq!(x.nrows(), 3);
    assert_eq!(x.ncols(), 2);
    assert_eq!(x.row_major(), &vec![5.0, 6.0, 1.0, 2.0, 5.0, 6.0]);
    assert_eq!(y.row_major(), &vec![30.0, 10.0, 30.0]);
}

#[test]
fn mini_batch_of_no_indices_is_empty() {
    let data = RowMatrix::from_row_major(2, 2, vec![1u8, 2, 3, 4]);
    let targets = RowMatrix::from_row_major(2, 3, vec![0u8; 6]);
    let (x, y) = get_mini_batch(&data, &targets, &[]);
    assert_eq!((x.nrows(), x.ncols()), (0, 2));
    assert_eq!((y.nrows(), y.ncols()), (0, 3));
}

#[test]
fn model_input_is_one_flattened_image() {
    assert_eq!(get_model_input_size(), 784);
}
