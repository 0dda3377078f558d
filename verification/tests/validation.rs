use webpixels::buffer::ColorKind;
use webpixels::buffer::MoshError;
use webpixels::buffer::RasterBuffer;
use webpixels::buffer::channels;
use webpixels::buffer::color_code;
use webpixels::buffer::color_from_code;
use webpixels::buffer::row_stride;

#[test]
fn length_mismatch_is_rejected_before_anything_else() {
    // 4x4 RGB at depth 8 needs 48 bytes; 10 bytes is a dimension mismatch.
    let bytes = vec![0u8; 10];
    let r = RasterBuffer::new(4, 4, ColorKind::Rgb, 8, bytes);
    assert!(matches!(r, Err(MoshError::DimensionMismatch)));
}

#[test]
fn empty_buffer_is_rejected() {
    // Zero-by-zero geometry matches a zero-length buffer, which is then
    // rejected as empty.
    let r = RasterBuffer::new(0, 0, ColorKind::Rgb, 8, Vec::new());
    assert!(matches!(r, Err(MoshError::EmptyBuffer)));
}

#[test]
fn sub_byte_depth_is_rejected() {
    // 4 grayscale samples at 4 bits pack into 2 bytes per row; the length
    // matches but the layout cannot be addressed per sample.
    let r = RasterBuffer::new(4, 4, ColorKind::Grayscale, 4, vec![0u8; 8]);
    assert!(matches!(r, Err(MoshError::UnsupportedColorType)));
}

#[test]
fn validate_reports_without_touching_the_buffer() {
    let bytes = vec![3u8; 10];
    let verdict = RasterBuffer::validate(4, 4, ColorKind::Rgb, 8, &bytes);
    assert!(matches!(verdict, Err(MoshError::DimensionMismatch)));
    // the caller still owns the buffer, byte for byte as it was
    assert_eq!(bytes, vec![3u8; 10]);
    let ok = RasterBuffer::validate(2, 2, ColorKind::Rgb, 8, &vec![0u8; 12]);
    assert!(ok.is_ok());
}

#[test]
fn valid_buffer_is_kept_unchanged() {
    let bytes: Vec<u8> = (0..32).collect();
    let rb = RasterBuffer::new(2, 2, ColorKind::Rgba, 16, bytes.clone()).expect("valid");
    assert_eq!(rb.width, 2);
    assert_eq!(rb.height, 2);
    assert_eq!(rb.color, ColorKind::Rgba);
    assert_eq!(rb.bit_depth, 16);
    assert_eq!(rb.bytes, bytes);
}

#[test]
fn row_access_is_bounded() {
    let bytes: Vec<u8> = (0..12).collect();
    let rb = RasterBuffer::new(2, 2, ColorKind::Rgb, 8, bytes).expect("valid");
    assert_eq!(rb.row(0), Some(vec![0, 1, 2, 3, 4, 5]));
    assert_eq!(rb.row(1), Some(vec![6, 7, 8, 9, 10, 11]));
    assert_eq!(rb.row(2), None);
}

#[test]
fn channel_plane_slices_one_channel() {
    // Two RGB pixels per row, two rows: plane 1 of row 1 is the two green
    // bytes of the second row.
    let bytes: Vec<u8> = (0..12).collect();
    let rb = RasterBuffer::new(2, 2, ColorKind::Rgb, 8, bytes).expect("valid");
    assert_eq!(rb.channel_plane(0, 0), Some(vec![0, 3]));
    assert_eq!(rb.channel_plane(0, 1), Some(vec![1, 4]));
    assert_eq!(rb.channel_plane(1, 1), Some(vec![7, 10]));
    assert_eq!(rb.channel_plane(1, 2), Some(vec![8, 11]));
    assert_eq!(rb.channel_plane(2, 0), None);
    assert_eq!(rb.channel_plane(0, 3), None);
}

#[test]
fn channel_plane_keeps_sample_bytes_together() {
    // One two-channel sample of two bytes each at depth 16.
    let rb = RasterBuffer::new(1, 1, ColorKind::GrayscaleAlpha, 16, vec![9, 8, 7, 6])
        .expect("valid");
    assert_eq!(rb.channel_plane(0, 0), Some(vec![9, 8]));
    assert_eq!(rb.channel_plane(0, 1), Some(vec![7, 6]));
}

#[test]
fn sample_bytes_follows_depth() {
    let one = RasterBuffer::new(1, 1, ColorKind::Rgb, 8, vec![0u8; 3]).expect("valid");
    assert_eq!(one.sample_bytes(), 1);
    let two = RasterBuffer::new(1, 1, ColorKind::Rgb, 16, vec![0u8; 6]).expect("valid");
    assert_eq!(two.sample_bytes(), 2);
}

#[test]
fn stride_rounds_sub_byte_rows_up() {
    assert_eq!(row_stride(ColorKind::Rgb, 8, 4), 12);
    assert_eq!(row_stride(ColorKind::Rgba, 16, 3), 24);
    assert_eq!(row_stride(ColorKind::Grayscale, 1, 12), 2);
    assert_eq!(row_stride(ColorKind::Indexed, 4, 3), 2);
}

#[test]
fn channel_counts() {
    assert_eq!(channels(ColorKind::Grayscale), 1);
    assert_eq!(channels(ColorKind::GrayscaleAlpha), 2);
    assert_eq!(channels(ColorKind::Rgb), 3);
    assert_eq!(channels(ColorKind::Rgba), 4);
    assert_eq!(channels(ColorKind::Indexed), 1);
}

#[test]
fn color_codes_round_trip() {
    for kind in [
        ColorKind::Grayscale,
        ColorKind::GrayscaleAlpha,
        ColorKind::Rgb,
        ColorKind::Rgba,
        ColorKind::Indexed,
    ] {
        assert_eq!(color_from_code(color_code(kind)), Some(kind));
    }
    assert_eq!(color_from_code(1), None);
    assert_eq!(color_from_code(7), None);
}

#[test]
fn error_messages_name_the_failure() {
    assert_eq!(
        MoshError::DimensionMismatch.message(),
        "buffer length does not match geometry"
    );
    assert_eq!(MoshError::EmptyBuffer.message(), "empty buffer");
    assert_eq!(MoshError::UnsupportedColorType.message(), "unsupported color type");
    assert_eq!(MoshError::DecodeFailed.message(), "decoding failed");
    assert_eq!(MoshError::EncodeFailed.message(), "encoding failed");
}
