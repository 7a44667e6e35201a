use ppm_view::format::{FormatError, IterState};
use ppm_view::image::Image;

fn decode(text: &str) -> Result<Image, FormatError> {
    Image::from_buffer(text.as_bytes().to_vec(), String::from("test.ppm"))
}

fn pixels(img: &Image) -> Vec<[u8; 4]> {
    img.buffer().clone()
}

#[test]
fn single_red_pixel() {
    let img = decode("P3\n1 1\n255\n255 0 0\n").unwrap();
    assert_eq!(img.width(), 1);
    assert_eq!(img.height(), 1);
    assert_eq!(img.max(), 255);
    assert_eq!(pixels(&img), vec![[255, 0, 0, 255]]);
    assert_eq!(img.file(), "test.ppm");
}

#[test]
fn two_pixels_in_order() {
    let img = decode("P3\n2 1\n255\n10 20 30 40 50 60\n").unwrap();
    assert_eq!(pixels(&img), vec![[10, 20, 30, 255], [40, 50, 60, 255]]);
}

#[test]
fn other_magic_is_invalid() {
    assert_eq!(decode("P6\n1 1\n255\n1 2 3\n").unwrap_err(), FormatError::InvalidMagic);
    assert_eq!(decode("P33\n1 1\n255\n1 2 3\n").unwrap_err(), FormatError::InvalidMagic);
    assert_eq!(decode("p3\n1 1\n255\n1 2 3\n").unwrap_err(), FormatError::InvalidMagic);
    assert_eq!(decode("P3 \n1 1\n255\n1 2 3\n").unwrap_err(), FormatError::InvalidMagic);
}

#[test]
fn non_numeric_size_is_invalid() {
    assert_eq!(decode("P3\nabc 10\n255\n").unwrap_err(), FormatError::InvalidDimension);
    assert_eq!(decode("P3\n10\n255\n").unwrap_err(), FormatError::InvalidDimension);
    assert_eq!(decode("P3\n1  1\n255\n1 2 3\n").unwrap_err(), FormatError::InvalidDimension);
    assert_eq!(decode("P3\n1 1 1\n255\n1 2 3\n").unwrap_err(), FormatError::InvalidDimension);
    assert_eq!(decode("P3\n4294967296 1\n255\n").unwrap_err(), FormatError::InvalidDimension);
}

#[test]
fn non_numeric_max_is_invalid() {
    assert_eq!(decode("P3\n1 1\nx\n1 2 3\n").unwrap_err(), FormatError::InvalidMaxValue);
    assert_eq!(decode("P3\n1 1\n-1\n1 2 3\n").unwrap_err(), FormatError::InvalidMaxValue);
}

#[test]
fn out_of_range_sample_is_invalid() {
    assert_eq!(decode("P3\n1 1\n255\n300 0 0\n").unwrap_err(), FormatError::InvalidSampleValue);
    assert_eq!(decode("P3\n1 1\n255\n1 x 0\n").unwrap_err(), FormatError::InvalidSampleValue);
    assert_eq!(decode("P3\n1 1\n255\n1  2 3\n").unwrap_err(), FormatError::InvalidSampleValue);
    assert_eq!(decode("P3\n1 1\n255\n1 2 3 \n").unwrap_err(), FormatError::InvalidSampleValue);
}

#[test]
fn zero_area_gives_empty_buffer() {
    let img = decode("P3\n0 5\n255\n").unwrap();
    assert_eq!(img.width(), 0);
    assert_eq!(img.height(), 5);
    assert!(pixels(&img).is_empty());
    let img = decode("P3\n7 0\n255\n").unwrap();
    assert!(pixels(&img).is_empty());
}

#[test]
fn comments_change_nothing() {
    let plain = decode("P3\n2 1\n255\n10 20 30\n40 50 60\n").unwrap();
    let commented =
        decode("# top\nP3\n# a\n2 1\n#b\n255\n10 20 30\n# middle\n40 50 60\n# end").unwrap();
    assert_eq!(plain.width(), commented.width());
    assert_eq!(plain.height(), commented.height());
    assert_eq!(plain.max(), commented.max());
    assert_eq!(pixels(&plain), pixels(&commented));
}

#[test]
fn decoding_twice_gives_the_same_image() {
    let bytes = b"P3\n2 2\n15\n1 2 3 4 5 6\n7 8 9 10 11 12\n".to_vec();
    let a = Image::from_buffer(bytes.clone(), String::from("x")).unwrap();
    let b = Image::from_buffer(bytes, String::from("x")).unwrap();
    assert_eq!(a.width(), b.width());
    assert_eq!(a.height(), b.height());
    assert_eq!(a.max(), b.max());
    assert_eq!(a.file(), b.file());
    assert_eq!(pixels(&a), pixels(&b));
}

#[test]
fn buffer_length_is_width_times_height() {
    let img = decode("P3\n3 2\n255\n1 1 1 2 2 2 3 3 3\n4 4 4 5 5 5 6 6 6").unwrap();
    assert_eq!(pixels(&img).len(), 6);
    assert_eq!(pixels(&img)[5], [6, 6, 6, 255]);
}

#[test]
fn wrong_pixel_count_is_rejected() {
    assert_eq!(decode("P3\n2 1\n255\n1 2 3\n").unwrap_err(), FormatError::PixelCountMismatch);
    assert_eq!(decode("P3\n1 1\n255\n").unwrap_err(), FormatError::PixelCountMismatch);
    assert_eq!(decode("P3\n0 0\n255\n1 2 3\n").unwrap_err(), FormatError::PixelCountMismatch);
}

#[test]
fn empty_line_is_malformed() {
    assert_eq!(decode("\nP3\n1 1\n255\n1 2 3\n").unwrap_err(), FormatError::MalformedLine);
    assert_eq!(decode("P3\n1 1\n255\n1 2 3\n\n").unwrap_err(), FormatError::MalformedLine);
}

#[test]
fn missing_header_lines() {
    assert_eq!(decode("").unwrap_err(), FormatError::InvalidMagic);
    assert_eq!(decode("# only\n").unwrap_err(), FormatError::InvalidMagic);
    assert_eq!(decode("P3\n").unwrap_err(), FormatError::InvalidDimension);
    assert_eq!(decode("P3\n1 1").unwrap_err(), FormatError::InvalidMaxValue);
}

#[test]
fn triplet_may_span_lines() {
    let img = decode("P3\n2 1\n255\n1 2\n3 4\n5 6").unwrap();
    assert_eq!(pixels(&img), vec![[1, 2, 3, 255], [4, 5, 6, 255]]);
}

#[test]
fn partial_pixel_at_end_is_filled_with_zeros() {
    let img = decode("P3\n2 1\n255\n1 2 3 4\n").unwrap();
    assert_eq!(pixels(&img), vec![[1, 2, 3, 255], [4, 0, 0, 255]]);
    let img = decode("P3\n2 1\n255\n1 2 3 4 5").unwrap();
    assert_eq!(pixels(&img), vec![[1, 2, 3, 255], [4, 5, 0, 255]]);
}

#[test]
fn plus_sign_and_leading_zeros_are_read() {
    let img = decode("P3\n+1 01\n0255\n+7 007 255\n").unwrap();
    assert_eq!(img.width(), 1);
    assert_eq!(img.height(), 1);
    assert_eq!(img.max(), 255);
    assert_eq!(pixels(&img), vec![[7, 7, 255, 255]]);
    assert_eq!(decode("P3\n1 1\n255\n+ 1 2\n").unwrap_err(), FormatError::InvalidSampleValue);
}

#[test]
fn max_value_is_kept_not_applied() {
    let img = decode("P3\n1 1\n15\n200 100 50\n").unwrap();
    assert_eq!(img.max(), 15);
    assert_eq!(pixels(&img), vec![[200, 100, 50, 255]]);
}

#[test]
fn draw_copies_pixels_in_order() {
    let img = decode("P3\n2 1\n255\n10 20 30 40 50 60\n").unwrap();
    let mut frame = vec![0u8; 8];
    img.draw(&mut frame);
    assert_eq!(frame, vec![10, 20, 30, 255, 40, 50, 60, 255]);
}

#[test]
fn push_pixel_appends_opaque_pixel() {
    let mut img = decode("P3\n0 0\n255\n").unwrap();
    img.push_pixel(1, 2, 3);
    img.push_pixel(4, 5, 6);
    assert_eq!(pixels(&img), vec![[1, 2, 3, 255], [4, 5, 6, 255]]);
}

#[test]
fn stages_advance_in_order() {
    assert_eq!(IterState::Magic.next(), IterState::Size);
    assert_eq!(IterState::Size.next(), IterState::Max);
    assert_eq!(IterState::Max.next(), IterState::Data);
    assert_eq!(IterState::Data.next(), IterState::Data);
}
