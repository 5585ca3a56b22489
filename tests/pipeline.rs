use png_to_svg::decode::{decode_rgba_png, frame_buffer_size, PngHeader};
use png_to_svg::error::ConvertError;
use png_to_svg::rows::{convert_pixels_to_vectors, split_rows};
use png_to_svg::svg::{create_svg_from_vectors, fill_color};

fn encode_png(width: u32, height: u32, color: png::ColorType, depth: png::BitDepth, data: &[u8]) -> Vec<u8> {
    let mut out: Vec<u8> = Vec::new();
    {
        let mut encoder = png::Encoder::new(&mut out, width, height);
        encoder.set_color(color);
        encoder.set_depth(depth);
        let mut writer = encoder.write_header().unwrap();
        writer.write_image_data(data).unwrap();
    }
    out
}

fn rgba_png(width: u32, height: u32, data: &[u8]) -> Vec<u8> {
    encode_png(width, height, png::ColorType::Rgba, png::BitDepth::Eight, data)
}

fn convert(png_bytes: &[u8]) -> String {
    let image = decode_rgba_png(png_bytes).unwrap();
    let rows = split_rows(image.pixels, image.width, image.height).unwrap();
    create_svg_from_vectors(rows, image.width, image.height)
}

#[test]
fn two_by_two_scenario() {
    let data: Vec<u8> = vec![
        255, 0, 0, 255, 0, 255, 0, 255, //
        0, 0, 255, 255, 255, 255, 255, 255,
    ];
    let svg = convert(&rgba_png(2, 2, &data));
    let expected = [
        r#"<svg width="2" height="2" xmlns="http://www.w3.org/2000/svg">"#,
        r##"<rect x="0" y="0" width="1" height="1" fill="#FF0000" />"##,
        r##"<rect x="1" y="0" width="1" height="1" fill="#00FF00" />"##,
        r##"<rect x="0" y="1" width="1" height="1" fill="#0000FF" />"##,
        r##"<rect x="1" y="1" width="1" height="1" fill="#FFFFFF" />"##,
        "</svg>",
    ]
    .concat();
    assert_eq!(svg, expected);
}

#[test]
fn fill_color_of_pixel() {
    assert_eq!(fill_color(255, 0, 128), "#FF0080");
    assert_eq!(fill_color(0, 0, 0), "#000000");
    assert_eq!(fill_color(1, 171, 16), "#01AB10");
}

#[test]
fn emitted_fill_drops_alpha() {
    let svg = create_svg_from_vectors(vec![vec![255, 0, 128, 255]], 1, 1);
    assert_eq!(
        svg,
        r##"<svg width="1" height="1" xmlns="http://www.w3.org/2000/svg"><rect x="0" y="0" width="1" height="1" fill="#FF0080" /></svg>"##
    );
    let translucent = create_svg_from_vectors(vec![vec![255, 0, 128, 7]], 1, 1);
    assert_eq!(svg, translucent);
}

#[test]
fn decoded_size_is_width_height_four() {
    let data: Vec<u8> = (0..3 * 5 * 4).map(|i| i as u8).collect();
    let image = decode_rgba_png(&rgba_png(3, 5, &data)).unwrap();
    assert_eq!(image.width, 3);
    assert_eq!(image.height, 5);
    assert_eq!(image.pixels.len(), 3 * 5 * 4);
    assert_eq!(image.pixels, data);
}

#[test]
fn rgb_image_is_unsupported() {
    let data: Vec<u8> = vec![1, 2, 3, 4, 5, 6];
    let bytes = encode_png(2, 1, png::ColorType::Rgb, png::BitDepth::Eight, &data);
    match decode_rgba_png(&bytes) {
        Err(ConvertError::UnsupportedFormat { color_type, bit_depth }) => {
            assert_eq!(color_type, 2);
            assert_eq!(bit_depth, 8);
        }
        other => panic!("unexpected result: {:?}", other),
    }
}

#[test]
fn sixteen_bit_rgba_is_unsupported() {
    let data: Vec<u8> = vec![0; 8];
    let bytes = encode_png(1, 1, png::ColorType::Rgba, png::BitDepth::Sixteen, &data);
    match decode_rgba_png(&bytes) {
        Err(ConvertError::UnsupportedFormat { color_type, bit_depth }) => {
            assert_eq!(color_type, 6);
            assert_eq!(bit_depth, 16);
        }
        other => panic!("unexpected result: {:?}", other),
    }
}

#[test]
fn garbage_is_a_decode_error() {
    let bytes: Vec<u8> = b"this is not a png file".to_vec();
    assert!(matches!(decode_rgba_png(&bytes), Err(ConvertError::Decode(_))));
    assert!(matches!(decode_rgba_png(&[]), Err(ConvertError::Decode(_))));
}

#[test]
fn truncated_stream_is_a_decode_error() {
    let data: Vec<u8> = vec![9; 4 * 4 * 4];
    let bytes = rgba_png(4, 4, &data);
    let cut = &bytes[..bytes.len() - 20];
    assert!(matches!(decode_rgba_png(cut), Err(ConvertError::Decode(_))));
}

#[test]
fn buffer_size_for_headers() {
    let rgba = PngHeader { width: 100, height: 100, color_type: 6, bit_depth: 8 };
    assert_eq!(frame_buffer_size(&rgba).unwrap(), 40000);
    let gray = PngHeader { width: 100, height: 100, color_type: 0, bit_depth: 8 };
    assert!(matches!(
        frame_buffer_size(&gray),
        Err(ConvertError::UnsupportedFormat { color_type: 0, bit_depth: 8 })
    ));
    let indexed = PngHeader { width: 2, height: 2, color_type: 3, bit_depth: 4 };
    assert!(matches!(
        frame_buffer_size(&indexed),
        Err(ConvertError::UnsupportedFormat { color_type: 3, bit_depth: 4 })
    ));
}

#[test]
fn buffer_size_too_large() {
    let huge = PngHeader { width: u32::MAX, height: u32::MAX, color_type: 6, bit_depth: 8 };
    assert!(matches!(frame_buffer_size(&huge), Err(ConvertError::TooLarge)));
}

#[test]
fn chunking_gives_height_rows() {
    let pixels: Vec<u8> = (0..3 * 2 * 4).map(|i| i as u8).collect();
    let rows = convert_pixels_to_vectors(pixels.clone(), 3, 2);
    assert_eq!(rows.len(), 2);
    assert_eq!(rows[0], pixels[0..12].to_vec());
    assert_eq!(rows[1], pixels[12..24].to_vec());
}

#[test]
fn chunking_drops_trailing_bytes() {
    let pixels: Vec<u8> = (0..10).collect();
    let rows = convert_pixels_to_vectors(pixels, 2, 2);
    // two bytes per pixel, so rows of four bytes; bytes 8 and 9 are dropped
    assert_eq!(rows, vec![vec![0, 1, 2, 3], vec![4, 5, 6, 7]]);
}

#[test]
fn split_rows_exact() {
    let pixels: Vec<u8> = (0..2 * 3 * 4).map(|i| i as u8).collect();
    let rows = split_rows(pixels, 2, 3).unwrap();
    assert_eq!(rows.len(), 3);
    assert!(rows.iter().all(|r| r.len() == 8));
    assert_eq!(rows[2], vec![16, 17, 18, 19, 20, 21, 22, 23]);
}

#[test]
fn split_rows_dimension_mismatch() {
    let pixels: Vec<u8> = vec![0; 10];
    assert!(matches!(split_rows(pixels.clone(), 2, 2), Err(ConvertError::DimensionMismatch)));
    assert!(matches!(split_rows(pixels.clone(), 0, 2), Err(ConvertError::DimensionMismatch)));
    assert!(matches!(split_rows(pixels, 2, 0), Err(ConvertError::DimensionMismatch)));
    assert!(matches!(split_rows(Vec::new(), 1, 1), Err(ConvertError::DimensionMismatch)));
    assert!(matches!(split_rows(vec![0; 3], 2, 2), Err(ConvertError::DimensionMismatch)));
}

#[test]
fn element_count_matches_dimensions() {
    let (w, h) = (7u32, 3u32);
    let pixels: Vec<u8> = (0..w * h * 4).map(|i| (i * 13) as u8).collect();
    let rows = split_rows(pixels, w, h).unwrap();
    let svg = create_svg_from_vectors(rows, w, h);
    assert_eq!(svg.matches("<rect ").count(), (w * h) as usize);
    assert_eq!(svg.matches("<svg ").count(), 1);
    assert_eq!(svg.matches("</svg>").count(), 1);
    assert!(svg.starts_with(r#"<svg width="7" height="3" "#));
    assert!(svg.ends_with("</svg>"));
}

#[test]
fn coordinates_above_nine() {
    let row: Vec<u8> = vec![0; 12 * 4];
    let svg = create_svg_from_vectors(vec![row; 11], 12, 11);
    assert!(svg.contains(r##"<rect x="11" y="10" width="1" height="1" fill="#000000" />"##));
    assert!(svg.starts_with(r#"<svg width="12" height="11" "#));
}

#[test]
fn partial_pixel_at_row_end_is_skipped() {
    let svg = create_svg_from_vectors(vec![vec![1, 2, 3, 4, 5, 6]], 1, 1);
    assert_eq!(
        svg,
        r##"<svg width="1" height="1" xmlns="http://www.w3.org/2000/svg"><rect x="0" y="0" width="1" height="1" fill="#010203" /></svg>"##
    );
}

#[test]
fn empty_rows_give_bare_document() {
    let svg = create_svg_from_vectors(Vec::new(), 100, 100);
    assert_eq!(svg, r#"<svg width="100" height="100" xmlns="http://www.w3.org/2000/svg"></svg>"#);
}

#[test]
fn same_input_same_output() {
    let data: Vec<u8> = (0..5 * 4 * 4).map(|i| (i * 7) as u8).collect();
    let bytes = rgba_png(5, 4, &data);
    let first = convert(&bytes);
    let second = convert(&bytes);
    assert_eq!(first.as_bytes(), second.as_bytes());
}
