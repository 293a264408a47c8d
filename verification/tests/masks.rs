use tessera_bridge::base64::base64_encode;
use tessera_bridge::masks::{mask_box_sums, mask_levels, mask_png};

#[test]
fn a_mask_reads_back_its_levels() {
    let levels = vec![0u8, 64, 128, 255, 7, 9];
    let text = mask_png(3, 2, &levels).unwrap();
    assert!(!text.is_empty());
    let (line, rows) = mask_levels(&text, 3, 2).unwrap();
    assert_eq!(line, 3);
    assert_eq!(rows, levels);
}

#[test]
fn a_mask_is_png_text() {
    let text = mask_png(1, 1, &vec![200u8]).unwrap();
    // base64 of the PNG signature 0x89 'P' 'N' 'G'
    assert!(text.starts_with("iVBORw0KGgo"));
}

#[test]
fn an_empty_or_short_mask_is_refused() {
    assert!(mask_png(0, 2, &vec![]).is_err());
    assert!(mask_png(2, 0, &vec![]).is_err());
    assert!(mask_png(2, 2, &vec![1u8, 2, 3]).is_err());
}

#[test]
fn a_mask_that_is_not_base64_is_refused() {
    let e = mask_levels("not base64!", 2, 2).unwrap_err();
    assert_eq!(e.message_text(), "smart filter mask: bad base64");
}

#[test]
fn a_mask_of_another_canvas_is_refused() {
    let text = mask_png(2, 2, &vec![1u8, 2, 3, 4]).unwrap();
    let e = mask_levels(&text, 3, 2).unwrap_err();
    assert_eq!(e.message_text(), "smart filter mask does not match the canvas");
    let e = mask_levels(&text, 2, 3).unwrap_err();
    assert_eq!(e.message_text(), "smart filter mask does not match the canvas");
}

#[test]
fn base64_that_is_not_png_is_refused() {
    // "aGVsbG8=" is base64 of "hello"
    assert!(mask_levels("aGVsbG8=", 2, 2).is_err());
}

#[test]
fn box_sums_cover_each_cell_at_full_resolution() {
    // 3 × 3 canvas, rows 4 bytes apart (one byte of padding per row)
    let rows = vec![1u8, 2, 3, 99, 4, 5, 6, 99, 7, 8, 9, 99];
    // level 1: boxes of 2 × 2, cut at the canvas edge
    let sums = mask_box_sums(4, &rows, 3, 3, 1, 0, 0, 2, 2);
    assert_eq!(sums.len(), 2);
    assert_eq!(sums[0], vec![(1 + 2 + 4 + 5, 4), (3 + 6, 2)]);
    assert_eq!(sums[1], vec![(7 + 8, 2), (9, 1)]);
}

#[test]
fn box_sums_at_full_resolution_are_the_levels() {
    let rows = vec![10u8, 20, 30, 40];
    let sums = mask_box_sums(2, &rows, 2, 2, 0, 1, 0, 1, 2);
    assert_eq!(sums, vec![vec![(20, 1)], vec![(40, 1)]]);
}

#[test]
fn box_sums_off_the_canvas_are_empty() {
    let rows = vec![255u8; 4];
    let sums = mask_box_sums(2, &rows, 2, 2, 1, 1, 0, 2, 1);
    assert_eq!(sums, vec![vec![(0, 0), (0, 0)]]);
    assert!(mask_box_sums(2, &rows, 2, 2, 3, 0, 0, 0, 0).is_empty());
}

#[test]
fn a_stored_mask_sums_to_its_levels() {
    let levels = vec![255u8, 0, 128, 64];
    let text = mask_png(2, 2, &levels).unwrap();
    let (line, rows) = mask_levels(&text, 2, 2).unwrap();
    let sums = mask_box_sums(line, &rows, 2, 2, 1, 0, 0, 1, 1);
    assert_eq!(sums, vec![vec![(255 + 128 + 64, 4)]]);
}

fn png_of(width: u32, height: u32, color: png::ColorType, depth: png::BitDepth, data: &[u8]) -> String {
    let mut out = Vec::new();
    {
        let mut enc = png::Encoder::new(&mut out, width, height);
        enc.set_color(color);
        enc.set_depth(depth);
        let mut w = enc.write_header().unwrap();
        w.write_image_data(data).unwrap();
    }
    base64_encode(&out)
}

#[test]
fn a_mask_that_is_not_8_bit_grey_is_refused() {
    let rgb = png_of(2, 1, png::ColorType::Rgb, png::BitDepth::Eight, &[1, 2, 3, 4, 5, 6]);
    let e = mask_levels(&rgb, 2, 1).unwrap_err();
    assert_eq!(e.message_text(), "smart filter mask does not match the canvas");
    let grey16 = png_of(2, 1, png::ColorType::Grayscale, png::BitDepth::Sixteen, &[0, 1, 0, 2]);
    let e = mask_levels(&grey16, 2, 1).unwrap_err();
    assert_eq!(e.message_text(), "smart filter mask does not match the canvas");
    let grey8 = png_of(2, 1, png::ColorType::Grayscale, png::BitDepth::Eight, &[9, 8]);
    assert_eq!(mask_levels(&grey8, 2, 1).unwrap(), (2, vec![9, 8]));
}
