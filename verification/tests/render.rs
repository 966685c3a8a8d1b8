use braille_art::braille::cell_to_char;
use braille_art::braille::render_braille;
use braille_art::gray::binarize;
use braille_art::gray::GrayImg;

fn img(width: usize, height: usize, pixels: Vec<u8>) -> GrayImg {
    GrayImg::new(width, height, pixels).unwrap()
}

fn pipeline(width: usize, height: usize, pixels: Vec<u8>, threshold: u8) -> String {
    let image = img(width, height, pixels);
    let matrix = binarize(&image, threshold);
    render_braille(&matrix)
}

#[test]
fn scenario_all_white() {
    // A 2x4 all-white image: no ink, a single blank Braille cell.
    let art = pipeline(2, 4, vec![255; 8], 128);
    assert_eq!(art, "\u{2800}\n");
}

#[test]
fn scenario_all_black() {
    // A 2x4 all-black image: every dot set, mask 255.
    let art = pipeline(2, 4, vec![0; 8], 128);
    assert_eq!(art, "\u{28FF}\n");
}

#[test]
fn scenario_top_left_dot() {
    // Only the top-left pixel is black: only bit 0 of the mask is set.
    let mut pixels = vec![255; 8];
    pixels[0] = 0;
    let art = pipeline(2, 4, pixels, 128);
    assert_eq!(art, "\u{2801}\n");
}

#[test]
fn scenario_single_pixel() {
    // A 1x1 black image: position (0,0) is ink, all other sub-positions
    // of the block fall outside the image and contribute nothing.
    let art = pipeline(1, 1, vec![0], 128);
    assert_eq!(art, "\u{2801}\n");
}

#[test]
fn empty_zero_width() {
    let art = pipeline(0, 3, vec![], 128);
    assert_eq!(art, "");
}

#[test]
fn empty_zero_height() {
    let art = pipeline(3, 0, vec![], 128);
    assert_eq!(art, "");
}

#[test]
fn empty_zero_both() {
    let art = pipeline(0, 0, vec![], 128);
    assert_eq!(art, "");
}

#[test]
fn dimension_law_sample() {
    // A 5x6 image: ceil(6/4) = 2 lines of ceil(5/2) = 3 glyphs each.
    let art = pipeline(5, 6, vec![77; 30], 128);
    let lines: Vec<&str> = art.split_terminator('\n').collect();
    assert_eq!(lines.len(), 2);
    for line in lines {
        assert_eq!(line.chars().count(), 3);
    }
    assert!(art.ends_with('\n'));
}

#[test]
fn boundary_blank_edges() {
    // A 3x5 all-black image: width is odd and height is not a multiple
    // of 4, so the right and bottom edge blocks only collect bits from
    // their in-bounds cells.
    let art = pipeline(3, 5, vec![0; 15], 128);
    assert_eq!(art, "\u{28FF}\u{2847}\n\u{2809}\u{2801}\n");
}

#[test]
fn threshold_zero_is_blank() {
    // No luminance is strictly below zero, so nothing is ink.
    let art = pipeline(2, 4, vec![0; 8], 0);
    assert_eq!(art, "\u{2800}\n");
}

#[test]
fn threshold_boundary_is_strict() {
    let image = img(2, 1, vec![127, 128]);
    let matrix = binarize(&image, 128);
    assert_eq!(matrix, vec![vec![true, false]]);
}

#[test]
fn threshold_monotonic_sample() {
    let pixels: Vec<u8> = vec![0, 50, 100, 150, 200, 255];
    let low = binarize(&img(3, 2, pixels.clone()), 100);
    let high = binarize(&img(3, 2, pixels), 200);
    for y in 0..2 {
        for x in 0..3 {
            // Every pixel that is ink at the lower threshold is still
            // ink at the higher one.
            assert!(!low[y][x] || high[y][x]);
        }
    }
}

#[test]
fn binarize_dimensions() {
    let matrix = binarize(&img(4, 3, vec![9; 12]), 10);
    assert_eq!(matrix.len(), 3);
    for row in &matrix {
        assert_eq!(row.len(), 4);
    }
}

#[test]
fn deterministic_rendering() {
    let pixels: Vec<u8> = (0u16..64).map(|v| (v * 4) as u8).collect();
    let first = pipeline(8, 8, pixels.clone(), 128);
    let second = pipeline(8, 8, pixels, 128);
    assert_eq!(first, second);
}

#[test]
fn cell_to_char_values() {
    assert_eq!(cell_to_char(0), '\u{2800}');
    assert_eq!(cell_to_char(1), '\u{2801}');
    assert_eq!(cell_to_char(9), '\u{2809}');
    assert_eq!(cell_to_char(255), '\u{28FF}');
}

#[test]
fn render_takes_matrix_directly() {
    // Left column fully ink, right column blank: bits 0, 1, 2 and 6.
    let matrix = vec![
        vec![true, false],
        vec![true, false],
        vec![true, false],
        vec![true, false],
    ];
    assert_eq!(render_braille(&matrix), "\u{2847}\n");
}

#[test]
fn gray_img_new_checks_size() {
    assert!(GrayImg::new(2, 2, vec![0; 4]).is_some());
    assert!(GrayImg::new(2, 2, vec![0; 3]).is_none());
    assert!(GrayImg::new(0, 5, vec![]).is_some());
}
