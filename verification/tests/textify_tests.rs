use rusty_images::textify::{
    get_character_from_brightness, get_image_brightness, textify_my_img, Brightness, Region, Rgb,
    SourceImage,
};

const BLACK: Rgb = Rgb { red: 0, green: 0, blue: 0 };
const WHITE: Rgb = Rgb { red: 255, green: 255, blue: 255 };

// The scaled luminance of a pure-white pixel; brightness 1 is this per pixel.
const WHITE_LUM: u128 = 2550000;

fn image(width: u32, height: u32, pixels: Vec<Rgb>) -> SourceImage {
    assert_eq!(pixels.len(), (width as usize) * (height as usize));
    SourceImage { width, height, pixels }
}

fn full_region(img: &SourceImage) -> Region {
    Region { x: 0, y: 0, width: img.width, height: img.height }
}

#[test]
fn black_region_has_brightness_zero() {
    let img = image(2, 2, vec![BLACK; 4]);
    let b = get_image_brightness(&img, full_region(&img));
    assert_eq!(b.numer, 0);
    assert_eq!(b.count, 4);
}

#[test]
fn white_region_has_brightness_one() {
    let img = image(2, 2, vec![WHITE; 4]);
    let b = get_image_brightness(&img, full_region(&img));
    // Brightness 1 means the luminance sum equals the white luminance times
    // the pixel count.
    assert_eq!(b.numer, WHITE_LUM * 4);
    assert_eq!(b.count, 4);
}

#[test]
fn single_red_pixel_luminance() {
    // Relative luminance weights red by 0.2126: scaled, 2126 * 255.
    let img = image(1, 1, vec![Rgb { red: 255, green: 0, blue: 0 }]);
    let b = get_image_brightness(&img, full_region(&img));
    assert_eq!(b.numer, 2126 * 255);
    assert_eq!(b.count, 1);
}

#[test]
fn mixed_region_averages() {
    let img = image(2, 1, vec![BLACK, WHITE]);
    let b = get_image_brightness(&img, full_region(&img));
    // One white pixel out of two: value 1/2.
    assert_eq!(b.numer, WHITE_LUM);
    assert_eq!(b.count, 2);
}

#[test]
fn zero_area_region_is_dark_and_does_not_crash() {
    let img = image(2, 2, vec![WHITE; 4]);
    let b = get_image_brightness(&img, Region { x: 0, y: 0, width: 0, height: 2 });
    assert_eq!(b.count, 0);
    assert_eq!(b.numer, 0);
    // The documented policy: a pixel-less region counts as brightness 0 and
    // maps to the first (least-ink) glyph.
    let c = get_character_from_brightness(b, &vec![' ', '#']);
    assert_eq!(c, ' ');
}

#[test]
fn brightness_zero_maps_to_first_glyph() {
    let b = Brightness { numer: 0, count: 1 };
    let c = get_character_from_brightness(b, &vec![' ', '.', '#']);
    assert_eq!(c, ' ');
}

#[test]
fn brightness_one_maps_to_last_glyph() {
    let b = Brightness { numer: WHITE_LUM, count: 1 };
    let c = get_character_from_brightness(b, &vec![' ', '.', '#']);
    assert_eq!(c, '#');
}

#[test]
fn bucket_boundaries_for_three_glyphs() {
    let palette = vec![' ', '.', '#'];
    // With three buckets the first boundary sits at value 1/3, which is a
    // luminance sum of 850000 for a single pixel.
    let below = Brightness { numer: 849999, count: 1 };
    assert_eq!(get_character_from_brightness(below, &palette), ' ');
    let at = Brightness { numer: 850000, count: 1 };
    assert_eq!(get_character_from_brightness(at, &palette), '.');
}

#[test]
fn mid_gray_with_ascii_palette() {
    // Channel value 128 has scaled luminance 1280000; with ten buckets the
    // index is floor(10 * 1280000 / 2550000) = 5.
    let palette: Vec<char> = " .:-=+*#%@".chars().collect();
    let b = Brightness { numer: 1280000, count: 1 };
    assert_eq!(get_character_from_brightness(b, &palette), '+');
}

#[test]
fn single_glyph_palette_is_constant() {
    let palette = vec!['x'];
    for numer in [0u128, 1275000, 2550000] {
        let b = Brightness { numer, count: 1 };
        assert_eq!(get_character_from_brightness(b, &palette), 'x');
    }
}

#[test]
fn checkerboard_two_by_two() {
    // Row-major source (black, white / white, black) rendered 1:1 with a
    // two-glyph palette: cell (0, 0) samples the top-left pixel, so the top
    // row reads " #" and every row ends with a newline.
    let img = image(2, 2, vec![BLACK, WHITE, WHITE, BLACK]);
    let palette = vec![' ', '#'];
    let text = textify_my_img(&img, 2, 2, &palette);
    assert_eq!(text, " #\n# \n");
}

#[test]
fn whole_image_in_one_cell() {
    // A single output cell spans both pixels: value 1/2, which with two
    // buckets falls in the upper one.
    let img = image(2, 1, vec![BLACK, WHITE]);
    let palette = vec![' ', '#'];
    let text = textify_my_img(&img, 1, 1, &palette);
    assert_eq!(text, "#\n");
}

#[test]
fn output_shape_rows_and_columns() {
    let img = image(5, 3, vec![WHITE; 15]);
    let palette = vec![' ', '#'];
    let out_w = 4u32;
    let out_h = 3u32;
    let text = textify_my_img(&img, out_w, out_h, &palette);
    assert_eq!(text.chars().count(), (out_h as usize) * (out_w as usize + 1));
    let lines: Vec<&str> = text.split_terminator('\n').collect();
    assert_eq!(lines.len(), out_h as usize);
    for line in lines {
        assert_eq!(line.chars().count(), out_w as usize);
    }
    assert!(text.ends_with('\n'));
}

#[test]
fn source_smaller_than_output_renders_dark() {
    // Scale factors below 1 truncate to zero-area regions; the documented
    // policy renders those as the first glyph, with no crash.
    let img = image(1, 1, vec![WHITE]);
    let palette = vec![' ', '#'];
    let text = textify_my_img(&img, 3, 2, &palette);
    assert_eq!(text, "   \n   \n");
}

#[test]
fn rendering_is_deterministic() {
    let img = image(
        3,
        2,
        vec![
            Rgb { red: 10, green: 200, blue: 30 },
            WHITE,
            BLACK,
            Rgb { red: 128, green: 128, blue: 128 },
            Rgb { red: 255, green: 0, blue: 255 },
            Rgb { red: 0, green: 255, blue: 0 },
        ],
    );
    let palette: Vec<char> = " .:-=+*#%@".chars().collect();
    let first = textify_my_img(&img, 3, 2, &palette);
    let second = textify_my_img(&img, 3, 2, &palette);
    assert_eq!(first, second);
}
