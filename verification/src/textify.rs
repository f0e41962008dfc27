//! The image-to-text rendering pipeline.
//!
//! A [`SourceImage`] is sampled on an `output_height x output_width` grid;
//! every grid cell corresponds to a rectangular [`Region`] of source pixels,
//! whose average relative luminance picks one glyph out of an ordered shading
//! palette.  Brightness is kept as an exact rational number (a scaled
//! luminance sum over a pixel count), so the whole pipeline is integer
//! arithmetic with no rounding beyond the specified truncations.

use vstd::arithmetic::mul::*;
use vstd::prelude::*;

verus! {

/// One pixel's red, green and blue channel intensities.
#[derive(Clone, Copy, PartialEq, Eq, Structural)]
pub struct Rgb {
    pub red: u8,
    pub green: u8,
    pub blue: u8,
}

/// Weight of the red channel in the relative-luminance formula, times 10000.
pub const RED_WEIGHT: u32 = 2126;

/// Weight of the green channel in the relative-luminance formula, times 10000.
pub const GREEN_WEIGHT: u32 = 7152;

/// Weight of the blue channel in the relative-luminance formula, times 10000.
pub const BLUE_WEIGHT: u32 = 722;

/// The scaled luminance of a pure-white pixel: 10000 * 255.  A pixel's
/// normalized brightness in [0, 1] is its scaled luminance divided by this.
pub const WHITE_LUMINANCE: u32 = 2550000;

/// The relative luminance of a pixel, scaled by 10000 so that it is an
/// integer: `10000 * (0.2126 * red + 0.7152 * green + 0.0722 * blue)`.
pub open spec fn pixel_luminance(p: Rgb) -> int {
    RED_WEIGHT as int * p.red as int + GREEN_WEIGHT as int * p.green as int + BLUE_WEIGHT as int
        * p.blue as int
}

/// An immutable rectangular grid of pixels, stored row-major.
pub struct SourceImage {
    pub width: u32,
    pub height: u32,
    pub pixels: Vec<Rgb>,
}

impl SourceImage {
    /// The pixel buffer holds exactly one entry per coordinate pair.
    pub open spec fn wf(self) -> bool {
        self.pixels@.len() == self.width as int * self.height as int
    }

    /// The pixel at column `x`, row `y`; row-major layout.
    pub open spec fn pixel_at(self, x: int, y: int) -> Rgb {
        self.pixels@[y * self.width as int + x]
    }

    /// Reads the pixel at column `x`, row `y`.
    pub fn pixel(&self, x: u32, y: u32) -> (p: Rgb)
        requires
            self.wf(),
            x < self.width,
            y < self.height,
        ensures
            p == self.pixel_at(x as int, y as int),
    {
        proof {
            assert((y as int) * (self.width as int) + (x as int) < (self.height as int) * (
            self.width as int)) by (nonlinear_arith)
                requires
                    x < self.width,
                    y < self.height,
            ;
            lemma_mul_is_commutative(self.height as int, self.width as int);
        }
        // Reading the length brings `width * height <= usize::MAX` into
        // scope, which bounds the index computation below.
        let _len: usize = self.pixels.len();
        let idx: usize = (y as usize) * (self.width as usize) + (x as usize);
        self.pixels[idx]
    }
}

/// A rectangle in source-image pixel coordinates.
#[derive(Clone, Copy, PartialEq, Eq, Structural)]
pub struct Region {
    pub x: u32,
    pub y: u32,
    pub width: u32,
    pub height: u32,
}

impl Region {
    /// The region lies entirely inside `img`.
    pub open spec fn fits(self, img: SourceImage) -> bool {
        self.x + self.width <= img.width && self.y + self.height <= img.height
    }

    /// The number of pixels the region covers.
    pub open spec fn area(self) -> int {
        self.width as int * self.height as int
    }
}

/// Sum of scaled luminances of the `w` pixels of row `y` that start at
/// column `x0`.
pub open spec fn row_luminance_sum(img: SourceImage, y: int, x0: int, w: int) -> int
    decreases w,
{
    if w <= 0 {
        0
    } else {
        row_luminance_sum(img, y, x0, w - 1) + pixel_luminance(img.pixel_at(x0 + w - 1, y))
    }
}

/// Sum of scaled luminances over the `w x h` rectangle of pixels whose
/// top-left corner is `(x0, y0)`.
pub open spec fn rect_luminance_sum(img: SourceImage, x0: int, y0: int, w: int, h: int) -> int
    decreases h,
{
    if h <= 0 {
        0
    } else {
        rect_luminance_sum(img, x0, y0, w, h - 1) + row_luminance_sum(img, y0 + h - 1, x0, w)
    }
}

/// Sum of scaled luminances over all pixels of `region`.
pub open spec fn region_luminance_sum(img: SourceImage, region: Region) -> int {
    rect_luminance_sum(
        img,
        region.x as int,
        region.y as int,
        region.width as int,
        region.height as int,
    )
}

/// Every pixel's scaled luminance lies between 0 and [`WHITE_LUMINANCE`].
pub proof fn lemma_pixel_luminance_bounds(p: Rgb)
    ensures
        0 <= pixel_luminance(p) <= WHITE_LUMINANCE as int,
{
}

/// A row sum of `w` pixels lies between 0 and `w` white pixels' worth.
pub proof fn lemma_row_luminance_sum_bounds(img: SourceImage, y: int, x0: int, w: int)
    requires
        w >= 0,
    ensures
        0 <= row_luminance_sum(img, y, x0, w) <= w * WHITE_LUMINANCE as int,
    decreases w,
{
    if w > 0 {
        lemma_row_luminance_sum_bounds(img, y, x0, w - 1);
        lemma_pixel_luminance_bounds(img.pixel_at(x0 + w - 1, y));
        lemma_mul_is_distributive_sub_other_way(WHITE_LUMINANCE as int, w, 1);
    }
}

/// A rectangle sum of `w x h` pixels lies between 0 and `w * h` white
/// pixels' worth.
pub proof fn lemma_rect_luminance_sum_bounds(img: SourceImage, x0: int, y0: int, w: int, h: int)
    requires
        w >= 0,
        h >= 0,
    ensures
        0 <= rect_luminance_sum(img, x0, y0, w, h) <= w * h * WHITE_LUMINANCE as int,
    decreases h,
{
    if h > 0 {
        lemma_rect_luminance_sum_bounds(img, x0, y0, w, h - 1);
        lemma_row_luminance_sum_bounds(img, y0 + h - 1, x0, w);
        assert(w * (h - 1) * WHITE_LUMINANCE as int + w * WHITE_LUMINANCE as int == w * h
            * WHITE_LUMINANCE as int) by (nonlinear_arith);
    }
}

/// The average brightness of a region, kept as an exact rational number:
/// `numer` is the sum of the scaled luminances of the region's pixels and
/// `count` is the number of pixels.  The brightness value is
/// `numer / (WHITE_LUMINANCE * count)`, which always lies in [0, 1].
///
/// A zero-area region is represented by `count == 0` (and then `numer == 0`)
/// and is treated as brightness 0 (fully dark) throughout: this is the
/// documented policy for sampling regions that quantization has truncated to
/// nothing.
#[derive(Clone, Copy, PartialEq, Eq, Structural)]
pub struct Brightness {
    pub numer: u128,
    pub count: u64,
}

impl Brightness {
    /// The rational `numer / (WHITE_LUMINANCE * count)` lies in [0, 1], and
    /// a pixel-less region is fully dark.
    pub open spec fn wf(self) -> bool {
        &&& self.numer as int <= WHITE_LUMINANCE as int * self.count as int
        &&& (self.count == 0 ==> self.numer == 0)
    }
}

/// Computes the average brightness of `region` within `img` as an exact
/// rational: the sum of all scaled pixel luminances over the pixel count.
///
/// Edge-case policy: a region whose width or height is zero contains no
/// pixels and comes back with `count == 0`, which downstream glyph mapping
/// treats as brightness 0 (fully dark).
pub fn get_image_brightness(img: &SourceImage, region: Region) -> (b: Brightness)
    requires
        img.wf(),
        region.fits(*img),
    ensures
        b.count == region.area(),
        b.numer == region_luminance_sum(*img, region),
        b.wf(),
{
    let x0 = region.x;
    let y0 = region.y;
    let w = region.width;
    let h = region.height;
    let mut sum: u128 = 0;
    let mut dy: u32 = 0;
    while dy < h
        invariant
            img.wf(),
            region.fits(*img),
            x0 == region.x && y0 == region.y && w == region.width && h == region.height,
            dy <= h,
            sum == rect_luminance_sum(*img, x0 as int, y0 as int, w as int, dy as int),
            sum as int <= w as int * dy as int * WHITE_LUMINANCE as int,
        decreases h - dy,
    {
        let mut dx: u32 = 0;
        let mut row_sum: u64 = 0;
        while dx < w
            invariant
                img.wf(),
                region.fits(*img),
                x0 == region.x && y0 == region.y && w == region.width && h == region.height,
                dy < h,
                dx <= w,
                row_sum == row_luminance_sum(*img, y0 as int + dy as int, x0 as int, dx as int),
                row_sum as int <= dx as int * WHITE_LUMINANCE as int,
            decreases w - dx,
        {
            let p = img.pixel(x0 + dx, y0 + dy);
            let lum: u32 = RED_WEIGHT * (p.red as u32) + GREEN_WEIGHT * (p.green as u32)
                + BLUE_WEIGHT * (p.blue as u32);
            proof {
                lemma_row_luminance_sum_bounds(*img, y0 as int + dy as int, x0 as int, dx as int);
                lemma_mul_is_distributive_add_other_way(WHITE_LUMINANCE as int, dx as int, 1);
            }
            row_sum = row_sum + (lum as u64);
            dx = dx + 1;
        }
        proof {
            assert(w as int * dy as int * WHITE_LUMINANCE as int + w as int
                * WHITE_LUMINANCE as int == w as int * (dy as int + 1) * WHITE_LUMINANCE as int)
                by (nonlinear_arith);
            assert(w as int * (dy as int + 1) * WHITE_LUMINANCE as int <= w as int * h as int
                * WHITE_LUMINANCE as int) by (nonlinear_arith)
                requires
                    dy as int + 1 <= h as int,
                    w as int >= 0,
            ;
            assert((w as int) * (h as int) * (WHITE_LUMINANCE as int) < u128::MAX)
                by (nonlinear_arith)
                requires
                    0 <= (w as int) && (w as int) < 0x1_0000_0000,
                    0 <= (h as int) && (h as int) < 0x1_0000_0000,
                    WHITE_LUMINANCE == 2550000,
            ;
        }
        sum = sum + (row_sum as u128);
        dy = dy + 1;
    }
    proof {
        assert((w as int) * (h as int) < 0x1_0000_0000_0000_0000) by (nonlinear_arith)
            requires
                0 <= (w as int) && (w as int) < 0x1_0000_0000,
                0 <= (h as int) && (h as int) < 0x1_0000_0000,
        ;
    }
    let count: u64 = (w as u64) * (h as u64);
    proof {
        lemma_rect_luminance_sum_bounds(*img, x0 as int, y0 as int, w as int, h as int);
        assert(w as int * h as int * WHITE_LUMINANCE as int == WHITE_LUMINANCE as int * (w as int
            * h as int)) by (nonlinear_arith);
    }
    Brightness { numer: sum, count }
}

/// The palette index that a brightness of `numer / (WHITE_LUMINANCE * count)`
/// selects from a palette of `k` glyphs: the interval [0, 1] is cut into `k`
/// equal shading buckets, brightness 1 itself falls in the top bucket, and a
/// pixel-less region counts as brightness 0.
pub open spec fn glyph_index(numer: int, count: int, k: int) -> int {
    if count == 0 {
        0
    } else {
        let i = (k * numer) / (WHITE_LUMINANCE as int * count);
        if i >= k {
            k - 1
        } else {
            i
        }
    }
}

/// The glyph that brightness `b` selects from `palette`.
pub open spec fn spec_glyph(b: Brightness, palette: Seq<char>) -> char {
    palette[glyph_index(b.numer as int, b.count as int, palette.len() as int)]
}

/// The glyph index is always a valid palette index, so glyph mapping is a
/// total function.
pub proof fn lemma_glyph_index_in_range(numer: int, count: int, k: int)
    requires
        numer >= 0,
        count >= 0,
        k >= 1,
    ensures
        0 <= glyph_index(numer, count, k) < k,
{
    if count != 0 {
        let den = WHITE_LUMINANCE as int * count;
        lemma_mul_strictly_positive(WHITE_LUMINANCE as int, count);
        assert(k * numer >= 0) by (nonlinear_arith)
            requires
                k >= 1,
                numer >= 0,
        ;
        vstd::arithmetic::div_mod::lemma_div_pos_is_pos(k * numer, den);
    }
}

/// Maps a brightness to the glyph of its shading bucket.
///
/// The palette orders its glyphs from least to most ink; brightness 0 picks
/// the first glyph, brightness 1 the last, and every brightness in between
/// falls into one of `palette.len()` equal-width buckets.
pub fn get_character_from_brightness(b: Brightness, palette: &Vec<char>) -> (c: char)
    requires
        b.wf(),
        palette@.len() >= 1,
        palette@.len() <= u32::MAX,
    ensures
        c == spec_glyph(b, palette@),
        palette@.contains(c),
{
    let k = palette.len();
    proof {
        lemma_glyph_index_in_range(b.numer as int, b.count as int, k as int);
    }
    let idx: usize = if b.count == 0 {
        0
    } else {
        proof {
            assert((WHITE_LUMINANCE as int) * (b.count as int) < u128::MAX) by (nonlinear_arith)
                requires
                    WHITE_LUMINANCE == 2550000,
                    0 <= (b.count as int) && (b.count as int) < 0x1_0000_0000_0000_0000,
            ;
            assert((k as int) * (b.numer as int) <= u128::MAX) by (nonlinear_arith)
                requires
                    0 <= (k as int) && (k as int) <= 0xffff_ffff,
                    0 <= (b.numer as int),
                    (b.numer as int) <= (WHITE_LUMINANCE as int) * (b.count as int),
                    WHITE_LUMINANCE == 2550000,
                    0 <= (b.count as int) && (b.count as int) < 0x1_0000_0000_0000_0000,
            ;
        }
        let den: u128 = (WHITE_LUMINANCE as u128) * (b.count as u128);
        let q: u128 = ((k as u128) * b.numer) / den;
        if q >= k as u128 {
            k - 1
        } else {
            q as usize
        }
    };
    let c = palette[idx];
    proof {
        assert(palette@.contains(c)) by {
            assert(palette@[idx as int] == c);
        }
    }
    c
}

/// The source-image column where output column `c` starts: `c` times the
/// real-valued horizontal scale factor `in_w / out_w`, truncated to a pixel
/// coordinate, computed exactly as `(c * in_w) / out_w`.
pub open spec fn cell_x(in_w: int, out_w: int, c: int) -> int {
    (c * in_w) / out_w
}

/// The source-image row where output row `r` starts.
pub open spec fn cell_y(in_h: int, out_h: int, r: int) -> int {
    (r * in_h) / out_h
}

/// The width of every sampling region: the horizontal scale factor truncated
/// to whole pixels.  Zero when the source is narrower than the output.
pub open spec fn cell_w(in_w: int, out_w: int) -> int {
    in_w / out_w
}

/// The height of every sampling region.
pub open spec fn cell_h(in_h: int, out_h: int) -> int {
    in_h / out_h
}

/// The luminance sum of the sampling region of output cell (row `r`,
/// column `c`).
pub open spec fn cell_luminance_sum(
    img: SourceImage,
    out_w: int,
    out_h: int,
    r: int,
    c: int,
) -> int {
    rect_luminance_sum(
        img,
        cell_x(img.width as int, out_w, c),
        cell_y(img.height as int, out_h, r),
        cell_w(img.width as int, out_w),
        cell_h(img.height as int, out_h),
    )
}

/// The pixel count of every sampling region.
pub open spec fn cell_count(img: SourceImage, out_w: int, out_h: int) -> int {
    cell_w(img.width as int, out_w) * cell_h(img.height as int, out_h)
}

/// The glyph rendered for output cell (row `r`, column `c`).
pub open spec fn cell_char(
    img: SourceImage,
    out_w: int,
    out_h: int,
    palette: Seq<char>,
    r: int,
    c: int,
) -> char {
    palette[glyph_index(
        cell_luminance_sum(img, out_w, out_h, r, c),
        cell_count(img, out_w, out_h),
        palette.len() as int,
    )]
}

/// The full rendered text: `out_h` rows in row-major order, each of `out_w`
/// cell glyphs followed by one newline.  Character `i` of the text belongs
/// to output row `i / (out_w + 1)`; within its row it is either a cell glyph
/// or, at offset `out_w`, the terminating newline.
pub open spec fn render_text(
    img: SourceImage,
    out_w: int,
    out_h: int,
    palette: Seq<char>,
) -> Seq<char> {
    Seq::new(
        (out_h * (out_w + 1)) as nat,
        |i: int|
            if i % (out_w + 1) == out_w {
                '\n'
            } else {
                cell_char(img, out_w, out_h, palette, i / (out_w + 1), i % (out_w + 1))
            },
    )
}

/// The sampling interval of an output coordinate `c` of `out_w` lies inside
/// a source dimension of `in_w` pixels: truncating both the start coordinate
/// and the interval length can only move them down.
pub proof fn lemma_cell_interval_fits(in_w: int, out_w: int, c: int)
    requires
        1 <= out_w,
        0 <= c < out_w,
        0 <= in_w,
    ensures
        0 <= cell_x(in_w, out_w, c),
        0 <= cell_w(in_w, out_w),
        cell_x(in_w, out_w, c) + cell_w(in_w, out_w) <= in_w,
{
    let x = (c * in_w) / out_w;
    let rw = in_w / out_w;
    lemma_mul_nonnegative(c, in_w);
    vstd::arithmetic::div_mod::lemma_div_pos_is_pos(c * in_w, out_w);
    vstd::arithmetic::div_mod::lemma_div_pos_is_pos(in_w, out_w);
    vstd::arithmetic::div_mod::lemma_fundamental_div_mod(c * in_w, out_w);
    vstd::arithmetic::div_mod::lemma_fundamental_div_mod(in_w, out_w);
    vstd::arithmetic::div_mod::lemma_mod_bound(c * in_w, out_w);
    vstd::arithmetic::div_mod::lemma_mod_bound(in_w, out_w);
    assert(out_w * x <= c * in_w);
    assert(out_w * rw <= in_w);
    assert(x + rw <= in_w) by (nonlinear_arith)
        requires
            out_w * x <= c * in_w,
            out_w * rw <= in_w,
            c < out_w,
            0 <= in_w,
            1 <= out_w,
    ;
}

/// Builds the `String` holding exactly the characters of `chars`, in order.
///
/// Relies on std's `FromIterator<char> for String`: collecting an iterator
/// of characters yields the string of those characters in order.
#[verifier::external_body]
fn chars_to_string(chars: &Vec<char>) -> (s: String)
    ensures
        s@ == chars@,
{
    chars.iter().collect()
}

/// Renders `input_img` as text art: an `out_height x out_width` grid of
/// glyphs from `palette`, one newline after each row.
///
/// Output cell (r, c) shows the average brightness of the source rectangle
/// whose top-left corner is (`cell_x`, `cell_y`) and whose size is
/// `cell_w x cell_h`; rows run top to bottom and columns left to right, so
/// cell (0, 0) samples the image's top-left corner.
pub fn textify_my_img(
    input_img: &SourceImage,
    out_width: u32,
    out_height: u32,
    palette: &Vec<char>,
) -> (text: String)
    requires
        input_img.wf(),
        input_img.width >= 1,
        input_img.height >= 1,
        out_width >= 1,
        out_height >= 1,
        palette@.len() >= 1,
        palette@.len() <= u32::MAX,
    ensures
        text@ == render_text(*input_img, out_width as int, out_height as int, palette@),
{
    let in_w = input_img.width;
    let in_h = input_img.height;
    let rw: u32 = in_w / out_width;
    let rh: u32 = in_h / out_height;
    let ghost target = render_text(*input_img, out_width as int, out_height as int, palette@);
    let ghost stride = out_width as int + 1;
    let mut out: Vec<char> = Vec::new();
    let mut r: u32 = 0;
    while r < out_height
        invariant
            input_img.wf(),
            input_img.width >= 1,
            input_img.height >= 1,
            out_width >= 1,
            out_height >= 1,
            palette@.len() >= 1,
            palette@.len() <= u32::MAX,
            in_w == input_img.width,
            in_h == input_img.height,
            rw as int == cell_w(in_w as int, out_width as int),
            rh as int == cell_h(in_h as int, out_height as int),
            target == render_text(*input_img, out_width as int, out_height as int, palette@),
            stride == out_width as int + 1,
            r <= out_height,
            out@.len() == r as int * stride,
            out@ =~= target.subrange(0, r as int * stride),
        decreases out_height - r,
    {
        proof {
            lemma_mul_inequality(r as int + 1, out_height as int, stride);
            lemma_mul_is_distributive_add_other_way(stride, r as int, 1);
        }
        let mut c: u32 = 0;
        while c < out_width
            invariant
                input_img.wf(),
                input_img.width >= 1,
                input_img.height >= 1,
                out_width >= 1,
                out_height >= 1,
                palette@.len() >= 1,
                palette@.len() <= u32::MAX,
                in_w == input_img.width,
                in_h == input_img.height,
                rw as int == cell_w(in_w as int, out_width as int),
                rh as int == cell_h(in_h as int, out_height as int),
                target == render_text(*input_img, out_width as int, out_height as int, palette@),
                stride == out_width as int + 1,
                r < out_height,
                c <= out_width,
                (r as int + 1) * stride <= out_height as int * stride,
                out@.len() == r as int * stride + c as int,
                out@ =~= target.subrange(0, r as int * stride + c as int),
            decreases out_width - c,
        {
            proof {
                lemma_mul_upper_bound(c as int, 0xffff_ffff, in_w as int, 0xffff_ffff);
                lemma_mul_upper_bound(r as int, 0xffff_ffff, in_h as int, 0xffff_ffff);
                lemma_cell_interval_fits(in_w as int, out_width as int, c as int);
                lemma_cell_interval_fits(in_h as int, out_height as int, r as int);
            }
            let x: u32 = (((c as u64) * (in_w as u64)) / (out_width as u64)) as u32;
            let y: u32 = (((r as u64) * (in_h as u64)) / (out_height as u64)) as u32;
            let region = Region { x, y, width: rw, height: rh };
            let b = get_image_brightness(input_img, region);
            let ch = get_character_from_brightness(b, palette);
            proof {
                let i = r as int * stride + c as int;
                lemma_mul_nonnegative(r as int, stride);
                lemma_mul_is_distributive_add_other_way(stride, r as int, 1);
                assert(0 <= i && i < out_height as int * stride);
                vstd::arithmetic::div_mod::lemma_fundamental_div_mod_converse(
                    i,
                    stride,
                    r as int,
                    c as int,
                );
                assert(x as int == cell_x(in_w as int, out_width as int, c as int));
                assert(y as int == cell_y(in_h as int, out_height as int, r as int));
                assert(b.numer as int == cell_luminance_sum(
                    *input_img,
                    out_width as int,
                    out_height as int,
                    r as int,
                    c as int,
                ));
                assert(b.count as int == cell_count(*input_img, out_width as int, out_height as int));
                assert(target[i] == ch);
                assert(target.subrange(0, i + 1) =~= target.subrange(0, i).push(target[i]));
            }
            out.push(ch);
            c = c + 1;
        }
        proof {
            let i = r as int * stride + out_width as int;
            vstd::arithmetic::div_mod::lemma_fundamental_div_mod_converse(
                i,
                stride,
                r as int,
                out_width as int,
            );
            assert(target[i] == '\n');
            assert(target.subrange(0, i + 1) =~= target.subrange(0, i).push(target[i]));
        }
        out.push('\n');
        r = r + 1;
    }
    proof {
        assert(target.subrange(0, out_height as int * stride) =~= target);
    }
    chars_to_string(&out)
}

/// The position of cell (r, c) within the rendered text: each of the
/// `out_w`-glyph rows is followed by one newline, so rows are `out_w + 1`
/// characters apart.  Offset `out_w` within a row is its newline.
pub open spec fn text_pos(out_w: int, r: int, c: int) -> int {
    r * (out_w + 1) + c
}

/// The rendered text consists of exactly `out_h` newline-terminated rows:
/// the character at `text_pos(out_w, r, c)` is the glyph of cell (r, c) —
/// and so a palette entry — for `c < out_w`, and the row's terminating
/// newline for `c == out_w`.
pub proof fn lemma_render_text_shape(img: SourceImage, out_w: int, out_h: int, palette: Seq<char>)
    requires
        1 <= out_w,
        1 <= out_h,
        1 <= palette.len(),
    ensures
        render_text(img, out_w, out_h, palette).len() == out_h * (out_w + 1),
        forall|r: int, c: int|
            0 <= r < out_h && 0 <= c < out_w ==> render_text(img, out_w, out_h, palette)[
                #[trigger] text_pos(out_w, r, c)
            ] == cell_char(img, out_w, out_h, palette, r, c),
        forall|r: int, c: int|
            0 <= r < out_h && 0 <= c < out_w ==> palette.contains(
                #[trigger] cell_char(img, out_w, out_h, palette, r, c),
            ),
        forall|r: int|
            0 <= r < out_h ==> render_text(img, out_w, out_h, palette)[text_pos(out_w, r, out_w)]
                == '\n',
{
    let text = render_text(img, out_w, out_h, palette);
    let stride = out_w + 1;
    lemma_mul_nonnegative(out_h, stride);
    assert forall|r: int, c: int| 0 <= r < out_h && 0 <= c <= out_w implies {
        &&& 0 <= #[trigger] text_pos(out_w, r, c) < out_h * stride
        &&& text_pos(out_w, r, c) / stride == r
        &&& text_pos(out_w, r, c) % stride == c
    } by {
        lemma_mul_nonnegative(r, stride);
        lemma_mul_is_distributive_add_other_way(stride, r, 1);
        lemma_mul_inequality(r + 1, out_h, stride);
        vstd::arithmetic::div_mod::lemma_fundamental_div_mod_converse(
            r * stride + c,
            stride,
            r,
            c,
        );
    }
    assert forall|r: int, c: int| 0 <= r < out_h && 0 <= c < out_w implies palette.contains(
        #[trigger] cell_char(img, out_w, out_h, palette, r, c),
    ) by {
        vstd::arithmetic::div_mod::lemma_div_pos_is_pos(img.width as int, out_w);
        vstd::arithmetic::div_mod::lemma_div_pos_is_pos(img.height as int, out_h);
        lemma_mul_nonnegative(cell_w(img.width as int, out_w), cell_h(img.height as int, out_h));
        lemma_rect_luminance_sum_bounds(
            img,
            cell_x(img.width as int, out_w, c),
            cell_y(img.height as int, out_h, r),
            cell_w(img.width as int, out_w),
            cell_h(img.height as int, out_h),
        );
        lemma_glyph_index_in_range(
            cell_luminance_sum(img, out_w, out_h, r, c),
            cell_count(img, out_w, out_h),
            palette.len() as int,
        );
        let j = glyph_index(
            cell_luminance_sum(img, out_w, out_h, r, c),
            cell_count(img, out_w, out_h),
            palette.len() as int,
        );
        assert(cell_char(img, out_w, out_h, palette, r, c) == palette[j]);
        assert(palette.contains(palette[j]));
    }
}

/// Rendering is deterministic: the text is a function of the image, the
/// output dimensions and the palette alone, so identical inputs give
/// identical output.
pub proof fn lemma_render_deterministic(
    img1: SourceImage,
    img2: SourceImage,
    out_w: int,
    out_h: int,
    palette1: Seq<char>,
    palette2: Seq<char>,
)
    requires
        img1 == img2,
        palette1 == palette2,
    ensures
        render_text(img1, out_w, out_h, palette1) == render_text(img2, out_w, out_h, palette2),
{
}

/// A row of all-black pixels sums to luminance 0, and a row of all-white
/// pixels to `w` times the white luminance.
proof fn lemma_uniform_row_sum(img: SourceImage, y: int, x0: int, w: int, p: Rgb)
    requires
        w >= 0,
        forall|x: int| x0 <= x < x0 + w ==> img.pixel_at(x, y) == p,
    ensures
        row_luminance_sum(img, y, x0, w) == w * pixel_luminance(p),
    decreases w,
{
    if w == 0 {
        assert(0 * pixel_luminance(p) == 0) by (nonlinear_arith);
    } else {
        lemma_uniform_row_sum(img, y, x0, w - 1, p);
        lemma_mul_is_distributive_add_other_way(pixel_luminance(p), w - 1, 1);
    }
}

/// A rectangle of pixels that all equal `p` sums to its area times the
/// luminance of `p`.  An all-black region therefore has brightness 0 and an
/// all-white region brightness 1 (luminance sum equal to the white luminance
/// times the pixel count).
pub proof fn lemma_uniform_rect_sum(img: SourceImage, x0: int, y0: int, w: int, h: int, p: Rgb)
    requires
        w >= 0,
        h >= 0,
        forall|x: int, y: int|
            x0 <= x < x0 + w && y0 <= y < y0 + h ==> img.pixel_at(x, y) == p,
    ensures
        rect_luminance_sum(img, x0, y0, w, h) == w * h * pixel_luminance(p),
    decreases h,
{
    if h == 0 {
        assert(w * 0 * pixel_luminance(p) == 0) by (nonlinear_arith);
    } else {
        lemma_uniform_rect_sum(img, x0, y0, w, h - 1, p);
        lemma_uniform_row_sum(img, y0 + h - 1, x0, w, p);
        assert(w * (h - 1) * pixel_luminance(p) + w * pixel_luminance(p) == w * h
            * pixel_luminance(p)) by (nonlinear_arith);
    }
}

/// A row's luminance sum is monotonic in its pixels' luminances.
proof fn lemma_row_sum_monotonic(img1: SourceImage, img2: SourceImage, y: int, x0: int, w: int)
    requires
        w >= 0,
        forall|x: int|
            x0 <= x < x0 + w ==> pixel_luminance(#[trigger] img1.pixel_at(x, y))
                <= pixel_luminance(img2.pixel_at(x, y)),
    ensures
        row_luminance_sum(img1, y, x0, w) <= row_luminance_sum(img2, y, x0, w),
    decreases w,
{
    if w > 0 {
        lemma_row_sum_monotonic(img1, img2, y, x0, w - 1);
    }
}

/// Brightness is monotonic in the pixels: when every pixel of a region in
/// one image is pointwise no brighter than the corresponding pixel in
/// another, the region's luminance sum — and with it the region's average
/// brightness over the shared pixel count — can only be smaller.
pub proof fn lemma_brightness_monotonic(
    img1: SourceImage,
    img2: SourceImage,
    x0: int,
    y0: int,
    w: int,
    h: int,
)
    requires
        w >= 0,
        h >= 0,
        forall|x: int, y: int|
            x0 <= x < x0 + w && y0 <= y < y0 + h ==> pixel_luminance(
                #[trigger] img1.pixel_at(x, y),
            ) <= pixel_luminance(img2.pixel_at(x, y)),
    ensures
        rect_luminance_sum(img1, x0, y0, w, h) <= rect_luminance_sum(img2, x0, y0, w, h),
    decreases h,
{
    if h > 0 {
        lemma_brightness_monotonic(img1, img2, x0, y0, w, h - 1);
        lemma_row_sum_monotonic(img1, img2, y0 + h - 1, x0, w);
    }
}

/// Brightness 0 selects the first glyph, and brightness 1 — a luminance sum
/// equal to the white luminance times a positive pixel count — selects the
/// last glyph.
pub proof fn lemma_glyph_mapping_extremes(count: int, k: int)
    requires
        count >= 0,
        k >= 1,
    ensures
        glyph_index(0, count, k) == 0,
        count > 0 ==> glyph_index(WHITE_LUMINANCE as int * count, count, k) == k - 1,
{
    if count > 0 {
        let den = WHITE_LUMINANCE as int * count;
        lemma_mul_strictly_positive(WHITE_LUMINANCE as int, count);
        assert(k * 0 == 0) by (nonlinear_arith);
        vstd::arithmetic::div_mod::lemma_div_of0(den);
        assert(k * den == den * k) by (nonlinear_arith);
        vstd::arithmetic::div_mod::lemma_div_multiples_vanish(k, den);
        assert(glyph_index(den, count, k) == k - 1);
    }
}

/// If `a * d <= b` with a positive divisor `d`, then `a <= b / d`.
proof fn lemma_le_div(a: int, b: int, d: int)
    requires
        d >= 1,
        a * d <= b,
    ensures
        a <= b / d,
{
    vstd::arithmetic::div_mod::lemma_fundamental_div_mod(b, d);
    vstd::arithmetic::div_mod::lemma_mod_bound(b, d);
    assert(a <= b / d) by (nonlinear_arith)
        requires
            a * d <= b,
            b == d * (b / d) + b % d,
            0 <= b % d && b % d < d,
            d >= 1,
    ;
}

/// Glyph mapping partitions brightness into `k` contiguous buckets of width
/// `1/k`: the chosen index `j` satisfies `j / k <= value`, and for every
/// bucket but the top one also `value < (j + 1) / k`, where
/// `value == numer / (WHITE_LUMINANCE * count)` (both inequalities are
/// stated multiplied out).
pub proof fn lemma_glyph_bucket(numer: int, count: int, k: int)
    requires
        count >= 1,
        k >= 1,
        0 <= numer,
        numer <= WHITE_LUMINANCE as int * count,
    ensures
        ({
            let j = glyph_index(numer, count, k);
            let den = WHITE_LUMINANCE as int * count;
            &&& j * den <= k * numer
            &&& (j < k - 1 ==> k * numer < (j + 1) * den)
        }),
{
    let den = WHITE_LUMINANCE as int * count;
    let q = (k * numer) / den;
    let j = glyph_index(numer, count, k);
    lemma_mul_strictly_positive(WHITE_LUMINANCE as int, count);
    lemma_mul_nonnegative(k, numer);
    vstd::arithmetic::div_mod::lemma_fundamental_div_mod(k * numer, den);
    vstd::arithmetic::div_mod::lemma_mod_bound(k * numer, den);
    assert(den * q <= k * numer && k * numer < den * (q + 1)) by (nonlinear_arith)
        requires
            k * numer == den * q + (k * numer) % den,
            0 <= (k * numer) % den && (k * numer) % den < den,
    ;
    if q >= k {
        // The value is exactly 1: `q` cannot exceed `k`, so the index is
        // clamped to the top bucket.
        assert(j == k - 1);
        assert(j * den <= k * numer) by (nonlinear_arith)
            requires
                den * q <= k * numer,
                q >= k,
                j == k - 1,
                den >= 1,
    ;
    } else {
        assert(j == q);
        assert(j * den <= k * numer && (j < k - 1 ==> k * numer < (j + 1) * den))
            by (nonlinear_arith)
            requires
                den * q <= k * numer,
                k * numer < den * (q + 1),
                j == q,
        ;
    }
}

/// Glyph mapping is monotonic: a region whose brightness value is at most
/// another's never maps to a later glyph.  The brightness comparison
/// `n1 / (WHITE_LUMINANCE * c1) <= n2 / (WHITE_LUMINANCE * c2)` is stated
/// multiplied out as `n1 * c2 <= n2 * c1`.
pub proof fn lemma_glyph_monotonic(n1: int, c1: int, n2: int, c2: int, k: int)
    requires
        k >= 1,
        c1 >= 1,
        c2 >= 1,
        n1 >= 0,
        n2 >= 0,
        n1 * c2 <= n2 * c1,
    ensures
        glyph_index(n1, c1, k) <= glyph_index(n2, c2, k),
{
    let l = WHITE_LUMINANCE as int;
    let den1 = l * c1;
    let den2 = l * c2;
    let q1 = (k * n1) / den1;
    let q2 = (k * n2) / den2;
    lemma_mul_strictly_positive(l, c1);
    lemma_mul_strictly_positive(l, c2);
    lemma_mul_nonnegative(k, n1);
    lemma_mul_nonnegative(k, n2);
    lemma_glyph_index_in_range(n1, c1, k);
    lemma_glyph_index_in_range(n2, c2, k);
    if q2 >= k {
        // The second index clamps to the top bucket, which no index exceeds.
        assert(glyph_index(n2, c2, k) == k - 1);
    } else {
        vstd::arithmetic::div_mod::lemma_fundamental_div_mod(k * n1, den1);
        vstd::arithmetic::div_mod::lemma_mod_bound(k * n1, den1);
        // q1 * den1 <= k * n1, so q1 * den1 * c2 <= k * n1 * c2
        //                                       <= k * n2 * c1 = (k * n2) * c1.
        assert(q1 * den2 <= k * n2) by (nonlinear_arith)
            requires
                k * n1 == den1 * q1 + (k * n1) % den1,
                0 <= (k * n1) % den1,
                n1 * c2 <= n2 * c1,
                den1 == l * c1,
                den2 == l * c2,
                c1 >= 1,
                c2 >= 1,
                l >= 1,
                k >= 1,
        ;
        lemma_le_div(q1, k * n2, den2);
        assert(q1 <= q2);
        assert(glyph_index(n1, c1, k) <= q1);
        assert(glyph_index(n2, c2, k) == q2);
    }
}

/// The zero-area policy: a sampling region whose width or height truncates
/// to zero contains no pixels, its luminance sum is 0, and it is rendered as
/// brightness 0 — the first palette glyph.  Nothing divides by the empty
/// pixel count.
pub proof fn lemma_zero_area_region(img: SourceImage, x0: int, y0: int, w: int, h: int, k: int)
    requires
        w >= 0,
        h >= 0,
        w == 0 || h == 0,
        k >= 1,
    ensures
        rect_luminance_sum(img, x0, y0, w, h) == 0,
        w * h == 0,
        glyph_index(rect_luminance_sum(img, x0, y0, w, h), w * h, k) == 0,
{
    lemma_uniform_rect_sum(img, x0, y0, w, h, Rgb { red: 0, green: 0, blue: 0 });
    assert(w * h * pixel_luminance(Rgb { red: 0, green: 0, blue: 0 }) == 0) by (nonlinear_arith)
        requires
            w == 0 || h == 0,
    ;
    assert(w * h == 0) by (nonlinear_arith)
        requires
            w == 0 || h == 0,
    ;
}

} // verus!
