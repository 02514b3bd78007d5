//! RGB color swatches: formatting, perceived brightness, and the verified
//! center-window channel average over a decoded pixel buffer.

use vstd::prelude::*;

use crate::hexcode::{hex_of, push_byte_hex};

verus! {

/// An RGB color swatch sampled from the center of an image.
#[derive(Clone, Copy, Debug, PartialEq, Eq, Structural)]
pub struct ColorSwatch {
    pub r: u8,
    pub g: u8,
    pub b: u8,
}

/// The neutral gray returned when no pixels could be sampled.
pub open spec fn spec_gray_swatch() -> ColorSwatch {
    ColorSwatch { r: 128, g: 128, b: 128 }
}

/// Perceived brightness as an integer: luminance weights 299/587/114 per
/// mille, rounded to the nearest integer.
pub open spec fn spec_brightness(r: u8, g: u8, b: u8) -> int {
    (299 * (r as int) + 587 * (g as int) + 114 * (b as int) + 500) / 1000
}

impl ColorSwatch {
    /// The swatch as a `#rrggbb` string with lowercase hexadecimal digits.
    pub fn to_hex(&self) -> (res: String)
        ensures
            res@ == "#"@ + hex_of(seq![self.r, self.g, self.b]),
    {
        let mut s = String::from_str("#");
        push_byte_hex(&mut s, self.r);
        push_byte_hex(&mut s, self.g);
        push_byte_hex(&mut s, self.b);
        proof {
            assert(s@ =~= "#"@ + hex_of(seq![self.r, self.g, self.b]));
        }
        s
    }

    /// Perceived brightness from weighted channel luminance.
    pub fn brightness(&self) -> (res: u8)
        ensures
            res as int == spec_brightness(self.r, self.g, self.b),
    {
        let weighted: u32 = 299 * (self.r as u32) + 587 * (self.g as u32) + 114 * (self.b as u32)
            + 500;
        let lum: u32 = weighted / 1000;
        proof {
            assert(weighted <= 255500);
            assert(weighted / 1000 <= 255) by (nonlinear_arith)
                requires
                    weighted <= 255500u32,
            ;
        }
        lum as u8
    }
}

/// Extent of the sampled center window along one dimension: a quarter of the
/// dimension, and at least one pixel.
pub open spec fn spec_sample_extent(d: u32) -> int {
    if d as int / 4 >= 1 {
        d as int / 4
    } else {
        1
    }
}

/// First sampled coordinate along one dimension.
pub open spec fn spec_win_start(d: u32) -> int {
    let center = d as int / 2;
    let half = spec_sample_extent(d) / 2;
    if center >= half {
        center - half
    } else {
        0
    }
}

/// One past the last sampled coordinate along one dimension, clamped to the
/// image bound.
pub open spec fn spec_win_end(d: u32) -> int {
    let e = spec_win_start(d) + spec_sample_extent(d);
    if e <= d as int {
        e
    } else {
        d as int
    }
}

/// Channel `c` of the pixel at `(x, y)` in a row-major RGB buffer of row
/// width `w`.
pub open spec fn spec_channel(px: Seq<u8>, w: int, x: int, y: int, c: int) -> int {
    px[3 * (y * w + x) + c] as int
}

/// Sum of channel `c` over row `y`, columns `[x0, x1)`.
pub open spec fn spec_row_sum(px: Seq<u8>, w: int, y: int, x0: int, x1: int, c: int) -> int
    decreases x1 - x0,
{
    if x0 >= x1 {
        0
    } else {
        spec_channel(px, w, x0, y, c) + spec_row_sum(px, w, y, x0 + 1, x1, c)
    }
}

/// Sum of channel `c` over rows `[y0, y1)`, columns `[x0, x1)`.
pub open spec fn spec_window_sum(
    px: Seq<u8>,
    w: int,
    y0: int,
    y1: int,
    x0: int,
    x1: int,
    c: int,
) -> int
    decreases y1 - y0,
{
    if y0 >= y1 {
        0
    } else {
        spec_row_sum(px, w, y0, x0, x1, c) + spec_window_sum(px, w, y0 + 1, y1, x0, x1, c)
    }
}

proof fn lemma_row_sum_extend(px: Seq<u8>, w: int, y: int, x0: int, x: int, c: int)
    requires
        x0 <= x,
    ensures
        spec_row_sum(px, w, y, x0, x + 1, c) == spec_row_sum(px, w, y, x0, x, c) + spec_channel(
            px,
            w,
            x,
            y,
            c,
        ),
    decreases x - x0,
{
    if x0 == x {
        assert(spec_row_sum(px, w, y, x0, x + 1, c) == spec_channel(px, w, x0, y, c)
            + spec_row_sum(px, w, y, x0 + 1, x + 1, c));
        assert(spec_row_sum(px, w, y, x0 + 1, x + 1, c) == 0);
        assert(spec_row_sum(px, w, y, x0, x, c) == 0);
    } else {
        lemma_row_sum_extend(px, w, y, x0 + 1, x, c);
        assert(spec_row_sum(px, w, y, x0, x + 1, c) == spec_channel(px, w, x0, y, c)
            + spec_row_sum(px, w, y, x0 + 1, x + 1, c));
        assert(spec_row_sum(px, w, y, x0, x, c) == spec_channel(px, w, x0, y, c) + spec_row_sum(
            px,
            w,
            y,
            x0 + 1,
            x,
            c,
        ));
    }
}

proof fn lemma_window_sum_extend(px: Seq<u8>, w: int, y0: int, y: int, x0: int, x1: int, c: int)
    requires
        y0 <= y,
    ensures
        spec_window_sum(px, w, y0, y + 1, x0, x1, c) == spec_window_sum(px, w, y0, y, x0, x1, c)
            + spec_row_sum(px, w, y, x0, x1, c),
    decreases y - y0,
{
    if y0 == y {
        assert(spec_window_sum(px, w, y0, y + 1, x0, x1, c) == spec_row_sum(px, w, y0, x0, x1, c)
            + spec_window_sum(px, w, y0 + 1, y + 1, x0, x1, c));
        assert(spec_window_sum(px, w, y0 + 1, y + 1, x0, x1, c) == 0);
        assert(spec_window_sum(px, w, y0, y, x0, x1, c) == 0);
    } else {
        lemma_window_sum_extend(px, w, y0 + 1, y, x0, x1, c);
        assert(spec_window_sum(px, w, y0, y + 1, x0, x1, c) == spec_row_sum(px, w, y0, x0, x1, c)
            + spec_window_sum(px, w, y0 + 1, y + 1, x0, x1, c));
        assert(spec_window_sum(px, w, y0, y, x0, x1, c) == spec_row_sum(px, w, y0, x0, x1, c)
            + spec_window_sum(px, w, y0 + 1, y, x0, x1, c));
    }
}

/// Extent of the sampled window along one dimension, as executable code.
fn sample_extent(d: u32) -> (r: u32)
    ensures
        r as int == spec_sample_extent(d),
{
    let quarter = d / 4;
    if quarter >= 1 {
        quarter
    } else {
        1
    }
}

/// Start and end of the sampled window along one dimension.
fn window_bounds(d: u32) -> (r: (u32, u32))
    ensures
        r.0 as int == spec_win_start(d),
        r.1 as int == spec_win_end(d),
        r.0 <= r.1 <= d || (d == 0 && r.0 == 0 && r.1 == 0),
{
    let center = d / 2;
    let extent = sample_extent(d);
    let half = extent / 2;
    let start = if center >= half {
        center - half
    } else {
        0
    };
    let unclamped = start as u64 + extent as u64;
    let end = if unclamped <= d as u64 {
        start + extent
    } else {
        d
    };
    (start, end)
}

/// The swatch of a row-major RGB pixel buffer: the channel means over the
/// centered quarter-by-quarter window, clamped to at least one pixel and to
/// the image bounds; a window with no pixels yields the neutral gray.
pub open spec fn spec_swatch_of(width: u32, height: u32, px: Seq<u8>) -> ColorSwatch {
    let x0 = spec_win_start(width);
    let x1 = spec_win_end(width);
    let y0 = spec_win_start(height);
    let y1 = spec_win_end(height);
    let count = (x1 - x0) * (y1 - y0);
    if count == 0 {
        spec_gray_swatch()
    } else {
        ColorSwatch {
            r: (spec_window_sum(px, width as int, y0, y1, x0, x1, 0) / count) as u8,
            g: (spec_window_sum(px, width as int, y0, y1, x0, x1, 1) / count) as u8,
            b: (spec_window_sum(px, width as int, y0, y1, x0, x1, 2) / count) as u8,
        }
    }
}

/// Averages the three channels of a row-major RGB pixel buffer over the
/// centered quarter-by-quarter window, clamped to at least one pixel and to
/// the image bounds; a window with no pixels yields the neutral gray.
pub fn swatch_of_pixels(width: u32, height: u32, pixels: &Vec<u8>) -> (res: ColorSwatch)
    requires
        pixels@.len() >= 3 * (width as int) * (height as int),
    ensures
        res == spec_swatch_of(width, height, pixels@),
{
    let (start_x, end_x) = window_bounds(width);
    let (start_y, end_y) = window_bounds(height);
    let buf_len = pixels.len();

    let ghost w = width as int;
    let ghost x0 = start_x as int;
    let ghost x1 = end_x as int;
    let ghost y0 = start_y as int;
    let ghost y1 = end_y as int;

    let mut total_r: u128 = 0;
    let mut total_g: u128 = 0;
    let mut total_b: u128 = 0;
    let mut pixel_count: u128 = 0;

    let ghost area = (width as u128) * (height as u128);
    proof {
        assert((width as u128) * (height as u128) < 0x10000000000000000u128) by (nonlinear_arith)
            requires
                width <= 0xffffffffu32 && height <= 0xffffffffu32,
        ;
    }

    let mut y = start_y;
    while y < end_y
        invariant
            start_y <= y <= end_y,
            end_x <= width,
            end_y <= height,
            start_x <= end_x,
            pixels@.len() >= 3 * (width as int) * (height as int),
            pixels@.len() <= usize::MAX,
            x0 == start_x as int && x1 == end_x as int && y0 == start_y as int && y1 == end_y
                as int && w == width as int,
            area == (width as u128) * (height as u128) && area < 0x10000000000000000u128,
            pixel_count as int == (y as int - y0) * (x1 - x0),
            total_r as int == spec_window_sum(pixels@, w, y0, y as int, x0, x1, 0),
            total_g as int == spec_window_sum(pixels@, w, y0, y as int, x0, x1, 1),
            total_b as int == spec_window_sum(pixels@, w, y0, y as int, x0, x1, 2),
            total_r <= 255 * pixel_count,
            total_g <= 255 * pixel_count,
            total_b <= 255 * pixel_count,
            pixel_count <= area,
        decreases end_y - y,
    {
        proof {
            assert((y as int - y0) * (x1 - x0) <= (width as u128) * (height as u128))
                by (nonlinear_arith)
                requires
                    0 <= y0 <= y as int,
                    y as int <= height as int,
                    0 <= x0 <= x1 <= width as int,
            ;
        }
        let mut x = start_x;
        while x < end_x
            invariant
                start_y <= y < end_y,
                start_x <= x <= end_x,
                end_x <= width,
                end_y <= height,
                pixels@.len() >= 3 * (width as int) * (height as int),
                pixels@.len() <= usize::MAX,
                x0 == start_x as int && x1 == end_x as int && y0 == start_y as int && y1 == end_y
                    as int && w == width as int,
                area == (width as u128) * (height as u128) && area < 0x10000000000000000u128,
                pixel_count as int == (y as int - y0) * (x1 - x0) + (x as int - x0),
                total_r as int == spec_window_sum(pixels@, w, y0, y as int, x0, x1, 0)
                    + spec_row_sum(pixels@, w, y as int, x0, x as int, 0),
                total_g as int == spec_window_sum(pixels@, w, y0, y as int, x0, x1, 1)
                    + spec_row_sum(pixels@, w, y as int, x0, x as int, 1),
                total_b as int == spec_window_sum(pixels@, w, y0, y as int, x0, x1, 2)
                    + spec_row_sum(pixels@, w, y as int, x0, x as int, 2),
                total_r <= 255 * pixel_count,
                total_g <= 255 * pixel_count,
                total_b <= 255 * pixel_count,
                pixel_count <= area,
            decreases end_x - x,
        {
            proof {
                assert((y as int) * w + (x as int) < w * (height as int) && (y as int) * w >= 0)
                    by (nonlinear_arith)
                    requires
                        0 <= y as int,
                        (y as int) < height as int,
                        0 <= x as int,
                        (x as int) < w,
                        w == width as int,
                ;
                assert(3 * (width as int) * (height as int) == 3 * (w * (height as int)))
                    by (nonlinear_arith)
                    requires
                        w == width as int,
                ;
                assert(3 * ((y as int) * w + (x as int)) + 2 < 3 * (w * (height as int)));
                assert(255 * pixel_count <= 255 * area) by (nonlinear_arith)
                    requires
                        pixel_count <= area,
                ;
                // one more pixel still fits the window product
                assert((y as int - y0) * (x1 - x0) + (x as int + 1 - x0) <= (y as int + 1 - y0) * (
                x1 - x0)) by (nonlinear_arith)
                    requires
                        y0 <= y as int,
                        x0 <= x as int,
                        x as int + 1 <= x1,
                ;
                assert((y as int + 1 - y0) * (x1 - x0) <= (width as u128) * (height as u128))
                    by (nonlinear_arith)
                    requires
                        0 <= y0 <= y as int,
                        (y as int) < y1 <= height as int,
                        0 <= x0 <= x1 <= width as int,
                ;
            }
            let base: usize = 3 * ((y as usize) * (width as usize) + (x as usize));
            let pr = pixels[base];
            let pg = pixels[base + 1];
            let pb = pixels[base + 2];
            total_r = total_r + pr as u128;
            total_g = total_g + pg as u128;
            total_b = total_b + pb as u128;
            pixel_count = pixel_count + 1;
            proof {
                lemma_row_sum_extend(pixels@, w, y as int, x0, x as int, 0);
                lemma_row_sum_extend(pixels@, w, y as int, x0, x as int, 1);
                lemma_row_sum_extend(pixels@, w, y as int, x0, x as int, 2);
            }
            x = x + 1;
        }
        proof {
            lemma_window_sum_extend(pixels@, w, y0, y as int, x0, x1, 0);
            lemma_window_sum_extend(pixels@, w, y0, y as int, x0, x1, 1);
            lemma_window_sum_extend(pixels@, w, y0, y as int, x0, x1, 2);
            assert((y as int + 1 - y0) * (x1 - x0) == (y as int - y0) * (x1 - x0) + (x1 - x0))
                by (nonlinear_arith);
        }
        y = y + 1;
    }

    if pixel_count == 0 {
        proof {
            assert((y1 - y0) * (x1 - x0) == 0 ==> (x1 - x0) * (y1 - y0) == 0) by (nonlinear_arith);
        }
        ColorSwatch { r: 128, g: 128, b: 128 }
    } else {
        let avg_r = total_r / pixel_count;
        let avg_g = total_g / pixel_count;
        let avg_b = total_b / pixel_count;
        proof {
            assert(avg_r <= 255 && avg_g <= 255 && avg_b <= 255) by (nonlinear_arith)
                requires
                    pixel_count > 0,
                    total_r <= 255 * pixel_count,
                    total_g <= 255 * pixel_count,
                    total_b <= 255 * pixel_count,
                    avg_r == total_r / pixel_count,
                    avg_g == total_g / pixel_count,
                    avg_b == total_b / pixel_count,
            ;
            assert((x1 - x0) * (y1 - y0) == (y1 - y0) * (x1 - x0)) by (nonlinear_arith);
        }
        ColorSwatch { r: avg_r as u8, g: avg_g as u8, b: avg_b as u8 }
    }
}

} // verus!
