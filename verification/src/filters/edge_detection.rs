//! Sobel edge detection on the grayscale luminance.
use vstd::prelude::*;

use super::{lemma_grid_bound, lemma_grid_index, lemma_grid_split, Filter, FilterError};
use crate::images::bitmap::Bitmap;
use crate::images::{gray_value, RGB};

verus! {

/// Marks edges: the image is converted to grayscale, the Sobel gradients
/// are taken on the luminance with replicate-edge padding, and each pixel
/// becomes the L1 gradient magnitude (grayscale mode) or pure white
/// (mask mode) where the magnitude exceeds the threshold, black
/// elsewhere.
pub struct EdgeDetection {
    /// Whether edge pixels keep their magnitude instead of becoming 255.
    pub gray_scale: bool,
    /// The threshold a magnitude must exceed to count as an edge.
    pub limit: u8,
}

impl EdgeDetection {
    /// Grayscale mode with threshold 0.
    pub fn grayscale() -> (r: EdgeDetection)
        ensures
            r.gray_scale,
            r.limit == 0,
    {
        EdgeDetection { gray_scale: true, limit: 0 }
    }

    /// Mask mode with the given threshold.
    pub fn limit(value: u8) -> (r: EdgeDetection)
        ensures
            !r.gray_scale,
            r.limit == value,
    {
        EdgeDetection { gray_scale: false, limit: value }
    }

    /// Grayscale mode with the given threshold.
    pub fn grayscale_with_limit(value: u8) -> (r: EdgeDetection)
        ensures
            r.gray_scale,
            r.limit == value,
    {
        EdgeDetection { gray_scale: true, limit: value }
    }
}

impl Default for EdgeDetection {
    /// The default detection is mask mode with threshold 150.
    fn default() -> (r: EdgeDetection)
        ensures
            !r.gray_scale,
            r.limit == 150,
    {
        EdgeDetection { gray_scale: false, limit: 150 }
    }
}

/// `v` clipped into `[lo, hi]`.
pub open spec fn eclamp(v: int, lo: int, hi: int) -> int {
    if v < lo {
        lo
    } else if v > hi {
        hi
    } else {
        v
    }
}

/// The luminance of the neighbour at offset `(dy, dx)` from `(y, x)`,
/// with each coordinate clipped to the image (replicate-edge padding).
pub open spec fn neighbor_lum(s: Seq<RGB>, w: int, h: int, y: int, x: int, dy: int, dx: int) -> int {
    gray_value(s[eclamp(y + dy, 0, h - 1) * w + eclamp(x + dx, 0, w - 1)])
}

/// The horizontal Sobel gradient at `(y, x)`: kernel
/// `[-1, 0, 1; -2, 0, 2; -1, 0, 1]` applied to the luminance.
pub open spec fn gradient_x(s: Seq<RGB>, w: int, h: int, y: int, x: int) -> int {
    -neighbor_lum(s, w, h, y, x, -1, -1) - 2 * neighbor_lum(s, w, h, y, x, 0, -1) - neighbor_lum(
        s,
        w,
        h,
        y,
        x,
        1,
        -1,
    ) + neighbor_lum(s, w, h, y, x, -1, 1) + 2 * neighbor_lum(s, w, h, y, x, 0, 1) + neighbor_lum(
        s,
        w,
        h,
        y,
        x,
        1,
        1,
    )
}

/// The vertical Sobel gradient at `(y, x)`: the transposed kernel
/// `[-1, -2, -1; 0, 0, 0; 1, 2, 1]` applied to the luminance.
pub open spec fn gradient_y(s: Seq<RGB>, w: int, h: int, y: int, x: int) -> int {
    -neighbor_lum(s, w, h, y, x, -1, -1) - 2 * neighbor_lum(s, w, h, y, x, -1, 0) - neighbor_lum(
        s,
        w,
        h,
        y,
        x,
        -1,
        1,
    ) + neighbor_lum(s, w, h, y, x, 1, -1) + 2 * neighbor_lum(s, w, h, y, x, 1, 0) + neighbor_lum(
        s,
        w,
        h,
        y,
        x,
        1,
        1,
    )
}

/// The magnitude of a value.
pub open spec fn abs_val(v: int) -> int {
    if v < 0 {
        -v
    } else {
        v
    }
}

/// The L1 gradient magnitude, clipped at 255.
pub open spec fn magnitude(s: Seq<RGB>, w: int, h: int, y: int, x: int) -> int {
    let m = abs_val(gradient_x(s, w, h, y, x)) + abs_val(gradient_y(s, w, h, y, x));
    if m > 255 {
        255
    } else {
        m
    }
}

/// The detected pixel at flat index `i`: its three colour channels are
/// the thresholded magnitude, its alpha is the original pixel's.
pub open spec fn edge_pixel(
    s: Seq<RGB>,
    w: int,
    h: int,
    gray_mode: bool,
    limit: int,
    i: int,
) -> RGB {
    let m = magnitude(s, w, h, i / w, i % w);
    let v: u8 = if m > limit {
        if gray_mode {
            m as u8
        } else {
            255u8
        }
    } else {
        0u8
    };
    RGB { red: v, green: v, blue: v, alpha: s[i].alpha }
}

/// The detected pixel sequence.
pub open spec fn edge_map(s: Seq<RGB>, w: int, h: int, gray_mode: bool, limit: int) -> Seq<RGB> {
    Seq::new(s.len(), |i: int| edge_pixel(s, w, h, gray_mode, limit, i))
}

/// Edge detection on a uniform-colour image is all zero whatever the
/// threshold: the gradient vanishes everywhere.
pub proof fn lemma_edge_uniform(s: Seq<RGB>, w: int, h: int, gray_mode: bool, limit: int, p: RGB)
    requires
        0 <= w,
        0 <= h,
        0 <= limit,
        s.len() == w * h,
        forall|j: int| 0 <= j < s.len() ==> s[j] == p,
    ensures
        edge_map(s, w, h, gray_mode, limit) == Seq::new(
            s.len(),
            |i: int| RGB { red: 0, green: 0, blue: 0, alpha: p.alpha },
        ),
{
    let target = Seq::new(s.len(), |i: int| RGB { red: 0, green: 0, blue: 0, alpha: p.alpha });
    if w == 0 {
        vstd::arithmetic::mul::lemma_mul_by_zero_is_zero(h);
        assert(edge_map(s, w, h, gray_mode, limit) =~= target);
    } else {
        assert forall|i: int| 0 <= i < s.len() implies edge_map(s, w, h, gray_mode, limit)[i]
            == target[i] by {
            lemma_grid_split(i, w, h);
            let y = i / w;
            let x = i % w;
            assert forall|dy: int, dx: int|
                -1 <= dy <= 1 && -1 <= dx <= 1 implies #[trigger] neighbor_lum(
                s,
                w,
                h,
                y,
                x,
                dy,
                dx,
            ) == gray_value(p) by {
                lemma_grid_bound(eclamp(y + dy, 0, h - 1), eclamp(x + dx, 0, w - 1), w, h);
            }
            assert(gradient_x(s, w, h, y, x) == 0);
            assert(gradient_y(s, w, h, y, x) == 0);
            assert(magnitude(s, w, h, y, x) == 0);
        }
        assert(edge_map(s, w, h, gray_mode, limit) =~= target);
    }
}

/// Clips a flat index into the span of row `row_index`, whose cells
/// occupy indices `row_size * row_index` up to one below
/// `row_size * (row_index + 1)`.
pub fn clamp_index_in_row(row_size: usize, row_index: usize, index: usize) -> (r: usize)
    requires
        1 <= row_size,
        (row_index + 1) * row_size <= usize::MAX,
    ensures
        r == eclamp(
            index as int,
            row_size * row_index,
            row_size * row_index + row_size - 1,
        ),
{
    proof {
        vstd::arithmetic::mul::lemma_mul_is_distributive_add_other_way(
            row_size as int,
            row_index as int,
            1,
        );
        vstd::arithmetic::mul::lemma_mul_basics(row_size as int);
        vstd::arithmetic::mul::lemma_mul_nonnegative(row_index as int, row_size as int);
        vstd::arithmetic::mul::lemma_mul_is_commutative(row_index as int, row_size as int);
    }
    let row_start: usize = row_size * row_index;
    let row_end: usize = row_start + row_size - 1;
    if index < row_start {
        row_start
    } else if index > row_end {
        row_end
    } else {
        index
    }
}

/// The flat index of the clipped neighbour at offset `(dy, dx)` from
/// `(y, x)`.
fn neighbor_index(w: usize, h: usize, y: usize, x: usize, dy: i8, dx: i8) -> (r: usize)
    requires
        1 <= w,
        1 <= h,
        y < h,
        x < w,
        -1 <= dy <= 1,
        -1 <= dx <= 1,
        w * h <= usize::MAX,
    ensures
        r == eclamp(y + dy, 0, h - 1) * w + eclamp(x + dx, 0, w - 1),
        r < w * h,
{
    let ny: usize = if dy < 0 {
        if y == 0 {
            0
        } else {
            y - 1
        }
    } else if dy > 0 {
        if y + 1 >= h {
            h - 1
        } else {
            y + 1
        }
    } else {
        y
    };
    proof {
        assert(ny == eclamp(y + dy, 0, h - 1));
        vstd::arithmetic::mul::lemma_mul_inequality(ny as int + 1, h as int, w as int);
        lemma_grid_bound(ny as int, x as int, w as int, h as int);
    }
    let base: usize = ny * w + x;
    let target: usize = if dx < 0 {
        if base == 0 {
            0
        } else {
            base - 1
        }
    } else if dx > 0 {
        base + 1
    } else {
        base
    };
    let r = clamp_index_in_row(w, ny, target);
    proof {
        vstd::arithmetic::mul::lemma_mul_is_commutative(ny as int, w as int);
        assert(r == eclamp(y + dy, 0, h - 1) * w + eclamp(x + dx, 0, w - 1));
        lemma_grid_bound(ny as int, eclamp(x + dx, 0, w as int - 1), w as int, h as int);
    }
    r
}

impl Filter for EdgeDetection {
    open spec fn valid_for(&self, image: &Bitmap) -> bool {
        true
    }

    open spec fn output(&self, pixels: Seq<RGB>, width: int, height: int) -> Seq<RGB> {
        edge_map(pixels, width, height, self.gray_scale, self.limit as int)
    }

    #[verifier::rlimit(100)]
    fn apply(&self, image: &mut Bitmap) -> (r: Result<(), FilterError>) {
        let w: usize = image.widht();
        let h: usize = image.height();
        let ghost s: Seq<RGB> = old(image).pixel_seq();
        let ghost out_spec: Seq<RGB> = edge_map(
            s,
            w as int,
            h as int,
            self.gray_scale,
            self.limit as int,
        );
        let n: usize = image.surface.pixels.len();
        // Luminance of every pixel, computed up front so that each
        // pixel's gradient reads the original image, never partial
        // results.
        let mut lums: Vec<u8> = Vec::new();
        for j in 0..n
            invariant
                old(image).wf(),
                *image == *old(image),
                s == image.pixel_seq(),
                n == s.len(),
                lums@.len() == j,
                forall|k: int| 0 <= k < j ==> lums@[k] == gray_value(s[k]),
        {
            let p: RGB = image.surface.pixels[j];
            lums.push(p.grayscale().red);
        }
        let mut out: Vec<RGB> = Vec::new();
        if w > 0 {
            proof {
                vstd::arithmetic::mul::lemma_mul_basics(w as int);
            }
            for y in 0..h
                invariant
                    old(image).wf(),
                    *image == *old(image),
                    s == image.pixel_seq(),
                    w == image.width_px(),
                    h == image.height_px(),
                    1 <= w,
                    out_spec == edge_map(s, w as int, h as int, self.gray_scale, self.limit as int),
                    n == s.len(),
                    s.len() == w * h,
                    lums@.len() == n,
                    forall|k: int| 0 <= k < n ==> lums@[k] == gray_value(s[k]),
                    out@.len() == y * w,
                    forall|j: int| 0 <= j < out@.len() ==> out@[j] == out_spec[j],
                    forall|j: int|
                        0 <= j < out@.len() ==> ((#[trigger] out@[j].alpha) is Some
                            <==> image.surface.alpha_channel),
            {
                for x in 0..w
                    invariant
                        old(image).wf(),
                        *image == *old(image),
                        s == image.pixel_seq(),
                        w == image.width_px(),
                        h == image.height_px(),
                        1 <= w,
                        y < h,
                        out_spec == edge_map(
                            s,
                            w as int,
                            h as int,
                            self.gray_scale,
                            self.limit as int,
                        ),
                        n == s.len(),
                        s.len() == w * h,
                        lums@.len() == n,
                        forall|k: int| 0 <= k < n ==> lums@[k] == gray_value(s[k]),
                        out@.len() == y * w + x,
                        forall|j: int| 0 <= j < out@.len() ==> out@[j] == out_spec[j],
                        forall|j: int|
                            0 <= j < out@.len() ==> ((#[trigger] out@[j].alpha) is Some
                                <==> image.surface.alpha_channel),
                {
                    let up_left: i32 = lums[neighbor_index(w, h, y, x, -1, -1)] as i32;
                    let up: i32 = lums[neighbor_index(w, h, y, x, -1, 0)] as i32;
                    let up_right: i32 = lums[neighbor_index(w, h, y, x, -1, 1)] as i32;
                    let left: i32 = lums[neighbor_index(w, h, y, x, 0, -1)] as i32;
                    let right: i32 = lums[neighbor_index(w, h, y, x, 0, 1)] as i32;
                    let down_left: i32 = lums[neighbor_index(w, h, y, x, 1, -1)] as i32;
                    let down: i32 = lums[neighbor_index(w, h, y, x, 1, 0)] as i32;
                    let down_right: i32 = lums[neighbor_index(w, h, y, x, 1, 1)] as i32;
                    let gx: i32 = -up_left - 2 * left - down_left + up_right + 2 * right
                        + down_right;
                    let gy: i32 = -up_left - 2 * up - up_right + down_left + 2 * down
                        + down_right;
                    let ax: i32 = if gx < 0 {
                        -gx
                    } else {
                        gx
                    };
                    let ay: i32 = if gy < 0 {
                        -gy
                    } else {
                        gy
                    };
                    let sum: i32 = ax + ay;
                    let m: u8 = if sum > 255 {
                        255
                    } else {
                        sum as u8
                    };
                    let v: u8 = if m > self.limit {
                        if self.gray_scale {
                            m
                        } else {
                            255
                        }
                    } else {
                        0
                    };
                    proof {
                        lemma_grid_bound(y as int, x as int, w as int, h as int);
                        lemma_grid_index(
                            y as int * w as int + x as int,
                            y as int,
                            x as int,
                            w as int,
                        );
                        assert(gx == gradient_x(s, w as int, h as int, y as int, x as int));
                        assert(gy == gradient_y(s, w as int, h as int, y as int, x as int));
                        assert(m == magnitude(s, w as int, h as int, y as int, x as int));
                    }
                    let i: usize = y * w + x;
                    let p_old: RGB = image.surface.pixels[i];
                    let p = RGB { red: v, green: v, blue: v, alpha: p_old.alpha };
                    proof {
                        assert(p == out_spec[i as int]);
                    }
                    out.push(p);
                }
                proof {
                    vstd::arithmetic::mul::lemma_mul_is_distributive_add_other_way(
                        w as int,
                        y as int,
                        1,
                    );
                }
            }
        } else {
            proof {
                vstd::arithmetic::mul::lemma_mul_by_zero_is_zero(h as int);
            }
        }
        proof {
            vstd::arithmetic::mul::lemma_mul_is_commutative(w as int, h as int);
            assert(out@ =~= out_spec);
        }
        image.surface.pixels = out;
        proof {
            assert(image.wf());
        }
        Ok(())
    }
}

} // verus!
