//! Box blur: each colour channel averaged over a square window.
use vstd::prelude::*;

use super::{lemma_grid_bound, lemma_grid_index, lemma_grid_split, Filter, FilterError};
use crate::images::bitmap::Bitmap;
use crate::images::RGB;

verus! {

/// Averages every pixel's colour channels over the square window of side
/// `2 * radius + 1` centred on it, clipped to the image: cells outside
/// the image are excluded from both sum and count.  Radius 0 is the
/// identity.  Alpha is preserved.
pub struct BoxBlur(pub usize);

impl Default for BoxBlur {
    /// The default blur has radius 1.
    fn default() -> (r: BoxBlur)
        ensures
            r.0 == 1,
    {
        BoxBlur(1)
    }
}

/// Colour channel `k` of a pixel as an integer: 0 red, 1 green, 2 blue.
pub open spec fn channel(p: RGB, k: int) -> int {
    if k == 0 {
        p.red as int
    } else if k == 1 {
        p.green as int
    } else {
        p.blue as int
    }
}

/// The first row or column of the window centred at `x`: `x - r`,
/// clipped at 0.
pub open spec fn window_lo(x: int, r: int) -> int {
    if x - r > 0 {
        x - r
    } else {
        0
    }
}

/// One past the last row or column of the window centred at `x`:
/// `x + r + 1`, clipped at the image dimension `n`.
pub open spec fn window_hi(x: int, r: int, n: int) -> int {
    if x + r + 1 < n {
        x + r + 1
    } else {
        n
    }
}

/// Sum of channel `k` over columns `[c0, c1)` of row `row`.
pub open spec fn row_sum(s: Seq<RGB>, w: int, row: int, c0: int, c1: int, k: int) -> int
    decreases c1 - c0,
{
    if c1 <= c0 {
        0
    } else {
        channel(s[row * w + c0], k) + row_sum(s, w, row, c0 + 1, c1, k)
    }
}

/// Sum of channel `k` over the rectangle of rows `[r0, r1)` and columns
/// `[c0, c1)`.
pub open spec fn rect_sum(s: Seq<RGB>, w: int, r0: int, r1: int, c0: int, c1: int, k: int) -> int
    decreases r1 - r0,
{
    if r1 <= r0 {
        0
    } else {
        row_sum(s, w, r0, c0, c1, k) + rect_sum(s, w, r0 + 1, r1, c0, c1, k)
    }
}

/// The number of image cells inside the window centred at `(y, x)`.
pub open spec fn window_count(w: int, h: int, r: int, y: int, x: int) -> int {
    (window_hi(y, r, h) - window_lo(y, r)) * (window_hi(x, r, w) - window_lo(x, r))
}

/// Sum of channel `k` over the window centred at `(y, x)`.
pub open spec fn window_sum(s: Seq<RGB>, w: int, h: int, r: int, y: int, x: int, k: int) -> int {
    rect_sum(s, w, window_lo(y, r), window_hi(y, r, h), window_lo(x, r), window_hi(x, r, w), k)
}

/// The blurred pixel at flat index `i`: each colour channel the floor of
/// the mean over the window, alpha taken from the original pixel.
pub open spec fn blur_pixel(s: Seq<RGB>, w: int, h: int, r: int, i: int) -> RGB {
    let y = i / w;
    let x = i % w;
    let cnt = window_count(w, h, r, y, x);
    RGB {
        red: (window_sum(s, w, h, r, y, x, 0) / cnt) as u8,
        green: (window_sum(s, w, h, r, y, x, 1) / cnt) as u8,
        blue: (window_sum(s, w, h, r, y, x, 2) / cnt) as u8,
        alpha: s[i].alpha,
    }
}

/// The blurred pixel sequence.
pub open spec fn blurred(s: Seq<RGB>, w: int, h: int, r: int) -> Seq<RGB> {
    Seq::new(s.len(), |i: int| blur_pixel(s, w, h, r, i))
}

/// A row sum grows by the channel of the cell appended on the right.
proof fn lemma_row_sum_extend(s: Seq<RGB>, w: int, row: int, c0: int, c1: int, k: int)
    requires
        c0 <= c1,
    ensures
        row_sum(s, w, row, c0, c1 + 1, k) == row_sum(s, w, row, c0, c1, k) + channel(
            s[row * w + c1],
            k,
        ),
    decreases c1 - c0,
{
    if c1 <= c0 {
        assert(row_sum(s, w, row, c0 + 1, c1 + 1, k) == 0);
    } else {
        lemma_row_sum_extend(s, w, row, c0 + 1, c1, k);
    }
}

/// A rectangle sum grows by the row sum of the row appended below.
proof fn lemma_rect_sum_extend(s: Seq<RGB>, w: int, r0: int, r1: int, c0: int, c1: int, k: int)
    requires
        r0 <= r1,
    ensures
        rect_sum(s, w, r0, r1 + 1, c0, c1, k) == rect_sum(s, w, r0, r1, c0, c1, k) + row_sum(
            s,
            w,
            r1,
            c0,
            c1,
            k,
        ),
    decreases r1 - r0,
{
    if r1 <= r0 {
        assert(rect_sum(s, w, r0 + 1, r1 + 1, c0, c1, k) == 0);
    } else {
        lemma_rect_sum_extend(s, w, r0 + 1, r1, c0, c1, k);
    }
}

/// A row sum of `m` cells lies between 0 and `255 * m`.
proof fn lemma_row_sum_bound(s: Seq<RGB>, w: int, row: int, c0: int, c1: int, k: int)
    ensures
        0 <= row_sum(s, w, row, c0, c1, k),
        row_sum(s, w, row, c0, c1, k) <= 255 * (if c1 >= c0 {
            c1 - c0
        } else {
            0
        }),
    decreases c1 - c0,
{
    if c1 <= c0 {
    } else {
        lemma_row_sum_bound(s, w, row, c0 + 1, c1, k);
    }
}

/// A rectangle sum of `m * n` cells lies between 0 and `255 * m * n`.
proof fn lemma_rect_sum_bound(s: Seq<RGB>, w: int, r0: int, r1: int, c0: int, c1: int, k: int)
    requires
        c0 <= c1,
    ensures
        0 <= rect_sum(s, w, r0, r1, c0, c1, k),
        rect_sum(s, w, r0, r1, c0, c1, k) <= 255 * ((if r1 >= r0 {
            r1 - r0
        } else {
            0
        }) * (c1 - c0)),
    decreases r1 - r0,
{
    if r1 <= r0 {
        vstd::arithmetic::mul::lemma_mul_basics(c1 - c0);
    } else {
        lemma_rect_sum_bound(s, w, r0 + 1, r1, c0, c1, k);
        lemma_row_sum_bound(s, w, r0, c0, c1, k);
        vstd::arithmetic::mul::lemma_mul_is_distributive_add_other_way(c1 - c0, r1 - r0 - 1, 1);
        vstd::arithmetic::mul::lemma_mul_basics(c1 - c0);
    }
}

/// A row sum over a uniform sequence is the cell count times the channel.
proof fn lemma_row_sum_uniform(
    s: Seq<RGB>,
    w: int,
    h: int,
    row: int,
    c0: int,
    c1: int,
    k: int,
    p: RGB,
)
    requires
        0 < w,
        0 <= row < h,
        0 <= c0,
        c1 <= w,
        s.len() == w * h,
        forall|j: int| 0 <= j < s.len() ==> s[j] == p,
    ensures
        row_sum(s, w, row, c0, c1, k) == (if c1 >= c0 {
            c1 - c0
        } else {
            0
        }) * channel(p, k),
    decreases c1 - c0,
{
    if c1 <= c0 {
        vstd::arithmetic::mul::lemma_mul_basics(channel(p, k));
    } else {
        lemma_row_sum_uniform(s, w, h, row, c0 + 1, c1, k, p);
        lemma_grid_bound(row, c0, w, h);
        vstd::arithmetic::mul::lemma_mul_is_distributive_add_other_way(
            channel(p, k),
            c1 - c0 - 1,
            1,
        );
        vstd::arithmetic::mul::lemma_mul_basics(channel(p, k));
    }
}

/// A rectangle sum over a uniform sequence is the cell count times the
/// channel.
proof fn lemma_rect_sum_uniform(
    s: Seq<RGB>,
    w: int,
    h: int,
    r0: int,
    r1: int,
    c0: int,
    c1: int,
    k: int,
    p: RGB,
)
    requires
        0 < w,
        0 <= r0,
        r1 <= h,
        0 <= c0,
        c1 <= w,
        c0 <= c1,
        s.len() == w * h,
        forall|j: int| 0 <= j < s.len() ==> s[j] == p,
    ensures
        rect_sum(s, w, r0, r1, c0, c1, k) == ((if r1 >= r0 {
            r1 - r0
        } else {
            0
        }) * (c1 - c0)) * channel(p, k),
    decreases r1 - r0,
{
    if r1 <= r0 {
        vstd::arithmetic::mul::lemma_mul_basics(c1 - c0);
        vstd::arithmetic::mul::lemma_mul_basics(channel(p, k));
    } else {
        lemma_rect_sum_uniform(s, w, h, r0 + 1, r1, c0, c1, k, p);
        lemma_row_sum_uniform(s, w, h, r0, c0, c1, k, p);
        let m = c1 - c0;
        let rows = r1 - r0;
        let v = channel(p, k);
        assert(rows * m == (rows - 1) * m + m) by {
            vstd::arithmetic::mul::lemma_mul_is_distributive_add_other_way(m, rows - 1, 1);
            vstd::arithmetic::mul::lemma_mul_basics(m);
        }
        assert((rows * m) * v == ((rows - 1) * m) * v + m * v) by {
            vstd::arithmetic::mul::lemma_mul_is_distributive_add_other_way(
                v,
                (rows - 1) * m,
                m,
            );
        }
    }
}

/// The sum over a one-cell rectangle is that cell's channel.
proof fn lemma_singleton_sum(s: Seq<RGB>, w: int, y: int, x: int, k: int)
    ensures
        rect_sum(s, w, y, y + 1, x, x + 1, k) == channel(s[y * w + x], k),
{
    assert(row_sum(s, w, y, x + 1, x + 1, k) == 0);
    assert(rect_sum(s, w, y + 1, y + 1, x, x + 1, k) == 0);
}

/// A blur of radius 0 is the identity transform on every pixel.
pub proof fn lemma_box_blur_zero_identity(s: Seq<RGB>, w: int, h: int)
    requires
        0 <= w,
        0 <= h,
        s.len() == w * h,
    ensures
        blurred(s, w, h, 0) == s,
{
    if w == 0 {
        vstd::arithmetic::mul::lemma_mul_by_zero_is_zero(h);
        assert(blurred(s, w, h, 0) =~= s);
    } else {
        assert forall|i: int| 0 <= i < s.len() implies blurred(s, w, h, 0)[i] == s[i] by {
            lemma_grid_split(i, w, h);
            let y = i / w;
            let x = i % w;
            assert(window_lo(y, 0) == y);
            assert(window_hi(y, 0, h) == y + 1);
            assert(window_lo(x, 0) == x);
            assert(window_hi(x, 0, w) == x + 1);
            assert(window_count(w, h, 0, y, x) == 1) by {
                vstd::arithmetic::mul::lemma_mul_basics(1);
            }
            lemma_singleton_sum(s, w, y, x, 0);
            lemma_singleton_sum(s, w, y, x, 1);
            lemma_singleton_sum(s, w, y, x, 2);
            vstd::arithmetic::div_mod::lemma_basic_div_specific_divisor(1);
            assert(channel(s[i], 0) / 1 == channel(s[i], 0));
            assert(channel(s[i], 1) / 1 == channel(s[i], 1));
            assert(channel(s[i], 2) / 1 == channel(s[i], 2));
        }
        assert(blurred(s, w, h, 0) =~= s);
    }
}

/// A blur of any radius leaves a uniform-colour image unchanged: the
/// mean of identical values is that value.
pub proof fn lemma_box_blur_uniform(s: Seq<RGB>, w: int, h: int, r: int, p: RGB)
    requires
        0 <= w,
        0 <= h,
        0 <= r,
        s.len() == w * h,
        forall|j: int| 0 <= j < s.len() ==> s[j] == p,
    ensures
        blurred(s, w, h, r) == s,
{
    if w == 0 {
        vstd::arithmetic::mul::lemma_mul_by_zero_is_zero(h);
        assert(blurred(s, w, h, r) =~= s);
    } else {
        assert forall|i: int| 0 <= i < s.len() implies blurred(s, w, h, r)[i] == s[i] by {
            lemma_grid_split(i, w, h);
            let y = i / w;
            let x = i % w;
            let r0 = window_lo(y, r);
            let r1 = window_hi(y, r, h);
            let c0 = window_lo(x, r);
            let c1 = window_hi(x, r, w);
            let cnt = (r1 - r0) * (c1 - c0);
            assert(r0 <= y < r1);
            assert(c0 <= x < c1);
            assert(cnt >= 1) by {
                vstd::arithmetic::mul::lemma_mul_inequality(1, r1 - r0, c1 - c0);
                vstd::arithmetic::mul::lemma_mul_basics(c1 - c0);
            }
            lemma_rect_sum_uniform(s, w, h, r0, r1, c0, c1, 0, p);
            lemma_rect_sum_uniform(s, w, h, r0, r1, c0, c1, 1, p);
            lemma_rect_sum_uniform(s, w, h, r0, r1, c0, c1, 2, p);
            vstd::arithmetic::div_mod::lemma_div_multiples_vanish(channel(p, 0), cnt);
            vstd::arithmetic::div_mod::lemma_div_multiples_vanish(channel(p, 1), cnt);
            vstd::arithmetic::div_mod::lemma_div_multiples_vanish(channel(p, 2), cnt);
            assert(cnt * channel(p, 0) == window_sum(s, w, h, r, y, x, 0)) by {
                vstd::arithmetic::mul::lemma_mul_is_commutative(cnt, channel(p, 0));
            }
            assert(cnt * channel(p, 1) == window_sum(s, w, h, r, y, x, 1)) by {
                vstd::arithmetic::mul::lemma_mul_is_commutative(cnt, channel(p, 1));
            }
            assert(cnt * channel(p, 2) == window_sum(s, w, h, r, y, x, 2)) by {
                vstd::arithmetic::mul::lemma_mul_is_commutative(cnt, channel(p, 2));
            }
        }
        assert(blurred(s, w, h, r) =~= s);
    }
}

impl Filter for BoxBlur {
    open spec fn valid_for(&self, image: &Bitmap) -> bool {
        true
    }

    open spec fn output(&self, pixels: Seq<RGB>, width: int, height: int) -> Seq<RGB> {
        blurred(pixels, width, height, self.0 as int)
    }

    #[verifier::rlimit(100)]
    fn apply(&self, image: &mut Bitmap) -> (r: Result<(), FilterError>) {
        let radius: usize = self.0;
        let w: usize = image.widht();
        let h: usize = image.height();
        let ghost s: Seq<RGB> = old(image).pixel_seq();
        let ghost out_spec: Seq<RGB> = blurred(s, w as int, h as int, radius as int);
        let n: usize = image.surface.pixels.len();
        let mut out: Vec<RGB> = Vec::new();
        if w > 0 {
            proof {
                vstd::arithmetic::mul::lemma_mul_basics(w as int);
            }
            for y in 0..h
                invariant
                    old(image).wf(),
                    *image == *old(image),
                    s == image.pixel_seq(),
                    w == image.width_px(),
                    h == image.height_px(),
                    1 <= w,
                    radius == self.0,
                    out_spec == blurred(s, w as int, h as int, radius as int),
                    n == s.len(),
                    s.len() == w * h,
                    out@.len() == y * w,
                    forall|j: int| 0 <= j < out@.len() ==> out@[j] == out_spec[j],
                    forall|j: int|
                        0 <= j < out@.len() ==> ((#[trigger] out@[j].alpha) is Some
                            <==> image.surface.alpha_channel),
            {
                for x in 0..w
                    invariant
                        old(image).wf(),
                        *image == *old(image),
                        s == image.pixel_seq(),
                        w == image.width_px(),
                        h == image.height_px(),
                        1 <= w,
                        y < h,
                        radius == self.0,
                        out_spec == blurred(s, w as int, h as int, radius as int),
                        n == s.len(),
                        s.len() == w * h,
                        out@.len() == y * w + x,
                        forall|j: int| 0 <= j < out@.len() ==> out@[j] == out_spec[j],
                        forall|j: int|
                            0 <= j < out@.len() ==> ((#[trigger] out@[j].alpha) is Some
                                <==> image.surface.alpha_channel),
                {
                    let r0: usize = if y > radius {
                        y - radius
                    } else {
                        0
                    };
                    let r1: usize = if h - 1 - y <= radius {
                        h
                    } else {
                        y + radius + 1
                    };
                    let c0: usize = if x > radius {
                        x - radius
                    } else {
                        0
                    };
                    let c1: usize = if w - 1 - x <= radius {
                        w
                    } else {
                        x + radius + 1
                    };
                    proof {
                        assert(r0 == window_lo(y as int, radius as int));
                        assert(r1 == window_hi(y as int, radius as int, h as int));
                        assert(c0 == window_lo(x as int, radius as int));
                        assert(c1 == window_hi(x as int, radius as int, w as int));
                        vstd::arithmetic::mul::lemma_mul_upper_bound(
                            (r1 - r0) as int,
                            h as int,
                            (c1 - c0) as int,
                            w as int,
                        );
                        vstd::arithmetic::mul::lemma_mul_is_commutative(h as int, w as int);
                        vstd::arithmetic::mul::lemma_mul_inequality(
                            1,
                            (r1 - r0) as int,
                            (c1 - c0) as int,
                        );
                        vstd::arithmetic::mul::lemma_mul_basics((c1 - c0) as int);
                    }
                    let cnt: usize = (r1 - r0) * (c1 - c0);
                    let mut reds: u128 = 0;
                    let mut greens: u128 = 0;
                    let mut blues: u128 = 0;
                    for rr in r0..r1
                        invariant
                            old(image).wf(),
                            *image == *old(image),
                            s == image.pixel_seq(),
                            w == image.width_px(),
                            h == image.height_px(),
                            1 <= w,
                            n == s.len(),
                            s.len() == w * h,
                            r0 <= rr <= r1,
                            r1 <= h,
                            c0 <= c1 <= w,
                            c1 - c0 >= 1,
                            reds == rect_sum(s, w as int, r0 as int, rr as int, c0 as int, c1 as int, 0),
                            greens == rect_sum(s, w as int, r0 as int, rr as int, c0 as int, c1 as int, 1),
                            blues == rect_sum(s, w as int, r0 as int, rr as int, c0 as int, c1 as int, 2),
                    {
                        let ghost rect_r: int = rect_sum(s, w as int, r0 as int, rr as int, c0 as int, c1 as int, 0);
                        let ghost rect_g: int = rect_sum(s, w as int, r0 as int, rr as int, c0 as int, c1 as int, 1);
                        let ghost rect_b: int = rect_sum(s, w as int, r0 as int, rr as int, c0 as int, c1 as int, 2);
                        for cc in c0..c1
                            invariant
                                old(image).wf(),
                                *image == *old(image),
                                s == image.pixel_seq(),
                                w == image.width_px(),
                                h == image.height_px(),
                                1 <= w,
                                n == s.len(),
                                s.len() == w * h,
                                r0 <= rr < r1,
                                r1 <= h,
                                c0 <= cc <= c1,
                                c1 <= w,
                                rect_r == rect_sum(s, w as int, r0 as int, rr as int, c0 as int, c1 as int, 0),
                                rect_g == rect_sum(s, w as int, r0 as int, rr as int, c0 as int, c1 as int, 1),
                                rect_b == rect_sum(s, w as int, r0 as int, rr as int, c0 as int, c1 as int, 2),
                                reds == rect_r + row_sum(s, w as int, rr as int, c0 as int, cc as int, 0),
                                greens == rect_g + row_sum(s, w as int, rr as int, c0 as int, cc as int, 1),
                                blues == rect_b + row_sum(s, w as int, rr as int, c0 as int, cc as int, 2),
                        {
                            proof {
                                lemma_grid_bound(rr as int, cc as int, w as int, h as int);
                                lemma_rect_sum_bound(s, w as int, r0 as int, rr as int, c0 as int, c1 as int, 0);
                                lemma_rect_sum_bound(s, w as int, r0 as int, rr as int, c0 as int, c1 as int, 1);
                                lemma_rect_sum_bound(s, w as int, r0 as int, rr as int, c0 as int, c1 as int, 2);
                                lemma_row_sum_bound(s, w as int, rr as int, c0 as int, cc as int, 0);
                                lemma_row_sum_bound(s, w as int, rr as int, c0 as int, cc as int, 1);
                                lemma_row_sum_bound(s, w as int, rr as int, c0 as int, cc as int, 2);
                                vstd::arithmetic::mul::lemma_mul_upper_bound(
                                    (rr - r0) as int,
                                    h as int,
                                    (c1 - c0) as int,
                                    w as int,
                                );
                                vstd::arithmetic::mul::lemma_mul_is_commutative(h as int, w as int);
                                lemma_row_sum_extend(s, w as int, rr as int, c0 as int, cc as int, 0);
                                lemma_row_sum_extend(s, w as int, rr as int, c0 as int, cc as int, 1);
                                lemma_row_sum_extend(s, w as int, rr as int, c0 as int, cc as int, 2);
                            }
                            let q: RGB = image.surface.pixels[rr * w + cc];
                            reds = reds + q.red as u128;
                            greens = greens + q.green as u128;
                            blues = blues + q.blue as u128;
                        }
                        proof {
                            lemma_rect_sum_extend(s, w as int, r0 as int, rr as int, c0 as int, c1 as int, 0);
                            lemma_rect_sum_extend(s, w as int, r0 as int, rr as int, c0 as int, c1 as int, 1);
                            lemma_rect_sum_extend(s, w as int, r0 as int, rr as int, c0 as int, c1 as int, 2);
                        }
                    }
                    proof {
                        lemma_grid_bound(y as int, x as int, w as int, h as int);
                        lemma_grid_index(y as int * w as int + x as int, y as int, x as int, w as int);
                        lemma_rect_sum_bound(s, w as int, r0 as int, r1 as int, c0 as int, c1 as int, 0);
                        lemma_rect_sum_bound(s, w as int, r0 as int, r1 as int, c0 as int, c1 as int, 1);
                        lemma_rect_sum_bound(s, w as int, r0 as int, r1 as int, c0 as int, c1 as int, 2);
                        vstd::arithmetic::div_mod::lemma_div_is_ordered(
                            reds as int,
                            255 * (cnt as int),
                            cnt as int,
                        );
                        vstd::arithmetic::div_mod::lemma_div_is_ordered(
                            greens as int,
                            255 * (cnt as int),
                            cnt as int,
                        );
                        vstd::arithmetic::div_mod::lemma_div_is_ordered(
                            blues as int,
                            255 * (cnt as int),
                            cnt as int,
                        );
                        vstd::arithmetic::div_mod::lemma_div_multiples_vanish(255, cnt as int);
                        vstd::arithmetic::div_mod::lemma_div_pos_is_pos(reds as int, cnt as int);
                        vstd::arithmetic::div_mod::lemma_div_pos_is_pos(greens as int, cnt as int);
                        vstd::arithmetic::div_mod::lemma_div_pos_is_pos(blues as int, cnt as int);
                    }
                    let i: usize = y * w + x;
                    let p_old: RGB = image.surface.pixels[i];
                    let p = RGB {
                        red: (reds / cnt as u128) as u8,
                        green: (greens / cnt as u128) as u8,
                        blue: (blues / cnt as u128) as u8,
                        alpha: p_old.alpha,
                    };
                    proof {
                        assert(p == out_spec[i as int]);
                    }
                    out.push(p);
                }
                proof {
                    vstd::arithmetic::mul::lemma_mul_is_distributive_add_other_way(
                        w as int,
                        y as int,
                        1,
                    );
                }
            }
        } else {
            proof {
                vstd::arithmetic::mul::lemma_mul_by_zero_is_zero(h as int);
            }
        }
        proof {
            vstd::arithmetic::mul::lemma_mul_is_commutative(w as int, h as int);
            assert(out@ =~= out_spec);
        }
        image.surface.pixels = out;
        proof {
            assert(image.wf());
        }
        Ok(())
    }
}

} // verus!
