//! Horizontal mirroring of the full image or of a rectangle.
use vstd::prelude::*;

use super::{lemma_grid_bound, lemma_grid_index, lemma_grid_split, Filter, FilterError};
use crate::images::bitmap::Bitmap;
use crate::images::RGB;

verus! {

/// Reverses the pixel order within each affected row, either over the
/// whole image or over a caller-given rectangle `[start, end)` in
/// logical coordinates, origin top left.
#[derive(Default)]
pub struct FlipH {
    /// Left logical column of the rectangle, inclusive.
    pub start_x: usize,
    /// Top logical row of the rectangle, inclusive.
    pub start_y: usize,
    /// Right logical column of the rectangle, exclusive.
    pub end_x: usize,
    /// Bottom logical row of the rectangle, exclusive.
    pub end_y: usize,
    /// Whether the whole image is flipped instead of the rectangle.
    pub is_full: bool,
}

impl FlipH {
    /// The flip over the whole image.
    pub fn full() -> (r: FlipH)
        ensures
            r.is_full,
    {
        FlipH { start_x: 0, start_y: 0, end_x: 0, end_y: 0, is_full: true }
    }

    /// The flip over the rectangle `[start, end)` in logical
    /// coordinates; it is translated to storage positions through the
    /// same bottom-up rule the pixel accessors use.
    pub fn rect(start: (usize, usize), end: (usize, usize)) -> (r: FlipH)
        ensures
            !r.is_full,
            r.start_x == start.0,
            r.start_y == start.1,
            r.end_x == end.0,
            r.end_y == end.1,
    {
        FlipH { start_x: start.0, start_y: start.1, end_x: end.0, end_y: end.1, is_full: false }
    }
}

/// The sequence with each row `sy..ey` reversed within columns `sx..ex`,
/// all other pixels unchanged.
pub open spec fn hflip_rect(s: Seq<RGB>, w: int, sx: int, sy: int, ex: int, ey: int) -> Seq<RGB> {
    Seq::new(
        s.len(),
        |i: int|
            {
                let y = i / w;
                let x = i % w;
                if sy <= y < ey && sx <= x < ex {
                    s[y * w + (sx + ex - 1 - x)]
                } else {
                    s[i]
                }
            },
    )
}

/// Applying the full-image horizontal flip twice restores the original
/// pixel sequence exactly.
pub proof fn lemma_flip_h_involutive(s: Seq<RGB>, w: int, h: int)
    requires
        0 <= w,
        0 <= h,
        s.len() == w * h,
    ensures
        hflip_rect(hflip_rect(s, w, 0, 0, w, h), w, 0, 0, w, h) == s,
{
    let inner = hflip_rect(s, w, 0, 0, w, h);
    let outer = hflip_rect(inner, w, 0, 0, w, h);
    if w == 0 {
        vstd::arithmetic::mul::lemma_mul_by_zero_is_zero(h);
        assert(outer =~= s);
    } else {
        assert forall|i: int| 0 <= i < s.len() implies outer[i] == s[i] by {
            lemma_grid_split(i, w, h);
            let y = i / w;
            let x = i % w;
            let j = y * w + (w - 1 - x);
            lemma_grid_bound(y, w - 1 - x, w, h);
            lemma_grid_index(j, y, w - 1 - x, w);
            vstd::arithmetic::mul::lemma_mul_is_commutative(w, y);
            assert(inner[j] == s[y * w + x]);
            assert(outer[i] == inner[j]);
        }
        assert(outer =~= s);
    }
}

impl Filter for FlipH {
    /// A rectangle must lie inside the image; the full flip always does.
    open spec fn valid_for(&self, image: &Bitmap) -> bool {
        self.is_full || (self.start_x <= self.end_x <= image.width_px() && self.start_y
            <= self.end_y <= image.height_px())
    }

    /// The logical rectangle `[start, end)` occupies storage columns
    /// `width - end_x .. width - start_x` of storage rows
    /// `height - end_y .. height - start_y`.
    open spec fn output(&self, pixels: Seq<RGB>, width: int, height: int) -> Seq<RGB> {
        if self.is_full {
            hflip_rect(pixels, width, 0, 0, width, height)
        } else {
            hflip_rect(
                pixels,
                width,
                width - self.end_x,
                height - self.end_y,
                width - self.start_x,
                height - self.start_y,
            )
        }
    }

    fn apply(&self, image: &mut Bitmap) -> (r: Result<(), FilterError>) {
        let w: usize = image.widht();
        let h: usize = image.height();
        let (sx, sy): (usize, usize) = if self.is_full {
            (0, 0)
        } else {
            (w - self.end_x, h - self.end_y)
        };
        let (ex, ey): (usize, usize) = if self.is_full {
            (w, h)
        } else {
            (w - self.start_x, h - self.start_y)
        };
        let ghost out_spec: Seq<RGB> = self.output(
            old(image).pixel_seq(),
            old(image).width_px(),
            old(image).height_px(),
        );
        let n: usize = image.surface.pixels.len();
        let mut out: Vec<RGB> = Vec::new();
        if w > 0 {
            proof {
                vstd::arithmetic::mul::lemma_mul_basics(w as int);
            }
            for y in 0..h
                invariant
                    old(image).wf(),
                    *image == *old(image),
                    w == image.width_px(),
                    h == image.height_px(),
                    1 <= w,
                    sx <= ex,
                    sy <= ey,
                    (!self.is_full) ==> ex <= w && ey <= h,
                    self.is_full ==> sx == 0 && sy == 0 && ex == w && ey == h,
                    out_spec == hflip_rect(
                        image.pixel_seq(),
                        w as int,
                        sx as int,
                        sy as int,
                        ex as int,
                        ey as int,
                    ),
                    n == image.pixel_seq().len(),
                    image.pixel_seq().len() == w * h,
                    out@.len() == y * w,
                    forall|j: int| 0 <= j < out@.len() ==> out@[j] == out_spec[j],
                    forall|j: int|
                        0 <= j < out@.len() ==> ((#[trigger] out@[j].alpha) is Some
                            <==> image.surface.alpha_channel),
            {
                for x in 0..w
                    invariant
                        old(image).wf(),
                        *image == *old(image),
                        w == image.width_px(),
                        h == image.height_px(),
                        1 <= w,
                        y < h,
                        sx <= ex,
                        sy <= ey,
                        (!self.is_full) ==> ex <= w && ey <= h,
                        self.is_full ==> sx == 0 && sy == 0 && ex == w && ey == h,
                        out_spec == hflip_rect(
                            image.pixel_seq(),
                            w as int,
                            sx as int,
                            sy as int,
                            ex as int,
                            ey as int,
                        ),
                        n == image.pixel_seq().len(),
                        image.pixel_seq().len() == w * h,
                        out@.len() == y * w + x,
                        forall|j: int| 0 <= j < out@.len() ==> out@[j] == out_spec[j],
                        forall|j: int|
                            0 <= j < out@.len() ==> ((#[trigger] out@[j].alpha) is Some
                                <==> image.surface.alpha_channel),
                {
                    proof {
                        lemma_grid_bound(y as int, x as int, w as int, h as int);
                        lemma_grid_index(y as int * w as int + x as int, y as int, x as int, w as int);
                    }
                    let i: usize = y * w + x;
                    let p: RGB = if sy <= y && y < ey && sx <= x && x < ex {
                        proof {
                            lemma_grid_bound(y as int, (ex - 1 - x + sx) as int, w as int, h as int);
                        }
                        image.surface.pixels[y * w + (ex - 1 - x + sx)]
                    } else {
                        image.surface.pixels[i]
                    };
                    proof {
                        assert(p == out_spec[i as int]);
                    }
                    out.push(p);
                }
                proof {
                    vstd::arithmetic::mul::lemma_mul_is_distributive_add_other_way(
                        w as int,
                        y as int,
                        1,
                    );
                }
            }
        } else {
            proof {
                vstd::arithmetic::mul::lemma_mul_by_zero_is_zero(h as int);
            }
        }
        proof {
            vstd::arithmetic::mul::lemma_mul_is_commutative(w as int, h as int);
            assert(out@ =~= out_spec);
        }
        image.surface.pixels = out;
        proof {
            assert(image.wf());
        }
        Ok(())
    }
}

} // verus!
