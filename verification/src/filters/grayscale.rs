//! Grayscale: every pixel replaced by its grayscale value.
use vstd::prelude::*;

use super::{Filter, FilterError};
use crate::images::bitmap::Bitmap;
use crate::images::{grayscaled, RGB};

verus! {

/// Replaces every pixel by its grayscale value, alpha preserved.
pub struct GrayScale;

/// Every pixel of the sequence replaced by its grayscale value.
pub open spec fn gray_map(s: Seq<RGB>) -> Seq<RGB> {
    Seq::new(s.len(), |i: int| grayscaled(s[i]))
}

/// Grayscale is idempotent: a second application changes nothing, since
/// the first already set all three colour channels to one value.
pub proof fn lemma_grayscale_idempotent(s: Seq<RGB>)
    ensures
        gray_map(gray_map(s)) == gray_map(s),
{
    assert forall|i: int| 0 <= i < s.len() implies grayscaled(grayscaled(s[i])) == grayscaled(
        s[i],
    ) by {
        let m = (s[i].red + s[i].green + s[i].blue) / 3;
        assert(0 <= m <= 255);
        vstd::arithmetic::div_mod::lemma_div_multiples_vanish(m, 3);
        assert((m + m + m) / 3 == m);
    }
    assert(gray_map(gray_map(s)) =~= gray_map(s));
}

impl Filter for GrayScale {
    open spec fn valid_for(&self, image: &Bitmap) -> bool {
        true
    }

    open spec fn output(&self, pixels: Seq<RGB>, width: int, height: int) -> Seq<RGB> {
        gray_map(pixels)
    }

    fn apply(&self, image: &mut Bitmap) -> (r: Result<(), FilterError>) {
        let n: usize = image.surface.pixels.len();
        for i in 0..n
            invariant
                old(image).wf(),
                n == image.surface.pixels@.len(),
                image.file_header == old(image).file_header,
                image.dib_header == old(image).dib_header,
                image.surface.row_size == old(image).surface.row_size,
                image.surface.column_size == old(image).surface.column_size,
                image.surface.alpha_channel == old(image).surface.alpha_channel,
                image.surface.padding == old(image).surface.padding,
                image.surface.pixels@.len() == old(image).surface.pixels@.len(),
                forall|j: int|
                    0 <= j < i ==> image.surface.pixels@[j] == grayscaled(
                        old(image).surface.pixels@[j],
                    ),
                forall|j: int|
                    i <= j < n ==> image.surface.pixels@[j] == old(image).surface.pixels@[j],
        {
            let p: RGB = image.surface.pixels[i];
            let q: RGB = p.grayscale();
            image.surface.pixels[i] = q;
        }
        proof {
            assert(image.pixel_seq() =~= gray_map(old(image).pixel_seq()));
            assert(image.wf());
        }
        Ok(())
    }
}

} // verus!
