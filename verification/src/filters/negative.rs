//! Negative: every colour channel inverted.
use vstd::prelude::*;

use super::{Filter, FilterError};
use crate::images::bitmap::Bitmap;
use crate::images::{negated, RGB};

verus! {

/// Inverts the three colour channels of every pixel, alpha untouched.
pub struct Negative;

/// Every pixel of the sequence with its colour channels inverted.
pub open spec fn negative_map(s: Seq<RGB>) -> Seq<RGB> {
    Seq::new(s.len(), |i: int| negated(s[i]))
}

/// Applying the negative twice restores every pixel exactly, alpha
/// untouched both times.
pub proof fn lemma_negative_involutive(s: Seq<RGB>)
    ensures
        negative_map(negative_map(s)) == s,
{
    assert(negative_map(negative_map(s)) =~= s);
}

impl Filter for Negative {
    open spec fn valid_for(&self, image: &Bitmap) -> bool {
        true
    }

    open spec fn output(&self, pixels: Seq<RGB>, width: int, height: int) -> Seq<RGB> {
        negative_map(pixels)
    }

    fn apply(&self, image: &mut Bitmap) -> (r: Result<(), FilterError>) {
        let n: usize = image.surface.pixels.len();
        for i in 0..n
            invariant
                old(image).wf(),
                n == image.surface.pixels@.len(),
                image.file_header == old(image).file_header,
                image.dib_header == old(image).dib_header,
                image.surface.row_size == old(image).surface.row_size,
                image.surface.column_size == old(image).surface.column_size,
                image.surface.alpha_channel == old(image).surface.alpha_channel,
                image.surface.padding == old(image).surface.padding,
                image.surface.pixels@.len() == old(image).surface.pixels@.len(),
                forall|j: int|
                    0 <= j < i ==> image.surface.pixels@[j] == negated(
                        old(image).surface.pixels@[j],
                    ),
                forall|j: int|
                    i <= j < n ==> image.surface.pixels@[j] == old(image).surface.pixels@[j],
        {
            let p: RGB = image.surface.pixels[i];
            let q = RGB { red: 255 - p.red, green: 255 - p.green, blue: 255 - p.blue, alpha: p.alpha };
            image.surface.pixels[i] = q;
        }
        proof {
            assert(image.pixel_seq() =~= negative_map(old(image).pixel_seq()));
            assert(image.wf());
        }
        Ok(())
    }
}

} // verus!
