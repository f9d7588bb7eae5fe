//! The filter capability and its implementations.
use vstd::prelude::*;

use crate::images::bitmap::Bitmap;
use crate::images::RGB;

pub mod box_blur;
pub mod edge_detection;
pub mod flip_h;
pub mod flip_v;
pub mod grayscale;
pub mod negative;

verus! {

/// Errors a filter can report.
#[derive(Debug, PartialEq, Eq, Structural)]
pub enum FilterError {
    /// The filter does not support the image's on-disk format.
    InvalidFormat,
}

impl FilterError {
    /// A short human-readable account of the error.
    pub fn description(&self) -> (r: &'static str)
        ensures
            r@ == "Filter not support for format image"@,
    {
        match self {
            FilterError::InvalidFormat => "Filter not support for format image",
        }
    }
}

/// Splits the flat index `row * w + col` back into its row and column.
pub(crate) proof fn lemma_grid_index(i: int, row: int, col: int, w: int)
    requires
        0 < w,
        0 <= col < w,
        0 <= row,
        i == row * w + col,
    ensures
        i / w == row,
        i % w == col,
{
    vstd::arithmetic::div_mod::lemma_fundamental_div_mod_converse_div(i, w, row, col);
    vstd::arithmetic::div_mod::lemma_fundamental_div_mod_converse_mod(i, w, row, col);
}

/// A flat index of a `w`-wide, `h`-high grid has a row below `h` and a
/// column below `w`, and reassembles from them.
pub(crate) proof fn lemma_grid_split(i: int, w: int, h: int)
    requires
        0 < w,
        0 <= i < w * h,
    ensures
        0 <= i / w < h,
        0 <= i % w < w,
        i == (i / w) * w + (i % w),
{
    vstd::arithmetic::div_mod::lemma_fundamental_div_mod(i, w);
    vstd::arithmetic::div_mod::lemma_div_pos_is_pos(i, w);
    vstd::arithmetic::div_mod::lemma_multiply_divide_lt(i, w, h);
    vstd::arithmetic::mul::lemma_mul_is_commutative(w, i / w);
}

/// For `0 <= row < h` and `0 < w`: a column of that row stays inside the
/// grid.
pub(crate) proof fn lemma_grid_bound(row: int, col: int, w: int, h: int)
    requires
        0 <= row < h,
        0 <= col < w,
    ensures
        0 <= row * w + col < w * h,
        0 <= row * w + col < h * w,
{
    vstd::arithmetic::mul::lemma_mul_is_distributive_add_other_way(w, row, 1);
    vstd::arithmetic::mul::lemma_mul_inequality(row + 1, h, w);
    vstd::arithmetic::mul::lemma_mul_nonnegative(row, w);
    vstd::arithmetic::mul::lemma_mul_is_commutative(w, h);
}

/// A transform applied in place to a decoded image's pixel buffer.  A
/// filter never resizes or reformats the buffer: dimensions, depth and
/// headers are untouched, and only the pixel sequence changes, to the
/// sequence `output` describes.
pub trait Filter {
    /// The images the filter may be applied to.
    spec fn valid_for(&self, image: &Bitmap) -> bool;

    /// The pixel sequence the filter leaves behind, from the sequence it
    /// found and the image's dimensions.
    spec fn output(&self, pixels: Seq<RGB>, width: int, height: int) -> Seq<RGB>;

    /// Applies the filter to the image's pixel buffer in place.
    fn apply(&self, image: &mut Bitmap) -> (r: Result<(), FilterError>)
        requires
            old(image).wf(),
            self.valid_for(&*old(image)),
        ensures
            final(image).wf(),
            final(image).file_header == old(image).file_header,
            final(image).dib_header == old(image).dib_header,
            final(image).surface.row_size == old(image).surface.row_size,
            final(image).surface.column_size == old(image).surface.column_size,
            final(image).surface.alpha_channel == old(image).surface.alpha_channel,
            final(image).surface.padding == old(image).surface.padding,
            r is Ok,
            final(image).pixel_seq() == self.output(
                old(image).pixel_seq(),
                old(image).width_px(),
                old(image).height_px(),
            ),
    ;
}

} // verus!
