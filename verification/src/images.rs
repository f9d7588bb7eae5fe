//! Pixel values, the image capability, and little-endian field helpers.
use vstd::prelude::*;

pub mod bitmap;

verus! {

/// On-disk formats the codec understands.
pub enum Format {
    BMP,
}

/// An RGB(A) colour value.  The alpha channel is `None` when the source
/// format carries no alpha byte.
#[derive(Default, Debug, Clone, Copy, PartialEq, Eq)]
pub struct RGB {
    pub red: u8,
    pub green: u8,
    pub blue: u8,
    pub alpha: Option<u8>,
}

/// The grayscale value of a pixel: the floor of the mean of its three
/// colour channels.
pub open spec fn gray_value(p: RGB) -> int {
    (p.red + p.green + p.blue) / 3
}

/// A pixel with all colour channels replaced by its grayscale value,
/// alpha untouched.
pub open spec fn grayscaled(p: RGB) -> RGB {
    RGB {
        red: gray_value(p) as u8,
        green: gray_value(p) as u8,
        blue: gray_value(p) as u8,
        alpha: p.alpha,
    }
}

/// A pixel with every colour channel inverted, alpha untouched.
pub open spec fn negated(p: RGB) -> RGB {
    RGB {
        red: (255 - p.red) as u8,
        green: (255 - p.green) as u8,
        blue: (255 - p.blue) as u8,
        alpha: p.alpha,
    }
}

impl RGB {
    pub fn new(red: u8, green: u8, blue: u8, alpha: Option<u8>) -> (r: RGB)
        ensures
            r == (RGB { red, green, blue, alpha }),
    {
        RGB { red, green, blue, alpha }
    }

    pub fn red(&self) -> (r: u8)
        ensures
            r == self.red,
    {
        self.red
    }

    pub fn green(&self) -> (r: u8)
        ensures
            r == self.green,
    {
        self.green
    }

    pub fn blue(&self) -> (r: u8)
        ensures
            r == self.blue,
    {
        self.blue
    }

    pub fn set_red(&mut self, value: u8)
        ensures
            *final(self) == (RGB { red: value, ..*old(self) }),
    {
        self.red = value;
    }

    pub fn set_green(&mut self, value: u8)
        ensures
            *final(self) == (RGB { green: value, ..*old(self) }),
    {
        self.green = value;
    }

    pub fn set_blue(&mut self, value: u8)
        ensures
            *final(self) == (RGB { blue: value, ..*old(self) }),
    {
        self.blue = value;
    }

    /// Sets all three colour channels to the same value, leaving alpha
    /// untouched.
    pub fn set_value(&mut self, value: u8)
        ensures
            *final(self) == (RGB {
                red: value,
                green: value,
                blue: value,
                alpha: old(self).alpha,
            }),
    {
        self.red = value;
        self.green = value;
        self.blue = value;
    }

    /// The pixel with R, G and B replaced by the floor of their mean,
    /// alpha preserved.
    pub fn grayscale(&self) -> (r: RGB)
        ensures
            r == grayscaled(*self),
    {
        let sum: u16 = self.red as u16 + self.green as u16 + self.blue as u16;
        let m: u8 = (sum / 3) as u8;
        RGB { red: m, green: m, blue: m, alpha: self.alpha }
    }
}

/// A uniform capability over any decoded image format: dimensions,
/// format tag, bit depth, and pixel access by logical coordinate, with
/// the origin at the top left.  Filters are written against this
/// interface, so any format the codec learns to decode can reuse them.
pub trait Image {
    /// The pixel sequence in storage order.
    spec fn pix(&self) -> Seq<RGB>;

    /// Columns of the image.
    spec fn img_width(&self) -> int;

    /// Rows of the image.
    spec fn img_height(&self) -> int;

    /// The image's internal invariant.
    spec fn img_wf(&self) -> bool;

    /// The number of pixel columns.
    fn widht(&self) -> (r: usize)
        requires
            self.img_wf(),
        ensures
            r == self.img_width(),
    ;

    /// The number of pixel rows.
    fn height(&self) -> (r: usize)
        requires
            self.img_wf(),
        ensures
            r == self.img_height(),
    ;

    /// The on-disk format of the image.
    spec fn img_format(&self) -> Format;

    /// The on-disk format of the image.
    fn format(&self) -> (r: Format)
        ensures
            r == self.img_format(),
    ;

    /// Bytes each pixel occupies on disk: 4 with an alpha channel, 3
    /// without.
    fn bytes_per_pixels(&self) -> (r: u16)
        requires
            self.img_wf(),
        ensures
            r == if self.has_alpha() {
                4u16
            } else {
                3u16
            },
    ;

    /// The full pixel sequence, in storage order.
    fn get_pixels(&self) -> (r: &[RGB])
        requires
            self.img_wf(),
        ensures
            r@ == self.pix(),
    ;

    /// Whether the image's pixels carry an alpha channel.
    spec fn has_alpha(&self) -> bool;

    /// The pixel at logical coordinate `(x, y)`, origin top left;
    /// `None` outside the image.
    fn get_pixel(&self, x: usize, y: usize) -> (r: Option<RGB>)
        requires
            self.img_wf(),
        ensures
            match r {
                Some(p) => x < self.img_width() && y < self.img_height() && p == self.pix()[
                    self.pix().len() - 1 - (y * self.img_width() + x)
                ],
                None => !(x < self.img_width() && y < self.img_height()),
            },
    ;

    /// Writes the pixel at logical coordinate `(x, y)` and reports
    /// whether the coordinate was inside the image.  The value must
    /// carry an alpha channel exactly when the image does.
    fn set_pixel(&mut self, x: usize, y: usize, value: RGB) -> (r: bool)
        requires
            old(self).img_wf(),
            value.alpha is Some <==> old(self).has_alpha(),
        ensures
            final(self).img_wf(),
            final(self).img_width() == old(self).img_width(),
            final(self).img_height() == old(self).img_height(),
            final(self).has_alpha() == old(self).has_alpha(),
            r == (x < old(self).img_width() && y < old(self).img_height()),
            r ==> final(self).pix() == old(self).pix().update(
                old(self).pix().len() - 1 - (y * old(self).img_width() + x),
                value,
            ),
            !r ==> final(self).pix() == old(self).pix(),
    ;
}

/// The unsigned 16-bit little-endian value stored at offset `i` of `s`.
pub open spec fn u16_of(s: Seq<u8>, i: int) -> int {
    s[i] + 0x100 * s[i + 1]
}

/// The unsigned 32-bit little-endian value stored at offset `i` of `s`.
pub open spec fn u32_of(s: Seq<u8>, i: int) -> int {
    s[i] + 0x100 * s[i + 1] + 0x1_0000 * s[i + 2] + 0x100_0000 * s[i + 3]
}

/// The signed (two's complement) 32-bit little-endian value stored at
/// offset `i` of `s`.
pub open spec fn i32_of(s: Seq<u8>, i: int) -> int {
    if u32_of(s, i) < 0x8000_0000 {
        u32_of(s, i)
    } else {
        u32_of(s, i) - 0x1_0000_0000
    }
}

/// Reads an unsigned 32-bit little-endian value from the first four bytes
/// of `bytes`, or 0 when fewer than four bytes are given.
pub fn u32_from_le_bytes(bytes: &[u8]) -> (r: u32)
    ensures
        bytes@.len() >= 4 ==> r == u32_of(bytes@, 0),
        bytes@.len() < 4 ==> r == 0,
{
    if bytes.len() < 4 {
        return 0;
    }
    bytes[0] as u32 + 0x100 * (bytes[1] as u32) + 0x1_0000 * (bytes[2] as u32) + 0x100_0000 * (
    bytes[3] as u32)
}

/// Reads a signed 32-bit little-endian value from the first four bytes of
/// `bytes`, or 0 when fewer than four bytes are given.
pub fn i32_from_le_bytes(bytes: &[u8]) -> (r: i32)
    ensures
        bytes@.len() >= 4 ==> r == i32_of(bytes@, 0),
        bytes@.len() < 4 ==> r == 0,
{
    if bytes.len() < 4 {
        return 0;
    }
    let u: u32 = u32_from_le_bytes(bytes);
    if u < 0x8000_0000 {
        u as i32
    } else {
        let wide: i64 = u as i64 - 0x1_0000_0000;
        wide as i32
    }
}

} // verus!
