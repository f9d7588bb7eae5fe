//! The BMP codec: headers, pixel surface, byte-level decode and encode.
use vstd::prelude::*;

use super::{u16_of, u32_of, i32_of, RGB};

verus! {

/// The magnitude of a signed 32-bit value as a mathematical integer.
pub open spec fn abs_i32(x: i32) -> int {
    if x >= 0 {
        x as int
    } else {
        -(x as int)
    }
}

/// Byte `k` (0 = least significant) of the little-endian encoding of the
/// unsigned value `v`.
pub open spec fn le_byte(v: int, k: int) -> u8 {
    ((v / pow256(k)) % 0x100) as u8
}

/// 256 to the power `k`.
pub open spec fn pow256(k: int) -> int
    decreases k,
{
    if k <= 0 {
        1
    } else {
        0x100 * pow256(k - 1)
    }
}

/// The unsigned 32-bit two's complement representative of a signed value.
pub open spec fn unsigned32(v: int) -> int {
    if v >= 0 {
        v
    } else {
        v + 0x1_0000_0000
    }
}

/// The four little-endian bytes of a 32-bit value reassemble to it.
proof fn lemma_u32_le_roundtrip(v: int)
    requires
        0 <= v < 0x1_0000_0000,
    ensures
        le_byte(v, 0) + 0x100 * le_byte(v, 1) + 0x1_0000 * le_byte(v, 2) + 0x100_0000 * le_byte(
            v,
            3,
        ) == v,
{
    reveal_with_fuel(pow256, 5);
    vstd::arithmetic::div_mod::lemma_fundamental_div_mod(v, 0x100);
    vstd::arithmetic::div_mod::lemma_div_denominator(v, 0x100, 0x100);
    vstd::arithmetic::div_mod::lemma_fundamental_div_mod(v / 0x100, 0x100);
    vstd::arithmetic::div_mod::lemma_div_denominator(v, 0x1_0000, 0x100);
    vstd::arithmetic::div_mod::lemma_fundamental_div_mod(v / 0x1_0000, 0x100);
    vstd::arithmetic::div_mod::lemma_div_pos_is_pos(v, 0x100_0000);
    vstd::arithmetic::div_mod::lemma_multiply_divide_lt(v, 0x100_0000, 0x100);
    vstd::arithmetic::div_mod::lemma_small_mod((v / 0x100_0000) as nat, 0x100);
}

/// Four byte digits that sum to a value are exactly its little-endian
/// bytes.
proof fn lemma_u32_le_unique(v: int, b0: u8, b1: u8, b2: u8, b3: u8)
    requires
        v == b0 + 0x100 * b1 + 0x1_0000 * b2 + 0x100_0000 * b3,
    ensures
        b0 == le_byte(v, 0),
        b1 == le_byte(v, 1),
        b2 == le_byte(v, 2),
        b3 == le_byte(v, 3),
{
    reveal_with_fuel(pow256, 5);
    let v1 = b1 + 0x100 * (b2 as int) + 0x1_0000 * (b3 as int);
    let v2 = b2 + 0x100 * (b3 as int);
    vstd::arithmetic::div_mod::lemma_fundamental_div_mod_converse_mod(v, 0x100, v1, b0 as int);
    vstd::arithmetic::div_mod::lemma_fundamental_div_mod_converse_div(v, 0x100, v1, b0 as int);
    vstd::arithmetic::div_mod::lemma_fundamental_div_mod_converse_mod(v1, 0x100, v2, b1 as int);
    vstd::arithmetic::div_mod::lemma_fundamental_div_mod_converse_div(v1, 0x100, v2, b1 as int);
    vstd::arithmetic::div_mod::lemma_fundamental_div_mod_converse_mod(
        v2,
        0x100,
        b3 as int,
        b2 as int,
    );
    vstd::arithmetic::div_mod::lemma_fundamental_div_mod_converse_div(
        v2,
        0x100,
        b3 as int,
        b2 as int,
    );
    vstd::arithmetic::div_mod::lemma_div_denominator(v, 0x100, 0x100);
    vstd::arithmetic::div_mod::lemma_div_denominator(v, 0x1_0000, 0x100);
    vstd::arithmetic::div_mod::lemma_small_mod(b3 as nat, 0x100);
}

/// Two byte digits that sum to a value are exactly its little-endian
/// bytes.
proof fn lemma_u16_le_unique(v: int, b0: u8, b1: u8)
    requires
        v == b0 + 0x100 * b1,
    ensures
        b0 == le_byte(v, 0),
        b1 == le_byte(v, 1),
{
    reveal_with_fuel(pow256, 3);
    vstd::arithmetic::div_mod::lemma_fundamental_div_mod_converse_mod(v, 0x100, b1 as int, b0 as int);
    vstd::arithmetic::div_mod::lemma_fundamental_div_mod_converse_div(v, 0x100, b1 as int, b0 as int);
    vstd::arithmetic::div_mod::lemma_small_mod(b1 as nat, 0x100);
}

/// The fixed 14-byte BMP file header.  The signature is always the two
/// ASCII characters "BM"; decoding rejects anything else.
pub struct FileHeader {
    /// Total file size in bytes, as declared by the file.
    pub size_file: u32,
    /// The four reserved bytes at offsets 6..10, preserved verbatim.
    pub reserved: [u8; 4],
    /// Byte offset at which the file claims its pixel data begins.
    pub pixel_start_of: u32,
}

/// The serialised form of a file header.
pub open spec fn file_header_bytes(h: FileHeader) -> Seq<u8> {
    Seq::new(
        14,
        |i: int|
            {
                if i == 0 {
                    66u8  // 'B'
                } else if i == 1 {
                    77u8  // 'M'
                } else if i < 6 {
                    le_byte(h.size_file as int, i - 2)
                } else if i < 10 {
                    h.reserved@[i - 6]
                } else {
                    le_byte(h.pixel_start_of as int, i - 10)
                }
            },
    )
}

impl FileHeader {
    /// Serialises the header to its 14 on-disk bytes.
    pub fn to_bytes(&self) -> (r: Vec<u8>)
        ensures
            r@ == file_header_bytes(*self),
    {
        let mut bytes: Vec<u8> = Vec::new();
        bytes.push(66);
        bytes.push(77);
        push_u32_le(&mut bytes, self.size_file);
        bytes.push(self.reserved[0]);
        bytes.push(self.reserved[1]);
        bytes.push(self.reserved[2]);
        bytes.push(self.reserved[3]);
        push_u32_le(&mut bytes, self.pixel_start_of);
        proof {
            assert(bytes@ =~= file_header_bytes(*self));
        }
        bytes
    }
}

/// The variable-length DIB (format) header.  Only the size, dimensions and
/// bit depth are modelled; all other header bytes are preserved verbatim.
pub struct DIBHeader {
    /// Every byte of the header as read from the file.
    pub bytes: Vec<u8>,
    /// Declared header size; equals `bytes.len()`.
    pub size_header: u32,
    /// Signed width; a negative value is a width of `|width|` columns.
    pub width: i32,
    /// Signed height; a negative value signals top-down row storage.
    pub height: i32,
    /// Bits per pixel; only 24 and 32 are accepted.
    pub bits_per_pixel: u16,
}

impl DIBHeader {
    /// The cached fields agree with the stored header bytes, and the header
    /// is long enough to contain all modelled fields.
    pub open spec fn wf(&self) -> bool {
        &&& 16 <= self.size_header
        &&& self.bytes@.len() == self.size_header
        &&& u32_of(self.bytes@, 0) == self.size_header
        &&& i32_of(self.bytes@, 4) == self.width
        &&& i32_of(self.bytes@, 8) == self.height
        &&& u16_of(self.bytes@, 14) == self.bits_per_pixel
    }

    /// Serialises the header: the modelled fields are re-encoded at their
    /// offsets and every other byte is passed through unchanged.
    pub fn to_bytes(&self) -> (r: Vec<u8>)
        requires
            self.wf(),
        ensures
            r@ == dib_header_bytes(*self),
    {
        let len: usize = self.bytes.len();
        let mut bytes: Vec<u8> = Vec::new();
        push_u32_le(&mut bytes, self.size_header);
        push_u32_le(&mut bytes, unsigned_of_i32(self.width));
        push_u32_le(&mut bytes, unsigned_of_i32(self.height));
        bytes.push(self.bytes[12]);
        bytes.push(self.bytes[13]);
        bytes.push((self.bits_per_pixel % 0x100) as u8);
        bytes.push((self.bits_per_pixel / 0x100) as u8);
        proof {
            reveal_with_fuel(pow256, 5);
        }
        for i in 16..len
            invariant
                bytes@.len() == i,
                len == self.bytes@.len(),
                forall|j: int| 0 <= j < i ==> bytes@[j] == dib_header_bytes(*self)[j],
                self.wf(),
        {
            bytes.push(self.bytes[i]);
            proof {
                assert(bytes@[i as int] == dib_header_bytes(*self)[i as int]);
            }
        }
        proof {
            assert(bytes@ =~= dib_header_bytes(*self));
        }
        bytes
    }
}

/// The serialised form of a DIB header: the modelled fields re-encoded in
/// place, every other byte passed through.
pub open spec fn dib_header_bytes(d: DIBHeader) -> Seq<u8> {
    Seq::new(
        d.bytes@.len(),
        |i: int|
            {
                if i < 4 {
                    le_byte(d.size_header as int, i)
                } else if i < 8 {
                    le_byte(unsigned32(d.width as int), i - 4)
                } else if i < 12 {
                    le_byte(unsigned32(d.height as int), i - 8)
                } else if i == 14 || i == 15 {
                    le_byte(d.bits_per_pixel as int, i - 14)
                } else {
                    d.bytes@[i]
                }
            },
    )
}

/// Bytes each pixel occupies on disk: 4 with an alpha channel, 3 without.
pub open spec fn bytes_per_pixel(alpha: bool) -> int {
    if alpha {
        4
    } else {
        3
    }
}

/// Filler bytes appended to each on-disk row so that it occupies a
/// multiple of four bytes.
pub open spec fn row_padding(width: int, bpp: int) -> int {
    (4 - (width * bpp) % 4) % 4
}

/// Bytes of one on-disk row, padding included.
pub open spec fn padded_row(width: int, bpp: int) -> int {
    width * bpp + row_padding(width, bpp)
}

/// Channel `k` of a pixel in on-disk order: blue, green, red, alpha.
/// A missing alpha serialises as 0.
pub open spec fn pixel_channel(p: RGB, k: int) -> u8 {
    if k == 0 {
        p.blue
    } else if k == 1 {
        p.green
    } else if k == 2 {
        p.red
    } else {
        match p.alpha {
            Some(a) => a,
            None => 0,
        }
    }
}

/// The decoded pixel grid together with its on-disk layout data.
pub struct Surface {
    /// Filler bytes per on-disk row.
    pub padding: usize,
    /// Pixels per row.
    pub row_size: u32,
    /// Number of rows.
    pub column_size: u32,
    /// Whether each pixel carries a fourth (alpha) byte.
    pub alpha_channel: bool,
    /// The pixels, in on-disk row order.
    pub pixels: Vec<RGB>,
}

impl Surface {
    /// Bytes each of this surface's pixels occupies on disk.
    pub open spec fn bpp(&self) -> int {
        bytes_per_pixel(self.alpha_channel)
    }

    /// Bytes of one of this surface's on-disk rows, padding included.
    pub open spec fn row_bytes(&self) -> int {
        padded_row(self.row_size as int, self.bpp())
    }

    /// The pixel count matches the dimensions, the padding matches the
    /// width and depth, the serialised surface fits in memory, and every
    /// pixel carries an alpha value exactly when the depth has one.
    pub open spec fn wf(&self) -> bool {
        &&& self.pixels@.len() == self.row_size * self.column_size
        &&& self.padding == row_padding(self.row_size as int, self.bpp())
        &&& self.row_bytes() * self.column_size <= usize::MAX
        &&& forall|i: int|
            0 <= i < self.pixels@.len() ==> ((#[trigger] self.pixels@[i].alpha) is Some
                <==> self.alpha_channel)
    }

    /// Serialises the pixel grid: rows in storage order, each pixel as
    /// blue, green, red and (at 32-bit depth) alpha, each row followed by
    /// `padding` zero bytes.
    pub fn to_bytes(&self) -> (r: Vec<u8>)
        requires
            self.wf(),
        ensures
            r@ == surface_bytes(*self),
    {
        let width: usize = self.row_size as usize;
        let height: usize = self.column_size as usize;
        let bpp: usize = if self.alpha_channel {
            4
        } else {
            3
        };
        let ghost rb: int = self.row_bytes();
        let ghost spec_bytes: Seq<u8> = surface_bytes(*self);
        let mut bytes: Vec<u8> = Vec::new();
        if width == 0 || height == 0 {
            proof {
                vstd::arithmetic::mul::lemma_mul_by_zero_is_zero(rb);
                vstd::arithmetic::mul::lemma_mul_by_zero_is_zero(self.column_size as int);
                assert(bytes@ =~= surface_bytes(*self));
            }
            return bytes;
        }
        proof {
            vstd::arithmetic::mul::lemma_mul_basics(rb);
        }
        for row in 0..height
            invariant
                self.wf(),
                width == self.row_size,
                height == self.column_size,
                1 <= width,
                1 <= height,
                bpp == self.bpp(),
                rb == self.row_bytes(),
                spec_bytes == surface_bytes(*self),
                bytes@.len() == row * rb,
                forall|j: int| 0 <= j < bytes@.len() ==> bytes@[j] == spec_bytes[j],
        {
            proof {
                lemma_rb_positive(*self);
                lemma_row_step(row as int, height as int, rb);
                vstd::arithmetic::mul::lemma_mul_basics(bpp as int);
            }
            for col in 0..width
                invariant
                    self.wf(),
                    width == self.row_size,
                    height == self.column_size,
                    1 <= width,
                    1 <= height,
                    bpp == self.bpp(),
                    rb == self.row_bytes(),
                    spec_bytes == surface_bytes(*self),
                    row < height,
                    bytes@.len() == row * rb + col * bpp,
                    forall|j: int| 0 <= j < bytes@.len() ==> bytes@[j] == spec_bytes[j],
            {
                proof {
                    lemma_row_step(row as int, height as int, width as int);
                    vstd::arithmetic::mul::lemma_mul_is_commutative(
                        width as int,
                        height as int,
                    );
                    vstd::std_specs::vec::axiom_spec_len(&self.pixels);
                    assert(row * width + col < self.pixels@.len());
                }
                let p: RGB = self.pixels[row * width + col];
                proof {
                    lemma_surface_byte_at(*self, row as int, col as int, 0);
                    lemma_surface_byte_at(*self, row as int, col as int, 1);
                    lemma_surface_byte_at(*self, row as int, col as int, 2);
                    if bpp == 4 {
                        lemma_surface_byte_at(*self, row as int, col as int, 3);
                    }
                }
                bytes.push(p.blue);
                bytes.push(p.green);
                bytes.push(p.red);
                if bpp == 4 {
                    let a: u8 = match p.alpha {
                        Some(v) => v,
                        None => 0,
                    };
                    bytes.push(a);
                }
                proof {
                    vstd::arithmetic::mul::lemma_mul_is_distributive_add_other_way(
                        bpp as int,
                        col as int,
                        1,
                    );
                }
            }
            for pad in 0..self.padding
                invariant
                    self.wf(),
                    width == self.row_size,
                    height == self.column_size,
                    1 <= width,
                    1 <= height,
                    bpp == self.bpp(),
                    rb == self.row_bytes(),
                    spec_bytes == surface_bytes(*self),
                    row < height,
                    bytes@.len() == row * rb + width * bpp + pad,
                    forall|j: int| 0 <= j < bytes@.len() ==> bytes@[j] == spec_bytes[j],
            {
                proof {
                    lemma_surface_pad_at(*self, row as int, width * bpp + pad);
                }
                bytes.push(0);
            }
            proof {
                vstd::arithmetic::mul::lemma_mul_is_distributive_add_other_way(
                    rb,
                    row as int,
                    1,
                );
            }
        }
        proof {
            vstd::arithmetic::mul::lemma_mul_is_commutative(rb, self.column_size as int);
            assert(bytes@ =~= surface_bytes(*self));
        }
        bytes
    }
}

/// The serialised form of a surface.
pub open spec fn surface_bytes(s: Surface) -> Seq<u8> {
    Seq::new(
        (s.row_bytes() * s.column_size) as nat,
        |i: int|
            {
                let row = i / s.row_bytes();
                let off = i % s.row_bytes();
                if off < s.row_size * s.bpp() {
                    pixel_channel(s.pixels@[row * s.row_size + off / s.bpp()], off % s.bpp())
                } else {
                    0u8
                }
            },
    )
}

/// A surface with at least one pixel per row occupies at least one byte
/// per row.
proof fn lemma_rb_positive(s: Surface)
    requires
        s.wf(),
        s.row_size >= 1,
    ensures
        s.row_bytes() >= 3,
{
    vstd::arithmetic::mul::lemma_mul_inequality(1, s.row_size as int, s.bpp());
}

/// For nonnegative `a < b` and positive `c`: `a * c + c <= b * c`.
proof fn lemma_row_step(a: int, b: int, c: int)
    requires
        0 <= a < b,
        0 < c,
    ensures
        a * c + c <= b * c,
        0 <= a * c,
{
    vstd::arithmetic::mul::lemma_mul_is_distributive_add_other_way(c, a, 1);
    vstd::arithmetic::mul::lemma_mul_inequality(a + 1, b, c);
    vstd::arithmetic::mul::lemma_mul_nonnegative(a, c);
}

/// Splits the flat index `row * rb + off` back into its row and offset.
proof fn lemma_flat_index(i: int, row: int, off: int, rb: int)
    requires
        0 < rb,
        0 <= off < rb,
        0 <= row,
        i == row * rb + off,
    ensures
        i / rb == row,
        i % rb == off,
{
    vstd::arithmetic::div_mod::lemma_fundamental_div_mod_converse_div(i, rb, row, off);
    vstd::arithmetic::div_mod::lemma_fundamental_div_mod_converse_mod(i, rb, row, off);
}

/// The serialised surface holds channel `k` of the pixel at `(row, col)`
/// at flat index `row * row_bytes + col * bpp + k`.
proof fn lemma_surface_byte_at(s: Surface, row: int, col: int, k: int)
    requires
        s.wf(),
        0 <= row < s.column_size,
        0 <= col < s.row_size,
        0 <= k < s.bpp(),
    ensures
        0 <= row * s.row_bytes() + col * s.bpp() + k < s.row_bytes() * s.column_size,
        surface_bytes(s)[row * s.row_bytes() + col * s.bpp() + k] == pixel_channel(
            s.pixels@[row * s.row_size + col],
            k,
        ),
{
    let rb = s.row_bytes();
    let bpp = s.bpp();
    let off = col * bpp + k;
    let i = row * rb + off;
    lemma_row_step(col, s.row_size as int, bpp);
    assert(off < s.row_size * bpp);
    assert(s.row_size * bpp <= rb);
    lemma_row_step(row, s.column_size as int, rb);
    vstd::arithmetic::mul::lemma_mul_is_commutative(rb, s.column_size as int);
    assert(i < rb * s.column_size);
    lemma_flat_index(i, row, off, rb);
    lemma_flat_index(off, col, k, bpp);
    assert(surface_bytes(s)[i] == pixel_channel(s.pixels@[row * s.row_size + off / bpp], off % bpp));
}

/// The serialised surface holds a zero byte at every padding position.
proof fn lemma_surface_pad_at(s: Surface, row: int, off: int)
    requires
        s.wf(),
        0 <= row < s.column_size,
        s.row_size * s.bpp() <= off < s.row_bytes(),
    ensures
        0 <= row * s.row_bytes() + off < s.row_bytes() * s.column_size,
        surface_bytes(s)[row * s.row_bytes() + off] == 0u8,
{
    let rb = s.row_bytes();
    let i = row * rb + off;
    lemma_row_step(row, s.column_size as int, rb);
    vstd::arithmetic::mul::lemma_mul_is_commutative(rb, s.column_size as int);
    assert(i < rb * s.column_size);
    lemma_flat_index(i, row, off, rb);
}

/// Why a byte string was rejected by the decoder.
#[derive(Debug, Clone, Copy, PartialEq, Eq, Structural)]
pub enum DecodeError {
    /// The data ends before a header field or the pixel area does.
    Truncated,
    /// The first two bytes are not the ASCII characters "BM".
    BadSignature,
    /// The bit depth is neither 24 nor 32.
    UnsupportedDepth,
}

/// The magnitude of a signed value.
pub open spec fn abs_of(x: int) -> int {
    if x >= 0 {
        x
    } else {
        -x
    }
}

/// The declared DIB header size of a BMP byte string.
pub open spec fn parse_header_size(s: Seq<u8>) -> int {
    u32_of(s, 14)
}

/// The signed width field of a BMP byte string.
pub open spec fn parse_width(s: Seq<u8>) -> int {
    i32_of(s, 18)
}

/// The signed height field of a BMP byte string.
pub open spec fn parse_height(s: Seq<u8>) -> int {
    i32_of(s, 22)
}

/// The bits-per-pixel field of a BMP byte string.
pub open spec fn parse_bits(s: Seq<u8>) -> int {
    u16_of(s, 28)
}

/// Bytes per pixel declared by a BMP byte string.
pub open spec fn parse_bpp(s: Seq<u8>) -> int {
    parse_bits(s) / 8
}

/// The offset at which the pixel area starts: directly after the two
/// headers.
pub open spec fn parse_pixel_offset(s: Seq<u8>) -> int {
    14 + parse_header_size(s)
}

/// Bytes per on-disk pixel row, padding included, of a BMP byte string.
pub open spec fn parse_row_bytes(s: Seq<u8>) -> int {
    padded_row(abs_of(parse_width(s)), parse_bpp(s))
}

/// Bytes the whole pixel area occupies.
pub open spec fn parse_pixel_bytes(s: Seq<u8>) -> int {
    parse_row_bytes(s) * abs_of(parse_height(s))
}

/// Whether the byte string is a BMP file this codec accepts: the "BM"
/// signature, a DIB header that is declared long enough to hold the
/// modelled fields and is fully present, a bit depth of 24 or 32, and a
/// complete pixel area.
pub open spec fn decode_ok(s: Seq<u8>) -> bool {
    &&& s.len() >= 18
    &&& s[0] == 66 && s[1] == 77
    &&& parse_header_size(s) >= 16
    &&& 14 + parse_header_size(s) <= s.len()
    &&& (parse_bits(s) == 24 || parse_bits(s) == 32)
    &&& parse_pixel_offset(s) + parse_pixel_bytes(s) <= s.len()
}

/// The error the decoder reports for a byte string it rejects: the first
/// failing check, in the order the file is read.
pub open spec fn decode_err_of(s: Seq<u8>) -> DecodeError {
    if s.len() < 14 {
        DecodeError::Truncated
    } else if s[0] != 66 || s[1] != 77 {
        DecodeError::BadSignature
    } else if s.len() < 18 {
        DecodeError::Truncated
    } else if parse_header_size(s) < 16 {
        DecodeError::Truncated
    } else if 14 + parse_header_size(s) > s.len() {
        DecodeError::Truncated
    } else if parse_bits(s) != 24 && parse_bits(s) != 32 {
        DecodeError::UnsupportedDepth
    } else {
        DecodeError::Truncated
    }
}

/// The pixel the decoder reads at flat storage index `i`: the bytes of
/// pixel `(i / width, i % width)` of the pixel area, in blue, green, red,
/// alpha channel order.
pub open spec fn decoded_pixel(s: Seq<u8>, i: int) -> RGB {
    let w = abs_of(parse_width(s));
    let bpp = parse_bpp(s);
    let rb = parse_row_bytes(s);
    let base = parse_pixel_offset(s) + (i / w) * rb + (i % w) * bpp;
    RGB {
        red: s[base + 2],
        green: s[base + 1],
        blue: s[base],
        alpha: if bpp == 4 {
            Some(s[base + 3])
        } else {
            None
        },
    }
}

/// The full pixel sequence the decoder produces, in on-disk row order.
pub open spec fn decoded_pixels(s: Seq<u8>) -> Seq<RGB> {
    Seq::new((abs_of(parse_width(s)) * abs_of(parse_height(s))) as nat, |i: int| decoded_pixel(s, i))
}

/// A decoded bitmap: its two headers and its pixel surface.
pub struct Bitmap {
    /// The fixed 14-byte file header.
    pub file_header: FileHeader,
    /// The variable-length format header.
    pub dib_header: DIBHeader,
    /// The decoded pixel grid.
    pub surface: Surface,
}

/// The serialised form of a bitmap: file header, DIB header, pixel area.
pub open spec fn bitmap_bytes(b: Bitmap) -> Seq<u8> {
    file_header_bytes(b.file_header) + dib_header_bytes(b.dib_header) + surface_bytes(b.surface)
}

impl Bitmap {
    /// Columns of the image.
    pub open spec fn width_px(&self) -> int {
        abs_i32(self.dib_header.width)
    }

    /// Rows of the image.
    pub open spec fn height_px(&self) -> int {
        abs_i32(self.dib_header.height)
    }

    /// The pixel sequence, in on-disk row order.
    pub open spec fn pixel_seq(&self) -> Seq<RGB> {
        self.surface.pixels@
    }

    /// The headers are consistent with each other and with the surface,
    /// the depth is one the codec supports, and the serialised file fits
    /// in memory.
    pub open spec fn wf(&self) -> bool {
        &&& self.dib_header.wf()
        &&& self.surface.wf()
        &&& self.surface.row_size == self.width_px()
        &&& self.surface.column_size == self.height_px()
        &&& self.dib_header.bits_per_pixel == 24 || self.dib_header.bits_per_pixel == 32
        &&& self.surface.alpha_channel == (self.dib_header.bits_per_pixel == 32)
        &&& 14 + self.dib_header.size_header + self.surface.row_bytes() * self.surface.column_size
            <= usize::MAX
    }

    /// The number of pixel columns.
    pub fn widht(&self) -> (r: usize)
        ensures
            r == self.width_px(),
    {
        abs_exec(self.dib_header.width) as usize
    }

    /// The number of pixel rows.
    pub fn height(&self) -> (r: usize)
        ensures
            r == self.height_px(),
    {
        abs_exec(self.dib_header.height) as usize
    }

    /// The on-disk format of this image.
    pub fn format(&self) -> (r: super::Format)
        ensures
            r == super::Format::BMP,
    {
        super::Format::BMP
    }

    /// Bytes each pixel occupies on disk: the bits-per-pixel field
    /// divided by eight, so 3 or 4 for the supported depths.
    pub fn bytes_per_pixels(&self) -> (r: u16)
        ensures
            r == self.dib_header.bits_per_pixel / 8,
    {
        self.dib_header.bits_per_pixel / 8
    }

    /// The full pixel sequence, in storage order.
    pub fn get_pixels(&self) -> (r: &[RGB])
        ensures
            r@ == self.pixel_seq(),
    {
        self.surface.pixels.as_slice()
    }

    /// A copy of the pixels in the linear index range `[start, end)`.
    pub fn get_slice_pixels(&self, start: usize, end: usize) -> (r: Vec<RGB>)
        requires
            start <= end <= self.pixel_seq().len(),
        ensures
            r@ == self.pixel_seq().subrange(start as int, end as int),
    {
        let s: &[RGB] = vstd::slice::slice_subrange(self.surface.pixels.as_slice(), start, end);
        vstd::slice::slice_to_vec(s)
    }

    /// The pixel at logical coordinate `(x, y)`, with the origin at the
    /// top left: storage index `total - 1 - (y * width + x)`.  `None`
    /// outside the image.
    pub fn get_pixel(&self, x: usize, y: usize) -> (r: Option<RGB>)
        requires
            self.wf(),
        ensures
            match r {
                Some(p) => x < self.width_px() && y < self.height_px() && p == self.pixel_seq()[
                    self.pixel_seq().len() - 1 - (y * self.width_px() + x)
                ],
                None => !(x < self.width_px() && y < self.height_px()),
            },
    {
        let w: usize = self.widht();
        let h: usize = self.height();
        if x >= w || y >= h {
            return None;
        }
        proof {
            lemma_row_step(y as int, h as int, w as int);
            vstd::arithmetic::mul::lemma_mul_is_commutative(w as int, h as int);
            vstd::std_specs::vec::axiom_spec_len(&self.surface.pixels);
            assert(y * w + x < self.pixel_seq().len());
        }
        let index: usize = (self.surface.pixels.len() - 1) - (y * w + x);
        Some(self.surface.pixels[index])
    }

    /// Writes the pixel at logical coordinate `(x, y)` (same indexing as
    /// `get_pixel`) and reports whether the coordinate was inside the
    /// image.  The value must carry an alpha channel exactly when the
    /// image does.
    pub fn set_pixel(&mut self, x: usize, y: usize, value: RGB) -> (r: bool)
        requires
            old(self).wf(),
            value.alpha is Some <==> old(self).surface.alpha_channel,
        ensures
            final(self).wf(),
            final(self).file_header == old(self).file_header,
            final(self).dib_header == old(self).dib_header,
            final(self).surface.row_size == old(self).surface.row_size,
            final(self).surface.column_size == old(self).surface.column_size,
            final(self).surface.alpha_channel == old(self).surface.alpha_channel,
            final(self).surface.padding == old(self).surface.padding,
            r == (x < old(self).width_px() && y < old(self).height_px()),
            r ==> final(self).pixel_seq() == old(self).pixel_seq().update(
                old(self).pixel_seq().len() - 1 - (y * old(self).width_px() + x),
                value,
            ),
            !r ==> final(self).pixel_seq() == old(self).pixel_seq(),
    {
        let w: usize = self.widht();
        let h: usize = self.height();
        if x >= w || y >= h {
            return false;
        }
        proof {
            lemma_row_step(y as int, h as int, w as int);
            vstd::arithmetic::mul::lemma_mul_is_commutative(w as int, h as int);
            vstd::std_specs::vec::axiom_spec_len(&self.surface.pixels);
            assert(y * w + x < self.pixel_seq().len());
        }
        let index: usize = (self.surface.pixels.len() - 1) - (y * w + x);
        self.surface.pixels[index] = value;
        true
    }

    /// Applies a filter to this image in place and passes its result
    /// through unchanged.
    pub fn filter<F: crate::filters::Filter>(&mut self, filter: F) -> (r: Result<
        (),
        crate::filters::FilterError,
    >)
        requires
            old(self).wf(),
            filter.valid_for(&*old(self)),
        ensures
            final(self).wf(),
            r is Ok,
            final(self).file_header == old(self).file_header,
            final(self).dib_header == old(self).dib_header,
            final(self).surface.row_size == old(self).surface.row_size,
            final(self).surface.column_size == old(self).surface.column_size,
            final(self).surface.alpha_channel == old(self).surface.alpha_channel,
            final(self).surface.padding == old(self).surface.padding,
            final(self).pixel_seq() == filter.output(
                old(self).pixel_seq(),
                old(self).width_px(),
                old(self).height_px(),
            ),
    {
        filter.apply(self)
    }

    /// The file size declared by the file header.
    pub fn size_in_bytes(&self) -> (r: u32)
        ensures
            r == self.file_header.size_file,
    {
        self.file_header.size_file
    }

    /// The two-character file signature.
    pub fn identify(&self) -> (r: &'static str)
        ensures
            r@ == seq!['B', 'M'],
    {
        let s = "BM";
        proof {
            reveal_strlit("BM");
        }
        s
    }

    /// Serialises the bitmap back to its on-disk bytes.
    pub fn encode(&self) -> (r: Vec<u8>)
        requires
            self.wf(),
        ensures
            r@ == bitmap_bytes(*self),
    {
        let mut out = self.file_header.to_bytes();
        let mut dib = self.dib_header.to_bytes();
        let mut surf = self.surface.to_bytes();
        out.append(&mut dib);
        out.append(&mut surf);
        proof {
            assert(out@ =~= bitmap_bytes(*self));
        }
        out
    }

    /// Decodes a BMP byte string.  Succeeds exactly on the inputs
    /// `decode_ok` accepts; any shortfall of bytes is a truncation error
    /// and an unknown depth or signature is reported as such.
    #[verifier::rlimit(100)]
    pub fn decode(data: &[u8]) -> (r: Result<Bitmap, DecodeError>)
        ensures
            match r {
                Ok(b) => {
                    &&& decode_ok(data@)
                    &&& b.wf()
                    &&& b.file_header.size_file == u32_of(data@, 2)
                    &&& b.file_header.reserved@ == data@.subrange(6, 10)
                    &&& b.file_header.pixel_start_of == u32_of(data@, 10)
                    &&& b.dib_header.bytes@ == data@.subrange(14, 14 + parse_header_size(data@))
                    &&& b.dib_header.size_header == parse_header_size(data@)
                    &&& b.dib_header.width == parse_width(data@)
                    &&& b.dib_header.height == parse_height(data@)
                    &&& b.dib_header.bits_per_pixel == parse_bits(data@)
                    &&& b.surface.pixels@ == decoded_pixels(data@)
                },
                Err(e) => !decode_ok(data@) && e == decode_err_of(data@),
            },
    {
        let n: usize = data.len();
        if n < 14 {
            return Err(DecodeError::Truncated);
        }
        if data[0] != 66 || data[1] != 77 {
            return Err(DecodeError::BadSignature);
        }
        if n < 18 {
            return Err(DecodeError::Truncated);
        }
        let hs: u32 = read_u32(data, 14);
        if hs < 16 {
            return Err(DecodeError::Truncated);
        }
        if (n as u64) < 14u64 + hs as u64 {
            return Err(DecodeError::Truncated);
        }
        let width: i32 = read_i32(data, 18);
        let height: i32 = read_i32(data, 22);
        let bits: u16 = read_u16(data, 28);
        if bits != 24 && bits != 32 {
            return Err(DecodeError::UnsupportedDepth);
        }
        let bpp: usize = if bits == 32 {
            4
        } else {
            3
        };
        let w: u32 = abs_exec(width);
        let h: u32 = abs_exec(height);
        proof {
            vstd::arithmetic::mul::lemma_mul_upper_bound(w as int, 0x1_0000_0000, bpp as int, 4);
        }
        let wb: u64 = w as u64 * bpp as u64;
        let m: u64 = wb % 4;
        let pad64: u64 = if m == 0 {
            0
        } else {
            4 - m
        };
        proof {
            lemma_row_padding_form(w as int, bpp as int);
        }
        let rb: u64 = wb + pad64;
        proof {
            vstd::arithmetic::mul::lemma_mul_upper_bound(
                rb as int,
                0x4_0000_0004,
                h as int,
                0x1_0000_0000,
            );
        }
        let needed: u128 = rb as u128 * h as u128;
        let off: u64 = 14u64 + hs as u64;
        if (n as u128) < off as u128 + needed {
            return Err(DecodeError::Truncated);
        }
        let offu: usize = off as usize;
        // File header fields.
        let size_file: u32 = read_u32(data, 2);
        let reserved: [u8; 4] = [data[6], data[7], data[8], data[9]];
        let pixel_start_of: u32 = read_u32(data, 10);
        // The DIB header is kept verbatim.
        let hsu: usize = hs as usize;
        let mut dib_bytes: Vec<u8> = Vec::new();
        for i in 0..hsu
            invariant
                dib_bytes@.len() == i,
                hsu == hs,
                n == data@.len(),
                14 + hsu <= n,
                forall|j: int| 0 <= j < i ==> dib_bytes@[j] == data@[14 + j],
        {
            dib_bytes.push(data[14 + i]);
        }
        proof {
            assert(dib_bytes@ =~= data@.subrange(14, 14 + hs));
        }
        // The pixel area.
        let wu: usize = w as usize;
        let hu: usize = h as usize;
        let mut pixels: Vec<RGB> = Vec::new();
        let ghost spec_pixels: Seq<RGB> = decoded_pixels(data@);
        if wu > 0 && hu > 0 {
            proof {
                vstd::arithmetic::mul::lemma_mul_inequality(1, hu as int, rb as int);
                vstd::arithmetic::mul::lemma_mul_is_commutative(hu as int, rb as int);
                vstd::arithmetic::mul::lemma_mul_basics(wu as int);
            }
            let rbu: usize = rb as usize;
            for row in 0..hu
                invariant
                    decode_ok(data@),
                    spec_pixels == decoded_pixels(data@),
                    1 <= wu,
                    1 <= hu,
                    wu == abs_of(parse_width(data@)),
                    hu == abs_of(parse_height(data@)),
                    bpp == parse_bpp(data@),
                    rbu == parse_row_bytes(data@),
                    offu == parse_pixel_offset(data@),
                    n == data@.len(),
                    offu + rbu * hu <= n,
                    bpp == 3 || bpp == 4,
                    pixels@.len() == row * wu,
                    forall|j: int| 0 <= j < pixels@.len() ==> pixels@[j] == spec_pixels[j],
            {
                for col in 0..wu
                    invariant
                        decode_ok(data@),
                        spec_pixels == decoded_pixels(data@),
                        1 <= wu,
                        1 <= hu,
                        row < hu,
                        wu == abs_of(parse_width(data@)),
                        hu == abs_of(parse_height(data@)),
                        bpp == parse_bpp(data@),
                        rbu == parse_row_bytes(data@),
                        offu == parse_pixel_offset(data@),
                        n == data@.len(),
                        offu + rbu * hu <= n,
                        bpp == 3 || bpp == 4,
                        pixels@.len() == row * wu + col,
                        forall|j: int| 0 <= j < pixels@.len() ==> pixels@[j] == spec_pixels[j],
                {
                    proof {
                        lemma_row_step(col as int, wu as int, bpp as int);
                        assert(wu * bpp <= rbu) by {
                            lemma_row_padding_nonneg(wu as int, bpp as int);
                        }
                        lemma_row_step(row as int, hu as int, rbu as int);
                        vstd::arithmetic::mul::lemma_mul_is_commutative(rbu as int, hu as int);
                        assert(row * rbu + col * bpp + bpp <= rbu * hu);
                    }
                    let base: usize = offu + row * rbu + col * bpp;
                    let alpha: Option<u8> = if bpp == 4 {
                        Some(data[base + 3])
                    } else {
                        None
                    };
                    let p = RGB {
                        red: data[base + 2],
                        green: data[base + 1],
                        blue: data[base],
                        alpha,
                    };
                    proof {
                        lemma_row_step(row as int, hu as int, wu as int);
                        lemma_flat_index(
                            row as int * wu as int + col as int,
                            row as int,
                            col as int,
                            wu as int,
                        );
                        vstd::arithmetic::mul::lemma_mul_is_commutative(wu as int, hu as int);
                        assert(p == spec_pixels[row * wu + col]);
                    }
                    pixels.push(p);
                }
                proof {
                    vstd::arithmetic::mul::lemma_mul_is_distributive_add_other_way(
                        wu as int,
                        row as int,
                        1,
                    );
                }
            }
        } else {
            proof {
                vstd::arithmetic::mul::lemma_mul_by_zero_is_zero(wu as int);
                vstd::arithmetic::mul::lemma_mul_by_zero_is_zero(hu as int);
            }
        }
        proof {
            vstd::arithmetic::mul::lemma_mul_is_commutative(wu as int, hu as int);
            assert(pixels@ =~= spec_pixels);
        }
        let file_header = FileHeader { size_file, reserved, pixel_start_of };
        let dib_header = DIBHeader {
            bytes: dib_bytes,
            size_header: hs,
            width,
            height,
            bits_per_pixel: bits,
        };
        let surface = Surface {
            padding: (if m == 0 {
                0
            } else {
                (4 - m) as usize
            }),
            row_size: w,
            column_size: h,
            alpha_channel: bits == 32,
            pixels,
        };
        let b = Bitmap { file_header, dib_header, surface };
        proof {
            vstd::arithmetic::mul::lemma_mul_is_commutative(rb as int, h as int);
            assert(b.wf());
        }
        Ok(b)
    }
}

/// The padding formula written as a branch on the row remainder.
proof fn lemma_row_padding_form(w: int, bpp: int)
    requires
        0 <= w,
        0 < bpp,
    ensures
        row_padding(w, bpp) == if (w * bpp) % 4 == 0 {
            0int
        } else {
            4 - (w * bpp) % 4
        },
        0 <= row_padding(w, bpp) <= 3,
{
    let x = (w * bpp) % 4;
    assert(0 <= x < 4);
    if x == 0 {
        assert((4 - x) % 4 == 0);
    } else {
        vstd::arithmetic::div_mod::lemma_small_mod((4 - x) as nat, 4);
    }
}

/// Padding is nonnegative, so a padded row holds all its pixel bytes.
proof fn lemma_row_padding_nonneg(w: int, bpp: int)
    requires
        0 <= w,
        0 < bpp,
    ensures
        w * bpp <= padded_row(w, bpp),
{
    lemma_row_padding_form(w, bpp);
}

/// Reads the unsigned 16-bit little-endian value at `off`.
fn read_u16(data: &[u8], off: usize) -> (r: u16)
    requires
        off + 2 <= data@.len(),
    ensures
        r == u16_of(data@, off as int),
{
    data[off] as u16 + 0x100 * (data[off + 1] as u16)
}

/// Reads the unsigned 32-bit little-endian value at `off`.
fn read_u32(data: &[u8], off: usize) -> (r: u32)
    requires
        off + 4 <= data@.len(),
    ensures
        r == u32_of(data@, off as int),
{
    let _n: usize = data.len();
    let sub: &[u8] = vstd::slice::slice_subrange(data, off, off + 4);
    super::u32_from_le_bytes(sub)
}

/// Reads the signed 32-bit little-endian value at `off`.
fn read_i32(data: &[u8], off: usize) -> (r: i32)
    requires
        off + 4 <= data@.len(),
    ensures
        r == i32_of(data@, off as int),
{
    let _n: usize = data.len();
    let sub: &[u8] = vstd::slice::slice_subrange(data, off, off + 4);
    super::i32_from_le_bytes(sub)
}

impl super::Image for Bitmap {
    open spec fn pix(&self) -> Seq<RGB> {
        self.pixel_seq()
    }

    open spec fn img_width(&self) -> int {
        self.width_px()
    }

    open spec fn img_height(&self) -> int {
        self.height_px()
    }

    open spec fn img_wf(&self) -> bool {
        self.wf()
    }

    open spec fn img_format(&self) -> super::Format {
        super::Format::BMP
    }

    fn widht(&self) -> (r: usize) {
        self.widht()
    }

    fn height(&self) -> (r: usize) {
        self.height()
    }

    fn format(&self) -> super::Format {
        self.format()
    }

    fn bytes_per_pixels(&self) -> u16 {
        self.bytes_per_pixels()
    }

    fn get_pixels(&self) -> (r: &[RGB]) {
        self.get_pixels()
    }

    open spec fn has_alpha(&self) -> bool {
        self.surface.alpha_channel
    }

    fn get_pixel(&self, x: usize, y: usize) -> (r: Option<RGB>) {
        self.get_pixel(x, y)
    }

    fn set_pixel(&mut self, x: usize, y: usize, value: RGB) -> (r: bool) {
        self.set_pixel(x, y, value)
    }
}

/// A well-formed DIB header re-serialises to exactly its stored bytes.
pub proof fn lemma_dib_bytes_identity(d: DIBHeader)
    requires
        d.wf(),
    ensures
        dib_header_bytes(d) == d.bytes@,
{
    let b = d.bytes@;
    assert(u32_of(b, 0) == d.size_header);
    lemma_u32_le_unique(d.size_header as int, b[0], b[1], b[2], b[3]);
    assert(u32_of(b, 4) == unsigned32(d.width as int));
    lemma_u32_le_unique(unsigned32(d.width as int), b[4], b[5], b[6], b[7]);
    assert(u32_of(b, 8) == unsigned32(d.height as int));
    lemma_u32_le_unique(unsigned32(d.height as int), b[8], b[9], b[10], b[11]);
    lemma_u16_le_unique(d.bits_per_pixel as int, b[14], b[15]);
    assert(dib_header_bytes(d) =~= b);
}

/// Round trip: decoding what `encode` writes gives back the same
/// dimensions, bit depth, header fields and pixel sequence.  Together
/// with the contract of `decode` this says that decode of encode of a
/// decoded bitmap equals the first decode.
pub proof fn lemma_encode_decode_roundtrip(b: Bitmap)
    requires
        b.wf(),
    ensures
        ({
            let s = bitmap_bytes(b);
            &&& decode_ok(s)
            &&& parse_header_size(s) == b.dib_header.size_header
            &&& parse_width(s) == b.dib_header.width
            &&& parse_height(s) == b.dib_header.height
            &&& parse_bits(s) == b.dib_header.bits_per_pixel
            &&& u32_of(s, 2) == b.file_header.size_file
            &&& u32_of(s, 10) == b.file_header.pixel_start_of
            &&& s.subrange(6, 10) == b.file_header.reserved@
            &&& s.subrange(14, 14 + parse_header_size(s)) == b.dib_header.bytes@
            &&& decoded_pixels(s) == b.surface.pixels@
        }),
{
    let s = bitmap_bytes(b);
    let fh = file_header_bytes(b.file_header);
    let db = dib_header_bytes(b.dib_header);
    let sb = surface_bytes(b.surface);
    let hs = b.dib_header.size_header as int;
    let w = b.surface.row_size as int;
    let h = b.surface.column_size as int;
    let bpp = b.surface.bpp();
    let rb = b.surface.row_bytes();
    lemma_dib_bytes_identity(b.dib_header);
    assert(sb.len() == rb * h);
    vstd::arithmetic::mul::lemma_mul_nonnegative(rb, h);
    assert(s.len() == 14 + hs + rb * h);
    // The three regions of the serialised file.
    assert(forall|i: int| 0 <= i < 14 ==> s[i] == fh[i]);
    assert(forall|i: int| 0 <= i < hs ==> s[14 + i] == db[i]);
    assert(forall|i: int| 0 <= i < sb.len() ==> s[14 + hs + i] == sb[i]);
    // Parsed header fields.
    assert(parse_header_size(s) == hs) by {
        assert(u32_of(s, 14) == u32_of(db, 0));
    }
    assert(u32_of(s, 2) == b.file_header.size_file) by {
        reveal_with_fuel(pow256, 5);
        lemma_u32_le_roundtrip(b.file_header.size_file as int);
    }
    assert(u32_of(s, 10) == b.file_header.pixel_start_of) by {
        reveal_with_fuel(pow256, 5);
        lemma_u32_le_roundtrip(b.file_header.pixel_start_of as int);
    }
    assert(s.subrange(6, 10) =~= b.file_header.reserved@);
    assert(s.subrange(14, 14 + hs) =~= b.dib_header.bytes@);
    assert(parse_width(s) == b.dib_header.width) by {
        assert(u32_of(s, 18) == u32_of(db, 4));
        assert(i32_of(s, 18) == i32_of(b.dib_header.bytes@, 4));
    }
    assert(parse_height(s) == b.dib_header.height) by {
        assert(u32_of(s, 22) == u32_of(db, 8));
        assert(i32_of(s, 22) == i32_of(b.dib_header.bytes@, 8));
    }
    assert(parse_bits(s) == b.dib_header.bits_per_pixel) by {
        assert(u16_of(s, 28) == u16_of(db, 14));
    }
    // The parsed layout equals the surface's.
    assert(abs_of(parse_width(s)) == w);
    assert(abs_of(parse_height(s)) == h);
    assert(parse_bpp(s) == bpp);
    assert(parse_row_bytes(s) == rb);
    assert(parse_pixel_offset(s) == 14 + hs);
    assert(parse_pixel_bytes(s) == rb * h);
    assert(decode_ok(s));
    // The decoded pixels are the surface's pixels.
    let px = b.surface.pixels@;
    assert(px.len() == w * h);
    assert(decoded_pixels(s).len() == w * h);
    assert(forall|i: int| 0 <= i < w * h ==> decoded_pixels(s)[i] == px[i]) by {
        assert forall|i: int| 0 <= i < w * h implies decoded_pixels(s)[i] == px[i] by {
            lemma_decoded_pixel_matches(b, s, i);
        }
    }
    assert(decoded_pixels(s) =~= px);
}

/// One pixel of the re-decoded file equals the pixel the surface holds.
proof fn lemma_decoded_pixel_matches(b: Bitmap, s: Seq<u8>, i: int)
    requires
        b.wf(),
        s == bitmap_bytes(b),
        0 <= i < b.surface.row_size * b.surface.column_size,
        abs_of(parse_width(s)) == b.surface.row_size,
        parse_bpp(s) == b.surface.bpp(),
        parse_row_bytes(s) == b.surface.row_bytes(),
        parse_pixel_offset(s) == 14 + b.dib_header.size_header,
        forall|j: int|
            0 <= j < surface_bytes(b.surface).len() ==> s[14 + b.dib_header.size_header + j]
                == surface_bytes(b.surface)[j],
    ensures
        decoded_pixel(s, i) == b.surface.pixels@[i],
{
    let w = b.surface.row_size as int;
    let h = b.surface.column_size as int;
    let bpp = b.surface.bpp();
    let rb = b.surface.row_bytes();
    let hs = b.dib_header.size_header as int;
    if w == 0 {
        vstd::arithmetic::mul::lemma_mul_by_zero_is_zero(h);
        assert(false);
    }
    let row = i / w;
    let col = i % w;
    vstd::arithmetic::div_mod::lemma_fundamental_div_mod(i, w);
    vstd::arithmetic::div_mod::lemma_div_pos_is_pos(i, w);
    vstd::arithmetic::mul::lemma_mul_is_commutative(w, h);
    vstd::arithmetic::div_mod::lemma_multiply_divide_lt(i, w, h);
    assert(0 <= row < h);
    assert(0 <= col < w);
    vstd::arithmetic::mul::lemma_mul_is_commutative(w, row);
    assert(i == row * w + col);
    lemma_surface_byte_at(b.surface, row, col, 0);
    lemma_surface_byte_at(b.surface, row, col, 1);
    lemma_surface_byte_at(b.surface, row, col, 2);
    if bpp == 4 {
        lemma_surface_byte_at(b.surface, row, col, 3);
    }
    assert(b.surface.pixels@[i].alpha is Some <==> b.surface.alpha_channel);
}

/// The magnitude of a signed 32-bit value.
fn abs_exec(v: i32) -> (r: u32)
    ensures
        r == abs_i32(v),
{
    if v >= 0 {
        v as u32
    } else {
        (-(v as i64)) as u32
    }
}

/// The two's complement 32-bit representative of a signed value.
fn unsigned_of_i32(v: i32) -> (r: u32)
    ensures
        r == unsigned32(v as int),
{
    if v >= 0 {
        v as u32
    } else {
        let wide: i64 = v as i64 + 0x1_0000_0000;
        wide as u32
    }
}

/// Appends the four little-endian bytes of `v` to `bytes`.
fn push_u32_le(bytes: &mut Vec<u8>, v: u32)
    ensures
        final(bytes)@.len() == old(bytes)@.len() + 4,
        forall|k: int|
            0 <= k < 4 ==> final(bytes)@[old(bytes)@.len() + k] == le_byte(v as int, k),
        forall|i: int| 0 <= i < old(bytes)@.len() ==> final(bytes)@[i] == old(bytes)@[i],
{
    let b0: u8 = (v % 0x100) as u8;
    let b1: u8 = ((v / 0x100) % 0x100) as u8;
    let b2: u8 = ((v / 0x1_0000) % 0x100) as u8;
    let b3: u8 = ((v / 0x100_0000) % 0x100) as u8;
    proof {
        reveal_with_fuel(pow256, 5);
    }
    bytes.push(b0);
    bytes.push(b1);
    bytes.push(b2);
    bytes.push(b3);
}

} // verus!
