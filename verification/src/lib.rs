//! Decoding, re-encoding and in-place filtering of uncompressed Windows
//! bitmap (BMP) images.
//!
//! The codec parses the fixed 14-byte file header, a variable-length DIB
//! header, and the padded, bottom-up pixel area, and re-serialises them
//! byte-exactly.  Filters (box blur, Sobel edge detection, mirroring,
//! grayscale, channel inversion) mutate the decoded pixel buffer in place.
pub mod filters;
pub mod images;
