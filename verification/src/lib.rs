//! A verified encoder for the QOI ("Quite OK Image") format.
//!
//! The encoder turns a row-major buffer of 8-bit RGB or RGBA samples into a
//! 14-byte header, a stream of chunks (one per pixel) and an 8-byte end
//! marker. Every function carries a contract stated over sequences of bytes
//! and pixels, and Verus proves each body against it.

pub mod chunk;
pub mod concat;
pub mod decode;
pub mod encoder;
pub mod header;
pub mod image_file;
pub mod model;
pub mod pixel;
