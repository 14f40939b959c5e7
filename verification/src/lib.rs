//! Front end of a baseline JPEG/JFIF decoder: the marker-segment parser and
//! the entropy-coded scan decoder.
//!
//! Given a byte buffer, the library locates the start-of-image marker, walks
//! the marker-segment structure into a validated [`header::JPEGHeader`]
//! (dimensions, quantization tables, Huffman tables, color components, scan
//! parameters), extracts the byte-stuffed entropy-coded data, and Huffman
//! decodes it into a grid of 8x8 coefficient blocks.

pub mod bitreader;
pub mod component;
pub mod decoder;
pub mod error;
pub mod header;
pub mod huffman;
pub mod markers;
pub mod qtable;
pub mod segments;
pub mod stream;
pub mod zigzag;
