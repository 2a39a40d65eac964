//! A streaming GZIP decoder that marks, at every DEFLATE block, where the
//! block lies in the input and in the output and what the window held, so
//! that decoding can later be taken up inside the stream.
//!
//! `reader` hands out the input by bytes and bits, `circle` is the sliding
//! window, `huffman` builds canonical decode tables, `header` reads member
//! headers, `checkpoint` gathers the checkpoints and `decompress` is the
//! decoder itself. `model` says what each transition of the decoder does and
//! `laws` what follows for every stream.

pub mod checkpoint;
pub mod checksum;
pub mod circle;
pub mod decompress;
pub mod errors;
pub mod header;
pub mod huffman;
pub mod laws;
pub mod model;
pub mod reader;
