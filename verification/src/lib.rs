//! Reading, validating and decoding STRM v2 image streams.
pub mod text;
pub mod error;
pub mod reader;
pub mod metadata;
pub mod stream;
pub mod decode;
pub mod export;
