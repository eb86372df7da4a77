//! Measures how large a byte buffer is under several encodings (as it stands,
//! as a zlib stream, as a Brotli stream) and presents the sizes in
//! human-scaled units.

pub mod byte_fmt;
pub mod compress;
pub mod config;
pub mod encoding;
pub mod engine;
pub mod present;
pub mod table;
