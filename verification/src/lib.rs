//! Reading, clearing and writing EXIF metadata inside PNG and WebP files held
//! in memory, with every length field and checksum kept consistent.
//!
//! A file is a byte vector. Operations that change it take it by mutable
//! reference, and their contracts say what it holds afterwards, also where
//! they fail. `png` and `webp` hold the two formats, each with the model of
//! its chunk stream beside the code; `png_proofs` and `webp_proofs` hold what
//! is proved of them: that a file still parses after every operation, that
//! clearing twice is clearing once, and that what was written is what is
//! read.

pub mod bytes;
pub mod checksum;
pub mod chunk;
pub mod compress;
pub mod error;
pub mod png;
pub mod png_proofs;
pub mod webp;
pub mod webp_proofs;
