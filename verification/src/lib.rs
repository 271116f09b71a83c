//! Builder for a compact, random-accessible dbSNP index.
//!
//! The library ingests BED-format SNP records, buckets them by contig,
//! stores them in positional bins, and serialises one binary index file,
//! together with the planning helpers of the surrounding workflow. File
//! and thread handling live outside; everything here is pure logic over
//! byte vectors and is verified.

pub mod binstore;
pub mod bytes;
pub mod crc;
pub mod laws;
pub mod parse;
pub mod pipeline;
pub mod process;
pub mod readerbuf;
pub mod registry;
pub mod types;
pub mod writer;
