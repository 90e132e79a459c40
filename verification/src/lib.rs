//! Random access into DEFLATE-compressed streams through an index of access points.
//!
//! An index is built in one forward pass over a raw, zlib or gzip stream. Each access
//! point of the index records where inflation may be resumed: the position in the
//! compressed stream, the number of bits left over from the preceding byte, the
//! position in the uncompressed data, and the 32 KiB of uncompressed data that come
//! before it. Extraction finds the nearest access point at or before a requested
//! offset, resumes there, and skips forward to the offset.
//!
//! The compressed stream is read from a `ByteSource`: a fixed sequence of bytes with a
//! read position, such as the `ByteCursor` over bytes in memory. What is promised of
//! a build or an extraction is promised over the bytes of the source; over a source
//! that is reliable, as the cursor is, nothing fails but what the index or the engine
//! makes fail.
//!
//! The inflate engine itself is not part of this crate. Index building and extraction
//! are written as drivers that say which engine primitive to run next and take the
//! engine's answer back, so that every decision between two engine calls is made, and
//! verified, here.
pub mod builder;
pub mod engine;
pub mod error;
pub mod extractor;
pub mod pushback;
pub mod reader;
pub mod serial;
pub mod source;
pub mod types;
pub mod zlib;
pub mod zran;
