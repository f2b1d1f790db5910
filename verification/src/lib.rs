//! Verified core of an IPv4 proxy-list extractor.
//!
//! The library decodes a proprietary binary IP-classification database
//! (fixed header, fixed-width row table, pointer-indexed string fields)
//! and partitions its IPv4 address space into named category buckets,
//! producing deduplicated, sorted address and range lists per bucket.
//! All logic works on plain byte slices; opening and mapping the file,
//! running chunks on a thread pool, and writing the result out are left
//! to the surrounding program.

pub mod buckets;
pub mod header;
pub mod laws;
pub mod matcher;
pub mod output;
pub mod pipeline;
pub mod record;
pub mod text;
pub mod view;
