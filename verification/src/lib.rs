//! A verified adapter that exposes a browser-style key-value store as a
//! seekable asset source.
//!
//! The crate has two halves: [`value_reader`] holds an immutable byte buffer
//! together with a read cursor and proves the read/seek arithmetic over it;
//! [`storage`] models the external key-value store and translates asset-path
//! lookups into readers over the stored text's UTF-8 bytes.

pub mod storage;
pub mod value_reader;
