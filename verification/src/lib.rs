//! Offline lookup and substring search over a bilingual word lexicon.
//!
//! The lexicon's authoritative form is a remote XML document. This crate
//! holds the verified core: the entity model ([`lexicon`]), the XML decoder
//! ([`xml`]), the cache codec with a proved lossless round trip ([`cache`]),
//! the query engine ([`query`]) and the lexicon selector ([`common`]).
//! Network and file I/O live outside the library and hand it plain values.
pub mod cache;
pub mod common;
pub mod error;
pub mod lexicon;
pub mod query;
pub mod render;
pub mod xml;
