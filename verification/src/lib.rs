//! A hash-linked chain of records.
//!
//! Every record stores the MD5 digest of its own fields together with the
//! digest of the record before it, so that a change to any stored record can
//! be detected by recomputing digests and comparing links.
//!
//! - [`block`]: one record, its digest and its self-check;
//! - [`chain`]: records in order, and the check of their links;
//! - [`storage`]: the text in which a chain is kept, one line per record;
//! - [`digest`]: MD5 over a record's fields, in lowercase hexadecimal;
//! - [`split`]: cutting text into fields and lines;
//! - [`text`]: decimal numerals;
//! - [`clock`]: the time for new records.

pub mod block;
pub mod chain;
pub mod clock;
pub mod digest;
pub mod split;
pub mod storage;
pub mod text;

pub use block::Block;
pub use chain::Blockchain;
pub use clock::current_timestamp;
