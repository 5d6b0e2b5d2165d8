//! Navigation over an append-only, timestamp-sorted journal held as one
//! record per line.
//!
//! - `stream`: the bytes of the journal with a read position.
//! - `seek`: line boundaries around an arbitrary position.
//! - `order`: the order in which raw bytes compare.
//! - `bsearch`: binary search for a line by its leading bytes.
//! - `entry`, `error`: records, their line format and what can go wrong
//!   with it.
//! - `entries`: the cursor that reads records forward, backward, at an
//!   offset and from a timestamp on.
//! - `traversal`: the laws that tie those ways of reading together.
//! - `query`, `append`, `config`: the rules of the tools that read and
//!   write the journal.

pub mod append;
pub mod bsearch;
pub mod config;
pub mod entries;
pub mod entry;
pub mod error;
pub mod order;
pub mod query;
pub mod seek;
pub mod stream;
pub mod traversal;
