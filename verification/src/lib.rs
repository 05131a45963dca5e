//! Streaming-style transformations over delimited-text records: row
//! filtering, same-schema file merging, row-count sharding, and a
//! paginated bulk exporter, all specified over sequences of byte-string
//! fields and verified against those specifications.

pub mod bytes;
pub mod codec;
pub mod errors;
pub mod export;
pub mod filter;
pub mod merge;
pub mod split;

pub use codec::filter_row;
pub use codec::filter_rows;
pub use codec::merge_csv;
pub use codec::split_csv;
