//! Normalizes heterogeneous event-log data — live structured-document queries
//! and imported binary/XML/delimited exports — into one uniform record schema,
//! and keeps a filtered, time-sorted view of the records seen so far.

pub mod adapter;
pub mod decode;
pub mod ext;
pub mod imports;
pub mod pipeline;
pub mod record;
pub mod text;
pub mod xml;
