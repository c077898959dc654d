//! Bounded-memory survey of a key-value store: classifies each key by its
//! value type, keeps the largest keys per type and totals per type, while a
//! driver walks the key space with a cursor and fetches metadata in
//! pipelined batches.
pub mod key_type;
pub mod stats;
pub mod fetch;
pub mod aggregate;
pub mod scan;
pub mod report;
