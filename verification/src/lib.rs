//! Verified ingestion library for a blockchain-transfer polling service.
//!
//! The library models one filtered transfer stream for one recipient: it
//! builds the outbound JSON-RPC request, decodes the upstream response into
//! transfer records, keeps a deduplicated hash-keyed store of canonically
//! serialized records, and advances a monotone "last fetched block" cursor.
//! Transport (the actual HTTP round trip) and the durable-memory substrate
//! are left to the embedding process; everything that decides or computes
//! lives here, with contracts.
//!
//! - [`hex`]: `0x`-hexadecimal block heights, both directions, round-trip
//!   proved.
//! - [`dec`]: fixed-point transfer values in smallest units, and their
//!   decimal digit form.
//! - [`record`]: the transfer record, its canonical string form, and the
//!   proof that serializing then parsing yields the record back.
//! - [`query`]: the request builder and the response decoder, the decoder
//!   specified by an exact grammar mirror.
//! - [`store`]: the deduplicated, insertion-ordered store of serialized
//!   records.
//! - [`service`]: the ingestion cycle controller and the read accessors.
//! - [`task`]: the four-stage scheduled task variant, its durable byte
//!   form, and the trigger-layer queue.
//! - [`laws`]: idempotent replay, cursor monotonicity, the empty-batch
//!   no-op, and lookup correctness, proved over the cycle's model.

pub mod dec;
pub mod hex;
pub mod laws;
pub mod query;
pub mod record;
pub mod service;
pub mod store;
pub mod task;
pub mod text;
