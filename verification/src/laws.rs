//! Laws of the ingestion cycle, stated over the store and cycle models.
//!
//! These hold for every store content and every decoded batch; the cycle
//! controller's contracts connect them to the executable service.

use vstd::prelude::*;
use crate::hex::{spec_hex_ok, spec_hex_value};
use crate::record::{spec_parse_record, spec_ser_record, wf_record, TransferRecordV};
use crate::service::{
    lemma_batch_max_ge, lemma_ingest_snoc, spec_batch_max, spec_ingest, spec_new_cursor,
};
use crate::store::{lemma_find_upsert, spec_find, spec_upsert};

verus! {

/// The last record of a batch carrying a given hash, if any: the one whose
/// serialization an ingest leaves in the store under that hash.
pub open spec fn spec_batch_find_last(
    batch: Seq<TransferRecordV>,
    k: Seq<char>,
) -> Option<TransferRecordV>
    decreases batch.len(),
{
    if batch.len() == 0 {
        None
    } else if batch.last().hash == k {
        Some(batch.last())
    } else {
        spec_batch_find_last(batch.drop_last(), k)
    }
}

/// What an ingest leaves under each key: the serialization of the last
/// batch record with that hash, and otherwise whatever was there before.
pub proof fn lemma_find_ingest(
    es: Seq<(Seq<char>, Seq<char>)>,
    batch: Seq<TransferRecordV>,
    k: Seq<char>,
)
    ensures
        spec_find(spec_ingest(es, batch), k) == match spec_batch_find_last(batch, k) {
            Some(m) => Some(spec_ser_record(m)),
            None => spec_find(es, k),
        },
    decreases batch.len(),
{
    if batch.len() == 0 {
    } else {
        let b0 = batch.drop_last();
        let x = batch.last();
        assert(batch =~= b0.push(x));
        lemma_ingest_snoc(es, b0, x);
        lemma_find_upsert(spec_ingest(es, b0), x.hash, spec_ser_record(x), k);
        lemma_find_ingest(es, b0, k);
    }
}

/// Ingesting the same batch twice leaves the store's contents exactly as
/// one ingest does: replaying a cycle adds nothing and changes nothing.
pub proof fn lemma_ingest_idempotent(es: Seq<(Seq<char>, Seq<char>)>, batch: Seq<TransferRecordV>)
    ensures
        forall|k: Seq<char>|
            #[trigger] spec_find(spec_ingest(spec_ingest(es, batch), batch), k) == spec_find(
                spec_ingest(es, batch),
                k,
            ),
{
    assert forall|k: Seq<char>|
        #[trigger] spec_find(spec_ingest(spec_ingest(es, batch), batch), k) == spec_find(
            spec_ingest(es, batch),
            k,
        ) by {
        lemma_find_ingest(es, batch, k);
        lemma_find_ingest(spec_ingest(es, batch), batch, k);
    }
}

/// A successful cycle never moves the cursor backwards: when every height
/// in the batch is at least the starting block — which the upstream's
/// `fromBlock` filter grants — the returned cursor is at least the
/// starting block. Chained over cycles that each start from the previous
/// return value, returned cursors are non-decreasing.
pub proof fn lemma_cursor_monotonic(from_block: int, batch: Seq<TransferRecordV>)
    requires
        forall|i: int| 0 <= i < batch.len() ==> spec_hex_ok((#[trigger] batch[i]).block_num),
        forall|i: int|
            0 <= i < batch.len() ==> spec_hex_value((#[trigger] batch[i]).block_num) >= from_block,
    ensures
        spec_new_cursor(from_block, batch) >= from_block,
{
    if batch.len() > 0 {
        lemma_batch_max_ge(batch);
        assert(spec_hex_value(batch[0].block_num) <= spec_batch_max(batch));
    }
}

/// An empty batch is a no-op: the store keeps its entries and the cycle
/// returns the starting block unchanged.
pub proof fn lemma_empty_batch_noop(es: Seq<(Seq<char>, Seq<char>)>, from_block: int)
    ensures
        spec_ingest(es, Seq::<TransferRecordV>::empty()) == es,
        spec_new_cursor(from_block, Seq::<TransferRecordV>::empty()) == from_block,
{
}

/// After ingesting a batch that carries a record with hash `k`, the store
/// holds that record's serialization under `k`, and it parses back to the
/// record — so a value lookup under `k` yields that record's value.
pub proof fn lemma_lookup_after_ingest(
    es: Seq<(Seq<char>, Seq<char>)>,
    batch: Seq<TransferRecordV>,
    k: Seq<char>,
)
    requires
        spec_batch_find_last(batch, k) is Some,
        wf_record(spec_batch_find_last(batch, k)->Some_0),
    ensures
        spec_find(spec_ingest(es, batch), k) == Some(
            spec_ser_record(spec_batch_find_last(batch, k)->Some_0),
        ),
        spec_parse_record(spec_ser_record(spec_batch_find_last(batch, k)->Some_0)) == Some(
            spec_batch_find_last(batch, k)->Some_0,
        ),
{
    lemma_find_ingest(es, batch, k);
    crate::record::lemma_record_round_trip(spec_batch_find_last(batch, k)->Some_0);
}

} // verus!
