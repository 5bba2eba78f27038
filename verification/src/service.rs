//! The ingestion cycle controller and the read accessors.
//!
//! One cycle takes the upstream response body for a poll starting at
//! `from_block`, decodes it, upserts every record into the store under its
//! transaction hash, and — when the batch is non-empty — advances the
//! cursor to the highest block height observed in the batch. A decode
//! fault aborts the cycle with no mutation at all.

use vstd::prelude::*;
use vstd::string::*;
use crate::hex::{spec_hex_ok, spec_hex_value, hex_to_u64};
use crate::query::{
    decode_transfers_response, build_request_body, recs_view, spec_decode, spec_request_body,
    QueryError,
};
use crate::record::{
    record_from_string, record_to_string, spec_parse_record, spec_ser_record, wf_record,
    TransferRecordV,
};
use crate::store::{
    lemma_find_some_index, lemma_find_upsert, lemma_upsert_entries, lemma_upsert_wf, spec_find,
    spec_upsert, store_wf, TransferStore,
};

verus! {

/// The store entries after ingesting a batch, record by record from the
/// front, each under its hash.
pub open spec fn spec_ingest(
    es: Seq<(Seq<char>, Seq<char>)>,
    batch: Seq<TransferRecordV>,
) -> Seq<(Seq<char>, Seq<char>)>
    decreases batch.len(),
{
    if batch.len() == 0 {
        es
    } else {
        spec_ingest(
            spec_upsert(es, batch[0].hash, spec_ser_record(batch[0])),
            batch.drop_first(),
        )
    }
}

/// Ingesting one more record upserts it after the rest.
pub proof fn lemma_ingest_snoc(
    es: Seq<(Seq<char>, Seq<char>)>,
    batch: Seq<TransferRecordV>,
    rec: TransferRecordV,
)
    ensures
        spec_ingest(es, batch.push(rec)) == spec_upsert(
            spec_ingest(es, batch),
            rec.hash,
            spec_ser_record(rec),
        ),
    decreases batch.len(),
{
    if batch.len() == 0 {
        assert(batch.push(rec)[0] == rec);
        assert(batch.push(rec).drop_first() =~= Seq::<TransferRecordV>::empty());
        assert(spec_ingest(es, batch.push(rec)) == spec_ingest(
            spec_upsert(es, rec.hash, spec_ser_record(rec)),
            Seq::<TransferRecordV>::empty(),
        ));
        assert(spec_ingest(spec_upsert(es, rec.hash, spec_ser_record(rec)), Seq::empty())
            == spec_upsert(es, rec.hash, spec_ser_record(rec)));
        assert(spec_ingest(es, batch) == es);
    } else {
        assert(batch.push(rec)[0] == batch[0]);
        assert(batch.push(rec).drop_first() =~= batch.drop_first().push(rec));
        let es2 = spec_upsert(es, batch[0].hash, spec_ser_record(batch[0]));
        lemma_ingest_snoc(es2, batch.drop_first(), rec);
        assert(spec_ingest(es, batch.push(rec)) == spec_ingest(es2, batch.drop_first().push(rec)));
        assert(spec_ingest(es, batch) == spec_ingest(es2, batch.drop_first()));
    }
}

/// The highest block height observed in a batch (zero when empty).
pub open spec fn spec_batch_max(batch: Seq<TransferRecordV>) -> int
    decreases batch.len(),
{
    if batch.len() == 0 {
        0
    } else {
        let rest = spec_batch_max(batch.drop_last());
        let b = spec_hex_value(batch.last().block_num);
        if b >= rest {
            b
        } else {
            rest
        }
    }
}

/// The cursor a cycle returns: the batch's highest block height, or the
/// starting block unchanged when the batch is empty.
pub open spec fn spec_new_cursor(from_block: int, batch: Seq<TransferRecordV>) -> int {
    if batch.len() == 0 {
        from_block
    } else {
        spec_batch_max(batch)
    }
}

/// The batch maximum dominates every observed height and stays within the
/// cursor's range when all heights are well-formed.
pub proof fn lemma_batch_max_ge(batch: Seq<TransferRecordV>)
    requires
        forall|i: int| 0 <= i < batch.len() ==> spec_hex_ok((#[trigger] batch[i]).block_num),
    ensures
        0 <= spec_batch_max(batch) <= u64::MAX,
        forall|i: int|
            0 <= i < batch.len() ==> spec_hex_value((#[trigger] batch[i]).block_num)
                <= spec_batch_max(batch),
    decreases batch.len(),
{
    if batch.len() == 0 {
    } else {
        assert(forall|i: int|
            0 <= i < batch.drop_last().len() ==> #[trigger] batch.drop_last()[i] == batch[i]);
        lemma_batch_max_ge(batch.drop_last());
        crate::hex::lemma_hex_seq_val_nonneg(batch.last().block_num.skip(2));
        assert forall|i: int|
            0 <= i < batch.len() implies spec_hex_value((#[trigger] batch[i]).block_num)
            <= spec_batch_max(batch) by {
            if i < batch.len() - 1 {
                assert(batch.drop_last()[i] == batch[i]);
            }
        }
    }
}

/// Every stored value is a canonical record keyed by its own hash.
pub open spec fn entries_parse_ok(es: Seq<(Seq<char>, Seq<char>)>) -> bool {
    forall|i: int|
        0 <= i < es.len() ==> ((#[trigger] spec_parse_record(es[i].1)) matches Some(m) && m.hash
            == es[i].0)
}

/// The ingestion service: the configured recipient, the durable transfer
/// store, and the last-fetched-block cursor.
pub struct PaymentService {
    recipient: String,
    store: TransferStore,
    latest_block: u64,
}

impl PaymentService {
    /// The store's entries.
    pub closed spec fn entries(&self) -> Seq<(Seq<char>, Seq<char>)> {
        self.store@
    }

    /// The cursor: the last block height through which ingestion is
    /// confirmed complete.
    pub closed spec fn cursor(&self) -> u64 {
        self.latest_block
    }

    /// The configured recipient address.
    pub closed spec fn recipient(&self) -> Seq<char> {
        self.recipient@
    }

    /// The service invariant: distinct keys, and every stored value a
    /// canonical record under its own hash.
    pub open spec fn wf(&self) -> bool {
        store_wf(self.entries()) && entries_parse_ok(self.entries())
    }

    /// A fresh service with an empty store and the cursor at the genesis
    /// block.
    pub fn new(recipient: String, genesis_block: u64) -> (r: PaymentService)
        ensures
            r.wf(),
            r.entries() == Seq::<(Seq<char>, Seq<char>)>::empty(),
            r.cursor() == genesis_block,
            r.recipient() == recipient@,
    {
        PaymentService { recipient, store: TransferStore::new(), latest_block: genesis_block }
    }

    /// The outbound JSON-RPC request body for a poll starting at
    /// `from_block`.
    pub fn build_request(&self, from_block: u64) -> (r: String)
        ensures
            r@ == spec_request_body(self.recipient(), from_block as int),
    {
        build_request_body(self.recipient.as_str(), from_block)
    }

    /// The cursor value.
    pub fn get_last_fetched_block(&self) -> (r: u64)
        ensures
            r == self.cursor(),
    {
        self.latest_block
    }

    /// Every stored serialized record, in insertion order.
    pub fn get_transactions(&self) -> (r: Vec<String>)
        ensures
            r@.len() == self.entries().len(),
            forall|i: int| 0 <= i < r@.len() ==> (#[trigger] r@[i])@ == self.entries()[i].1,
    {
        self.store.list_all()
    }

    /// The stored transfer's value in smallest units, or absence when the
    /// hash is unknown.
    pub fn get_transaction_value(&self, hash: String) -> (r: Option<u128>)
        requires
            self.wf(),
        ensures
            r is Some <==> spec_find(self.entries(), hash@) is Some,
            r matches Some(v) ==> spec_parse_record(
                spec_find(self.entries(), hash@)->Some_0,
            ) matches Some(m) && v == m.value,
    {
        match self.store.get(&hash) {
            None => None,
            Some(s) => {
                proof {
                    lemma_find_some_index(self.entries(), hash@);
                }
                match record_from_string(s.as_str()) {
                    Some(rec) => Some(rec.value),
                    None => {
                        proof {
                            let es = self.entries();
                            let i = choose|i: int|
                                0 <= i < es.len() && (#[trigger] es[i]).0 == hash@ && es[i].1
                                    == spec_find(es, hash@)->Some_0;
                            assert(spec_parse_record(es[i].1) is Some);
                            assert(false);
                        }
                        None
                    },
                }
            },
        }
    }

    /// Runs one ingestion cycle on an already-fetched response body.
    ///
    /// On a decode fault nothing is mutated and the fault is returned. On
    /// success every record of the batch is upserted under its hash, and
    /// the returned cursor is the batch's highest block height — or
    /// `from_block` unchanged for an empty batch, in which case the stored
    /// cursor is untouched.
    pub fn run_cycle(&mut self, from_block: u64, body: &str) -> (r: Result<u64, QueryError>)
        requires
            old(self).wf(),
        ensures
            final(self).wf(),
            final(self).recipient() == old(self).recipient(),
            r is Ok <==> spec_decode(body@) is Some,
            spec_decode(body@) is None ==> (r matches Err(e) ==> e is Decode)
                && final(self).entries() == old(self).entries() && final(self).cursor() == old(
                self,
            ).cursor(),
            spec_decode(body@) matches Some(batch) ==> final(self).entries() == spec_ingest(
                old(self).entries(),
                batch,
            ) && final(self).cursor() == (if batch.len() > 0 {
                spec_batch_max(batch) as u64
            } else {
                old(self).cursor()
            }) && (r matches Ok(c) && c == spec_new_cursor(from_block as int, batch)),
    {
        let batch = match decode_transfers_response(body) {
            Ok(b) => b,
            Err(e) => {
                return Err(e);
            },
        };
        let ghost batch_v = recs_view(batch@);
        let ghost old_entries = self.entries();
        let n = batch.len();
        let mut i: usize = 0;
        while i < n
            invariant
                0 <= i <= n,
                n == batch@.len(),
                batch_v == recs_view(batch@),
                batch_v.len() == n,
                forall|k: int| 0 <= k < n ==> wf_record(#[trigger] batch_v[k]),
                forall|k: int| 0 <= k < n ==> #[trigger] batch@[k]@ == batch_v[k],
                self.entries() == spec_ingest(old_entries, batch_v.take(i as int)),
                store_wf(self.entries()),
                entries_parse_ok(self.entries()),
                self.latest_block == old(self).latest_block,
                self.recipient@ == old(self).recipient@,
            decreases n - i,
        {
            let rec = &batch[i];
            let key = rec.hash.clone();
            let val = record_to_string(rec);
            let ghost es_before = self.entries();
            proof {
                crate::record::lemma_record_round_trip(batch_v[i as int]);
                lemma_upsert_wf(es_before, key@, val@);
                lemma_upsert_entries(es_before, key@, val@);
            }
            self.store.upsert(key, val);
            proof {
                let ghost es_after = self.entries();
                assert(es_after == spec_upsert(
                    es_before,
                    batch_v[i as int].hash,
                    spec_ser_record(batch_v[i as int]),
                ));
                assert(batch_v.take(i + 1).drop_last() =~= batch_v.take(i as int));
                assert(batch_v.take(i + 1) =~= batch_v.take(i as int).push(batch_v[i as int]));
                lemma_ingest_snoc(old_entries, batch_v.take(i as int), batch_v[i as int]);
                assert(es_after == spec_ingest(old_entries, batch_v.take(i + 1)));
                assert(entries_parse_ok(es_after)) by {
                    assert forall|k: int|
                        0 <= k < es_after.len() implies (#[trigger] spec_parse_record(
                        es_after[k].1,
                    )) matches Some(m) && m.hash == es_after[k].0 by {
                        if es_after[k] == (
                            batch_v[i as int].hash,
                            spec_ser_record(batch_v[i as int]),
                        ) {
                            assert(spec_parse_record(spec_ser_record(batch_v[i as int]))
                                == Some(batch_v[i as int]));
                        } else {
                            let m = choose|m: int|
                                0 <= m < es_before.len() && #[trigger] es_before[m] == es_after[k];
                            assert(spec_parse_record(es_before[m].1) matches Some(mm)
                                && mm.hash == es_before[m].0);
                        }
                    }
                }
            }
            i = i + 1;
        }
        proof {
            assert(batch_v.take(n as int) =~= batch_v);
        }
        if n > 0 {
            let mut mx: u64 = 0;
            let mut k: usize = 0;
            proof {
                lemma_batch_max_ge(batch_v);
            }
            while k < n
                invariant
                    0 <= k <= n,
                    n == batch@.len(),
                    n >= 1,
                    batch_v.len() == n,
                    forall|m: int| 0 <= m < n ==> wf_record(#[trigger] batch_v[m]),
                    forall|m: int| 0 <= m < n ==> #[trigger] batch@[m]@ == batch_v[m],
                    mx == spec_batch_max(batch_v.take(k as int)),
                decreases n - k,
            {
                assert(batch@[k as int]@ == batch_v[k as int]);
                assert(spec_hex_ok(batch_v[k as int].block_num));
                let bn = match hex_to_u64(batch[k].block_num.as_str()) {
                    Some(b) => b,
                    None => {
                        proof {
                            assert(false);
                        }
                        0
                    },
                };
                assert(bn == spec_hex_value(batch_v[k as int].block_num));
                proof {
                    assert(batch_v.take(k + 1).drop_last() =~= batch_v.take(k as int));
                    assert(batch_v.take(k + 1).last() == batch_v[k as int]);
                }
                if bn > mx {
                    mx = bn;
                }
                k = k + 1;
            }
            proof {
                assert(batch_v.take(n as int) =~= batch_v);
            }
            self.latest_block = mx;
            Ok(mx)
        } else {
            Ok(from_block)
        }
    }

    /// Runs one ingestion cycle on a transport outcome: a transport fault
    /// is returned as such with nothing mutated; a fetched body goes
    /// through [`Self::run_cycle`].
    pub fn get_latest_external_transfer(
        &mut self,
        from_block: u64,
        transport: Result<String, String>,
    ) -> (r: Result<u64, QueryError>)
        requires
            old(self).wf(),
        ensures
            final(self).wf(),
            final(self).recipient() == old(self).recipient(),
            transport matches Err(m) ==> (r matches Err(e) && e matches QueryError::Transport(d)
                && d@ == m@) && final(self).entries() == old(self).entries() && final(self).cursor()
                == old(self).cursor(),
            transport matches Ok(body) ==> {
                &&& (r is Ok <==> spec_decode(body@) is Some)
                &&& spec_decode(body@) is None ==> (r matches Err(e) ==> e is Decode)
                    && final(self).entries() == old(self).entries() && final(self).cursor() == old(
                    self,
                ).cursor()
                &&& spec_decode(body@) matches Some(batch) ==> final(self).entries() == spec_ingest(
                    old(self).entries(),
                    batch,
                ) && final(self).cursor() == (if batch.len() > 0 {
                    spec_batch_max(batch) as u64
                } else {
                    old(self).cursor()
                }) && (r matches Ok(c) && c == spec_new_cursor(from_block as int, batch))
            },
    {
        match transport {
            Err(m) => Err(QueryError::Transport(m)),
            Ok(body) => self.run_cycle(from_block, body.as_str()),
        }
    }
}

} // verus!
