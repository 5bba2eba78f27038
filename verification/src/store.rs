//! The durable transfer store: a deduplicated, hash-keyed map of
//! canonically serialized transfer records, keeping insertion order.
//!
//! The embedding process is expected to persist the entries; the store's
//! discipline — unique keys, upsert-by-hash, order-preserving reads — is
//! what is verified here.

use vstd::prelude::*;
use vstd::string::*;

verus! {

/// First value stored under a key, if any.
pub open spec fn spec_find(es: Seq<(Seq<char>, Seq<char>)>, k: Seq<char>) -> Option<Seq<char>>
    decreases es.len(),
{
    if es.len() == 0 {
        None
    } else if es[0].0 == k {
        Some(es[0].1)
    } else {
        spec_find(es.drop_first(), k)
    }
}

/// Entries after inserting or overwriting the value under a key.
pub open spec fn spec_upsert(
    es: Seq<(Seq<char>, Seq<char>)>,
    k: Seq<char>,
    v: Seq<char>,
) -> Seq<(Seq<char>, Seq<char>)>
    decreases es.len(),
{
    if es.len() == 0 {
        seq![(k, v)]
    } else if es[0].0 == k {
        seq![(k, v)] + es.drop_first()
    } else {
        seq![es[0]] + spec_upsert(es.drop_first(), k, v)
    }
}

/// Entry keys are pairwise distinct.
pub open spec fn store_wf(es: Seq<(Seq<char>, Seq<char>)>) -> bool {
    forall|i: int, j: int| 0 <= i < j < es.len() ==> (#[trigger] es[i]).0 != (#[trigger] es[j]).0
}

/// Looking up after an upsert: the upserted key maps to the new value,
/// every other key is untouched.
pub proof fn lemma_find_upsert(
    es: Seq<(Seq<char>, Seq<char>)>,
    k: Seq<char>,
    v: Seq<char>,
    k2: Seq<char>,
)
    ensures
        spec_find(spec_upsert(es, k, v), k2) == if k2 == k {
            Some(v)
        } else {
            spec_find(es, k2)
        },
    decreases es.len(),
{
    let up = spec_upsert(es, k, v);
    if es.len() == 0 {
        assert(up == seq![(k, v)]);
        assert(up.drop_first() =~= Seq::<(Seq<char>, Seq<char>)>::empty());
    } else if es[0].0 == k {
        assert(up == seq![(k, v)] + es.drop_first());
        assert(up[0] == (k, v));
        assert(up.drop_first() =~= es.drop_first());
    } else {
        assert(up == seq![es[0]] + spec_upsert(es.drop_first(), k, v));
        assert(up[0] == es[0]);
        assert(up.drop_first() =~= spec_upsert(es.drop_first(), k, v));
        lemma_find_upsert(es.drop_first(), k, v, k2);
    }
}

/// An upsert keeps the keys distinct.
pub proof fn lemma_upsert_wf(es: Seq<(Seq<char>, Seq<char>)>, k: Seq<char>, v: Seq<char>)
    requires
        store_wf(es),
    ensures
        store_wf(spec_upsert(es, k, v)),
    decreases es.len(),
{
    let up = spec_upsert(es, k, v);
    if es.len() == 0 {
    } else if es[0].0 == k {
        assert forall|i: int, j: int| 0 <= i < j < up.len() implies (#[trigger] up[i]).0 != (
        #[trigger] up[j]).0 by {
            assert(up[j] == es[j]);
            if i > 0 {
                assert(up[i] == es[i]);
            } else {
                assert(up[0].0 == es[0].0);
            }
        }
    } else {
        lemma_upsert_wf(es.drop_first(), k, v);
        lemma_upsert_keys(es.drop_first(), k, v);
        let upr = spec_upsert(es.drop_first(), k, v);
        assert forall|i: int, j: int| 0 <= i < j < up.len() implies (#[trigger] up[i]).0 != (
        #[trigger] up[j]).0 by {
            if i == 0 {
                assert(up[0] == es[0]);
                assert(up[j] == upr[j - 1]);
                if upr[j - 1].0 == k {
                } else {
                    assert(exists|m: int|
                        0 <= m < es.drop_first().len() && (#[trigger] es.drop_first()[m]).0 == upr[
                            j - 1].0);
                    let m = choose|m: int|
                        0 <= m < es.drop_first().len() && (#[trigger] es.drop_first()[m]).0 == upr[
                            j - 1].0;
                    assert(es[m + 1].0 == upr[j - 1].0);
                }
            } else {
                assert(up[i] == upr[i - 1]);
                assert(up[j] == upr[j - 1]);
            }
        }
    }
}

/// Every key after an upsert is the upserted key or one already there.
pub proof fn lemma_upsert_keys(es: Seq<(Seq<char>, Seq<char>)>, k: Seq<char>, v: Seq<char>)
    ensures
        forall|i: int|
            0 <= i < spec_upsert(es, k, v).len() ==> (#[trigger] spec_upsert(es, k, v)[i]).0 == k
                || exists|m: int| 0 <= m < es.len() && (#[trigger] es[m]).0 == spec_upsert(
                es,
                k,
                v,
            )[i].0,
    decreases es.len(),
{
    let up = spec_upsert(es, k, v);
    if es.len() == 0 {
    } else if es[0].0 == k {
        assert forall|i: int| 0 <= i < up.len() implies (#[trigger] up[i]).0 == k || exists|m: int|
            0 <= m < es.len() && (#[trigger] es[m]).0 == up[i].0 by {
            if i > 0 {
                assert(up[i] == es[i]);
            }
        }
    } else {
        lemma_upsert_keys(es.drop_first(), k, v);
        let upr = spec_upsert(es.drop_first(), k, v);
        assert forall|i: int| 0 <= i < up.len() implies (#[trigger] up[i]).0 == k || exists|m: int|
            0 <= m < es.len() && (#[trigger] es[m]).0 == up[i].0 by {
            if i == 0 {
                assert(up[0] == es[0]);
                assert(es[0].0 == up[0].0);
            } else {
                assert(up[i] == upr[i - 1]);
                if upr[i - 1].0 == k {
                } else {
                    let m = choose|m: int|
                        0 <= m < es.drop_first().len() && (#[trigger] es.drop_first()[m]).0 == upr[
                            i - 1].0;
                    assert(es[m + 1].0 == up[i].0);
                }
            }
        }
    }
}

/// Every entry after an upsert is the upserted pair or one already there.
pub proof fn lemma_upsert_entries(es: Seq<(Seq<char>, Seq<char>)>, k: Seq<char>, v: Seq<char>)
    ensures
        forall|i: int|
            0 <= i < spec_upsert(es, k, v).len() ==> #[trigger] spec_upsert(es, k, v)[i] == (k, v)
                || exists|m: int| 0 <= m < es.len() && #[trigger] es[m] == spec_upsert(es, k, v)[i],
    decreases es.len(),
{
    let up = spec_upsert(es, k, v);
    if es.len() == 0 {
    } else if es[0].0 == k {
        assert forall|i: int| 0 <= i < up.len() implies #[trigger] up[i] == (k, v) || exists|m: int|
            0 <= m < es.len() && #[trigger] es[m] == up[i] by {
            if i > 0 {
                assert(es[i] == up[i]);
            }
        }
    } else {
        lemma_upsert_entries(es.drop_first(), k, v);
        let upr = spec_upsert(es.drop_first(), k, v);
        assert forall|i: int| 0 <= i < up.len() implies #[trigger] up[i] == (k, v) || exists|m: int|
            0 <= m < es.len() && #[trigger] es[m] == up[i] by {
            if i == 0 {
                assert(es[0] == up[0]);
            } else {
                assert(up[i] == upr[i - 1]);
                if upr[i - 1] == (k, v) {
                } else {
                    let m = choose|m: int|
                        0 <= m < es.drop_first().len() && #[trigger] es.drop_first()[m] == upr[i
                            - 1];
                    assert(es[m + 1] == up[i]);
                }
            }
        }
    }
}

/// A found value sits at some entry.
pub proof fn lemma_find_some_index(es: Seq<(Seq<char>, Seq<char>)>, k: Seq<char>)
    requires
        spec_find(es, k) is Some,
    ensures
        exists|i: int|
            0 <= i < es.len() && (#[trigger] es[i]).0 == k && es[i].1 == spec_find(es, k)->Some_0,
    decreases es.len(),
{
    if es.len() == 0 {
    } else if es[0].0 == k {
        assert(es[0].0 == k && es[0].1 == spec_find(es, k)->Some_0);
    } else {
        lemma_find_some_index(es.drop_first(), k);
        let i = choose|i: int|
            0 <= i < es.drop_first().len() && (#[trigger] es.drop_first()[i]).0 == k
                && es.drop_first()[i].1 == spec_find(es.drop_first(), k)->Some_0;
        assert(es[i + 1].0 == k && es[i + 1].1 == spec_find(es, k)->Some_0);
    }
}

/// The deduplicated, insertion-ordered store of serialized records.
pub struct TransferStore {
    entries: Vec<(String, String)>,
}

impl View for TransferStore {
    type V = Seq<(Seq<char>, Seq<char>)>;

    closed spec fn view(&self) -> Seq<(Seq<char>, Seq<char>)> {
        self.entries@.map_values(|p: (String, String)| (p.0@, p.1@))
    }
}

impl TransferStore {
    /// An empty store.
    pub fn new() -> (r: TransferStore)
        ensures
            r@ == Seq::<(Seq<char>, Seq<char>)>::empty(),
            store_wf(r@),
    {
        let r = TransferStore { entries: Vec::new() };
        proof {
            assert(r@ =~= Seq::<(Seq<char>, Seq<char>)>::empty());
        }
        r
    }

    /// How many records are stored.
    pub fn len(&self) -> (n: usize)
        ensures
            n == self@.len(),
    {
        self.entries.len()
    }

    /// Inserts or overwrites the value stored under `key`.
    pub fn upsert(&mut self, key: String, val: String)
        ensures
            final(self)@ == spec_upsert(old(self)@, key@, val@),
    {
        let n = self.entries.len();
        let mut i: usize = 0;
        while i < n
            invariant
                0 <= i <= n,
                n == self.entries@.len(),
                self@ == old(self)@,
                self.entries@ == old(self).entries@,
                forall|j: int| 0 <= j < i ==> (#[trigger] self@[j]).0 != key@,
            decreases n - i,
        {
            if self.entries[i].0 == key {
                assert(self@[i as int].0 == key@);
                let ghost old_view = self@;
                self.entries.set(i, (key, val));
                proof {
                    assert(self@ =~= old_view.update(i as int, (key@, val@)));
                    lemma_upsert_found(old_view, key@, val@, i as int);
                }
                return ;
            }
            assert(self@[i as int].0 != key@);
            i = i + 1;
        }
        let ghost old_view = self@;
        self.entries.push((key, val));
        proof {
            assert(self@ =~= old_view.push((key@, val@)));
            lemma_upsert_missing(old_view, key@, val@);
        }
    }

    /// Reads the value stored under `key`, if any.
    pub fn get(&self, key: &String) -> (r: Option<String>)
        ensures
            r is Some <==> spec_find(self@, key@) is Some,
            r matches Some(v) ==> spec_find(self@, key@) == Some(v@),
    {
        let n = self.entries.len();
        let mut i: usize = 0;
        while i < n
            invariant
                0 <= i <= n,
                n == self.entries@.len(),
                forall|j: int| 0 <= j < i ==> (#[trigger] self@[j]).0 != key@,
            decreases n - i,
        {
            if self.entries[i].0.eq(key) {
                assert(self@[i as int].0 == key@);
                proof {
                    lemma_find_found(self@, key@, i as int);
                }
                let v = self.entries[i].1.clone();
                return Some(v);
            }
            assert(self@[i as int].0 != key@);
            i = i + 1;
        }
        proof {
            lemma_find_missing(self@, key@);
        }
        None
    }

    /// Every stored serialized record, in insertion order.
    pub fn list_all(&self) -> (r: Vec<String>)
        ensures
            r@.len() == self@.len(),
            forall|i: int| 0 <= i < r@.len() ==> (#[trigger] r@[i])@ == self@[i].1,
    {
        let n = self.entries.len();
        let mut out: Vec<String> = Vec::new();
        let mut i: usize = 0;
        while i < n
            invariant
                0 <= i <= n,
                n == self.entries@.len(),
                out@.len() == i,
                forall|j: int| 0 <= j < i ==> (#[trigger] out@[j])@ == self@[j].1,
            decreases n - i,
        {
            let v = self.entries[i].1.clone();
            out.push(v);
            i = i + 1;
        }
        out
    }
}

/// An upsert at the first matching entry is an in-place update.
proof fn lemma_upsert_found(es: Seq<(Seq<char>, Seq<char>)>, k: Seq<char>, v: Seq<char>, idx: int)
    requires
        0 <= idx < es.len(),
        es[idx].0 == k,
        forall|j: int| 0 <= j < idx ==> (#[trigger] es[j]).0 != k,
    ensures
        spec_upsert(es, k, v) == es.update(idx, (k, v)),
    decreases idx,
{
    if idx == 0 {
        assert(spec_upsert(es, k, v) == seq![(k, v)] + es.drop_first());
        assert(seq![(k, v)] + es.drop_first() =~= es.update(0, (k, v)));
    } else {
        assert(es[0].0 != k);
        assert(forall|j: int|
            0 <= j < idx - 1 ==> (#[trigger] es.drop_first()[j]).0 == es[j + 1].0);
        lemma_upsert_found(es.drop_first(), k, v, idx - 1);
        assert(seq![es[0]] + es.drop_first().update(idx - 1, (k, v)) =~= es.update(idx, (k, v)));
    }
}

/// An upsert of an absent key appends the entry.
proof fn lemma_upsert_missing(es: Seq<(Seq<char>, Seq<char>)>, k: Seq<char>, v: Seq<char>)
    requires
        forall|j: int| 0 <= j < es.len() ==> (#[trigger] es[j]).0 != k,
    ensures
        spec_upsert(es, k, v) == es.push((k, v)),
    decreases es.len(),
{
    if es.len() == 0 {
        assert(spec_upsert(es, k, v) =~= es.push((k, v)));
    } else {
        assert(es[0].0 != k);
        assert(forall|j: int|
            0 <= j < es.drop_first().len() ==> (#[trigger] es.drop_first()[j]).0 == es[j + 1].0);
        lemma_upsert_missing(es.drop_first(), k, v);
        assert(seq![es[0]] + es.drop_first().push((k, v)) =~= es.push((k, v)));
    }
}

/// A lookup at the first matching entry yields its value.
proof fn lemma_find_found(es: Seq<(Seq<char>, Seq<char>)>, k: Seq<char>, idx: int)
    requires
        0 <= idx < es.len(),
        es[idx].0 == k,
        forall|j: int| 0 <= j < idx ==> (#[trigger] es[j]).0 != k,
    ensures
        spec_find(es, k) == Some(es[idx].1),
    decreases idx,
{
    if idx == 0 {
    } else {
        assert(es[0].0 != k);
        assert(forall|j: int|
            0 <= j < idx - 1 ==> (#[trigger] es.drop_first()[j]).0 == es[j + 1].0);
        lemma_find_found(es.drop_first(), k, idx - 1);
        assert(es.drop_first()[idx - 1] == es[idx]);
    }
}

/// A lookup of an absent key finds nothing.
proof fn lemma_find_missing(es: Seq<(Seq<char>, Seq<char>)>, k: Seq<char>)
    requires
        forall|j: int| 0 <= j < es.len() ==> (#[trigger] es[j]).0 != k,
    ensures
        spec_find(es, k) is None,
    decreases es.len(),
{
    if es.len() == 0 {
    } else {
        assert(es[0].0 != k);
        assert(forall|j: int|
            0 <= j < es.drop_first().len() ==> (#[trigger] es.drop_first()[j]).0 == es[j + 1].0);
        lemma_find_missing(es.drop_first(), k);
    }
}

} // verus!
