//! The scheduled task pipeline: the four-stage task variant, its durable
//! byte form, the stage dispatcher, and the trigger-layer queue.
//!
//! Only the transfer-fetch stage is wired into the ingestion cycle; the
//! per-transaction stages are declared extension points whose dispatch
//! arms produce no follow-on work yet. The queue guarantees the trigger
//! discipline: at most one fetch task is ever outstanding.

use vstd::prelude::*;
use vstd::string::*;
use crate::hex::{spec_u64_to_hex, u64_to_hex};
use crate::text::chars_to_string;

verus! {

/// One stage of the per-cycle / per-transaction workflow.
pub enum Task {
    /// Poll the upstream for transfers, starting at the carried
    /// `0x`-hexadecimal cursor hint.
    FetchTransfers(String),
    /// Fetch the value of the carried transaction hash.
    FetchTransactionValue(String),
    /// Fetch the receipt of the carried transaction hash.
    FetchTransactionReceipt(String),
    /// Verify the carried transaction hash.
    VerifyTransaction(String),
}

/// The stage's carried text.
pub open spec fn spec_task_payload(t: Task) -> Seq<char> {
    match t {
        Task::FetchTransfers(s) => s@,
        Task::FetchTransactionValue(s) => s@,
        Task::FetchTransactionReceipt(s) => s@,
        Task::VerifyTransaction(s) => s@,
    }
}

/// The stage's byte tag.
pub open spec fn spec_task_tag(t: Task) -> u8 {
    match t {
        Task::FetchTransfers(_) => 1u8,
        Task::FetchTransactionValue(_) => 2u8,
        Task::FetchTransactionReceipt(_) => 3u8,
        Task::VerifyTransaction(_) => 4u8,
    }
}

/// A character within the ASCII range.
pub open spec fn ascii_char(c: char) -> bool {
    0 <= (c as int) && (c as int) < 128
}

/// A storable task: its payload is plain ASCII text.
pub open spec fn task_wf(t: Task) -> bool {
    forall|i: int|
        0 <= i < spec_task_payload(t).len() ==> ascii_char(#[trigger] spec_task_payload(t)[i])
}

/// The durable byte form: the stage tag, then the payload bytes.
pub open spec fn spec_task_bytes(t: Task) -> Seq<u8> {
    seq![spec_task_tag(t)] + spec_task_payload(t).map_values(|c: char| c as u8)
}

/// The stage tag and payload a durable byte string denotes, if any: a
/// known tag followed by ASCII payload bytes.
pub open spec fn spec_parse_task(bs: Seq<u8>) -> Option<(u8, Seq<char>)> {
    if bs.len() >= 1 && 1 <= bs[0] <= 4 && (forall|i: int|
        0 <= i < bs.skip(1).len() ==> (#[trigger] bs.skip(1)[i]) < 128) {
        Some((bs[0], bs.skip(1).map_values(|b: u8| b as char)))
    } else {
        None
    }
}

impl Task {
    /// Serializes the task into its durable byte form.
    pub fn to_bytes(&self) -> (r: Vec<u8>)
        requires
            task_wf(*self),
        ensures
            r@ == spec_task_bytes(*self),
    {
        let (tag, payload): (u8, &String) = match self {
            Task::FetchTransfers(s) => (1u8, s),
            Task::FetchTransactionValue(s) => (2u8, s),
            Task::FetchTransactionReceipt(s) => (3u8, s),
            Task::VerifyTransaction(s) => (4u8, s),
        };
        let mut out: Vec<u8> = Vec::new();
        out.push(tag);
        let n = payload.as_str().unicode_len();
        let mut i: usize = 0;
        while i < n
            invariant
                0 <= i <= n,
                n == payload@.len(),
                payload@ == spec_task_payload(*self),
                task_wf(*self),
                tag == spec_task_tag(*self),
                out@ == seq![tag] + payload@.take(i as int).map_values(|c: char| c as u8),
            decreases n - i,
        {
            let c = payload.as_str().get_char(i);
            assert(ascii_char(payload@[i as int]));
            out.push(c as u8);
            proof {
                assert(out@ =~= seq![tag] + payload@.take(i + 1).map_values(|c: char| c as u8));
            }
            i = i + 1;
        }
        proof {
            assert(payload@.take(n as int) =~= payload@);
        }
        out
    }

    /// Reads a task back from its durable byte form; yields the task
    /// exactly when the bytes carry a known tag and an ASCII payload.
    pub fn from_bytes(bs: &Vec<u8>) -> (r: Option<Task>)
        ensures
            r is Some <==> spec_parse_task(bs@) is Some,
            r matches Some(t) ==> spec_parse_task(bs@) == Some(
                (spec_task_tag(t), spec_task_payload(t)),
            ) && task_wf(t),
    {
        if bs.len() < 1 {
            return None;
        }
        let tag = bs[0];
        if !(1 <= tag && tag <= 4) {
            return None;
        }
        let n = bs.len();
        let mut chars: Vec<char> = Vec::new();
        let mut i: usize = 1;
        while i < n
            invariant
                1 <= i <= n,
                n == bs@.len(),
                forall|j: int| 1 <= j < i ==> (#[trigger] bs@[j]) < 128,
                chars@ == bs@.subrange(1, i as int).map_values(|b: u8| b as char),
            decreases n - i,
        {
            let b = bs[i];
            if b >= 128 {
                assert(bs@.skip(1)[i - 1] == bs@[i as int]);
                return None;
            }
            chars.push(b as char);
            proof {
                assert(chars@ =~= bs@.subrange(1, i + 1).map_values(|b: u8| b as char));
            }
            i = i + 1;
        }
        proof {
            assert(bs@.subrange(1, n as int) =~= bs@.skip(1));
            assert(forall|j: int| 0 <= j < bs@.skip(1).len() ==> (#[trigger] bs@.skip(1)[j]) < 128);
        }
        let payload = chars_to_string(&chars);
        let t = if tag == 1 {
            Task::FetchTransfers(payload)
        } else if tag == 2 {
            Task::FetchTransactionValue(payload)
        } else if tag == 3 {
            Task::FetchTransactionReceipt(payload)
        } else {
            Task::VerifyTransaction(payload)
        };
        proof {
            assert(spec_task_payload(t) =~= bs@.skip(1).map_values(|b: u8| b as char));
            assert forall|j: int|
                0 <= j < spec_task_payload(t).len() implies ascii_char(
                #[trigger] spec_task_payload(t)[j]) by {
                assert(spec_task_payload(t)[j] == bs@.skip(1)[j] as char);
            }
        }
        Some(t)
    }
}

/// A task's byte form reads back as its own tag and payload: the durable
/// encoding round-trips.
pub proof fn lemma_task_round_trip(t: Task)
    requires
        task_wf(t),
    ensures
        spec_parse_task(spec_task_bytes(t)) == Some((spec_task_tag(t), spec_task_payload(t))),
{
    let bs = spec_task_bytes(t);
    let payload = spec_task_payload(t);
    assert(bs.skip(1) =~= payload.map_values(|c: char| c as u8));
    assert forall|i: int| 0 <= i < bs.skip(1).len() implies (#[trigger] bs.skip(1)[i]) < 128 by {
        assert(payload[i] == spec_task_payload(t)[i]);
        assert(ascii_char(spec_task_payload(t)[i]));
        assert(bs.skip(1)[i] == payload[i] as u8);
        assert(((payload[i] as u8) as int) == (payload[i] as int));
    }
    let mapped = bs.skip(1).map_values(|b: u8| b as char);
    assert forall|i: int| 0 <= i < mapped.len() implies #[trigger] mapped[i] == payload[i] by {
        assert(payload[i] == spec_task_payload(t)[i]);
        assert(ascii_char(spec_task_payload(t)[i]));
        assert(bs.skip(1)[i] == payload[i] as u8);
        assert(((payload[i] as u8) as int) == (payload[i] as int));
        assert((((payload[i] as u8) as char) as int) == (payload[i] as int));
    }
    assert(bs.skip(1).map_values(|b: u8| b as char) =~= payload);
}

/// Executes a stage's decision step: the follow-on task to enqueue, if
/// any. The fetch stage completes within the ingestion cycle, and the
/// per-transaction stages are unwired extension points, so no arm yields
/// a successor yet; a wired stage would return `Some` of its next stage.
pub fn dispatch(t: &Task) -> (r: Option<Task>)
    ensures
        r is None,
{
    match t {
        Task::FetchTransfers(_) => None,
        Task::FetchTransactionValue(_) => None,
        Task::FetchTransactionReceipt(_) => None,
        Task::VerifyTransaction(_) => None,
    }
}

/// No two fetch tasks stand in the queue at once.
pub open spec fn queue_wf(ts: Seq<Task>) -> bool {
    forall|i: int, j: int|
        0 <= i < j < ts.len() ==> !((#[trigger] ts[i]) is FetchTransfers && (#[trigger] ts[j])
            is FetchTransfers)
}

/// The durable, timer-driven task queue (trigger layer): polls are
/// enqueued here, and never while an earlier poll task is outstanding.
pub struct TaskQueue {
    tasks: Vec<Task>,
}

impl TaskQueue {
    /// The queued tasks, front first.
    pub closed spec fn tasks(&self) -> Seq<Task> {
        self.tasks@
    }

    /// An empty queue.
    pub fn new() -> (r: TaskQueue)
        ensures
            r.tasks() == Seq::<Task>::empty(),
            queue_wf(r.tasks()),
    {
        let r = TaskQueue { tasks: Vec::new() };
        proof {
            assert(r.tasks() =~= Seq::<Task>::empty());
        }
        r
    }

    /// How many tasks are queued.
    pub fn len(&self) -> (n: usize)
        ensures
            n == self.tasks().len(),
    {
        self.tasks.len()
    }

    /// The timer trigger: enqueues a poll task carrying the cursor as its
    /// starting hint — unless a poll task is already outstanding, in
    /// which case nothing is enqueued.
    pub fn trigger_poll(&mut self, cursor: u64) -> (enqueued: bool)
        requires
            queue_wf(old(self).tasks()),
        ensures
            queue_wf(final(self).tasks()),
            enqueued <==> !(exists|i: int|
                0 <= i < old(self).tasks().len() && (#[trigger] old(self).tasks()[i])
                    is FetchTransfers),
            enqueued ==> final(self).tasks().len() == old(self).tasks().len() + 1
                && final(self).tasks().drop_last() == old(self).tasks()
                && final(self).tasks().last() is FetchTransfers
                && spec_task_payload(final(self).tasks().last()) == spec_u64_to_hex(cursor as int),
            !enqueued ==> final(self).tasks() == old(self).tasks(),
    {
        let n = self.tasks.len();
        let mut i: usize = 0;
        while i < n
            invariant
                0 <= i <= n,
                n == self.tasks@.len(),
                self.tasks@ == old(self).tasks@,
                queue_wf(old(self).tasks()),
                forall|j: int| 0 <= j < i ==> !((#[trigger] self.tasks@[j]) is FetchTransfers),
            decreases n - i,
        {
            let outstanding = match &self.tasks[i] {
                Task::FetchTransfers(_) => true,
                _ => false,
            };
            if outstanding {
                proof {
                    assert(old(self).tasks()[i as int] is FetchTransfers);
                    assert(self.tasks@ == old(self).tasks());
                    assert forall|a: int, b: int|
                        0 <= a < b < self.tasks@.len() implies !((#[trigger] self.tasks@[a])
                        is FetchTransfers && (#[trigger] self.tasks@[b]) is FetchTransfers) by {
                        assert(self.tasks@[a] == old(self).tasks()[a]);
                        assert(self.tasks@[b] == old(self).tasks()[b]);
                    }
                }
                return false;
            }
            i = i + 1;
        }
        let hint = u64_to_hex(cursor);
        let ghost before = self.tasks@;
        self.tasks.push(Task::FetchTransfers(hint));
        proof {
            assert(self.tasks@.drop_last() =~= before);
            assert forall|a: int, b: int|
                0 <= a < b < self.tasks@.len() implies !((#[trigger] self.tasks@[a])
                is FetchTransfers && (#[trigger] self.tasks@[b]) is FetchTransfers) by {
                if b < before.len() {
                    assert(self.tasks@[a] == before[a]);
                    assert(self.tasks@[b] == before[b]);
                    assert(before[a] == old(self).tasks()[a]);
                    assert(before[b] == old(self).tasks()[b]);
                } else {
                    assert(self.tasks@[a] == before[a]);
                }
            }
        }
        true
    }

    /// Takes the next task to execute, front first.
    pub fn dequeue(&mut self) -> (r: Option<Task>)
        requires
            queue_wf(old(self).tasks()),
        ensures
            queue_wf(final(self).tasks()),
            r is Some <==> old(self).tasks().len() > 0,
            r matches Some(t) ==> t == old(self).tasks()[0] && final(self).tasks() == old(
                self,
            ).tasks().drop_first(),
            r is None ==> final(self).tasks() == old(self).tasks(),
    {
        if self.tasks.len() == 0 {
            return None;
        }
        let t = self.tasks.remove(0);
        proof {
            assert(self.tasks@ =~= old(self).tasks@.drop_first());
            assert forall|a: int, b: int|
                0 <= a < b < self.tasks@.len() implies !((#[trigger] self.tasks@[a])
                is FetchTransfers && (#[trigger] self.tasks@[b]) is FetchTransfers) by {
                assert(self.tasks@[a] == old(self).tasks@[a + 1]);
                assert(self.tasks@[b] == old(self).tasks@[b + 1]);
            }
        }
        Some(t)
    }
}

} // verus!
