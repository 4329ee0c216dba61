//! The inserter: records come in one by one and leave for the store in
//! batches. What is decided here is when a batch is full and what the total
//! of inserted rows is; the inserts themselves are the caller's.

use vstd::prelude::*;
use crate::model::{NewMessage, NewMessageView};

verus! {

/// What an `Inserter` is in contracts.
pub struct InserterView {
    /// The number of records at which a batch leaves.
    pub chunk_size: nat,
    /// The records that wait for their batch to fill, oldest first.
    pub batch: Seq<NewMessageView>,
    /// The rows that the store has reported so far.
    pub total: nat,
}

/// An inserter that has seen nothing yet.
pub open spec fn started(chunk_size: nat) -> InserterView {
    InserterView { chunk_size, batch: Seq::empty(), total: 0 }
}

/// One more record: it joins the waiting ones, and once they are
/// `chunk_size` many they leave together as a batch.
pub open spec fn pushed(state: InserterView, record: NewMessageView) -> (
    InserterView,
    Option<Seq<NewMessageView>>,
) {
    let batch = state.batch.push(record);
    if batch.len() == state.chunk_size {
        (InserterView { batch: Seq::empty(), ..state }, Some(batch))
    } else {
        (InserterView { batch, ..state }, None)
    }
}

/// The rows that an answer of the store counts for: a failed insert counts
/// for none.
pub open spec fn rows(answer: Option<u64>) -> nat {
    match answer {
        Some(inserted) => inserted as nat,
        None => 0,
    }
}

/// The store has answered one batch: its rows join the total, which stops
/// at the largest number it can hold.
pub open spec fn recorded(state: InserterView, answer: Option<u64>) -> InserterView {
    let sum = state.total + rows(answer);
    InserterView { total: if sum <= u64::MAX { sum } else { u64::MAX as nat }, ..state }
}

/// No more records will come: the waiting ones leave as the last batch,
/// however few they are.
pub open spec fn finished(state: InserterView) -> (InserterView, Seq<NewMessageView>) {
    (InserterView { batch: Seq::empty(), ..state }, state.batch)
}

/// The total that an inserter reaches when `records` pass through it one by
/// one, every batch goes to `store` as it leaves, the answer is recorded, and
/// the last batch follows at the end.
pub open spec fn total_after(
    state: InserterView,
    records: Seq<NewMessageView>,
    store: spec_fn(Seq<NewMessageView>) -> Option<u64>,
) -> nat
    decreases records.len(),
{
    if records.len() == 0 {
        let (rest, last) = finished(state);
        recorded(rest, store(last)).total
    } else {
        let (next, full) = pushed(state, records.first());
        let next = match full {
            Some(batch) => recorded(next, store(batch)),
            None => next,
        };
        total_after(next, records.drop_first(), store)
    }
}

/// A store that never fails: it reports every record of every batch as
/// inserted.
pub open spec fn failure_free(store: spec_fn(Seq<NewMessageView>) -> Option<u64>) -> bool {
    forall|batch: Seq<NewMessageView>|
        batch.len() <= u64::MAX ==> #[trigger] store(batch) == Some(batch.len() as u64)
}

/// Collects records into batches of a fixed size and adds up what the store
/// reports for them.
pub struct Inserter {
    chunk_size: usize,
    batch: Vec<NewMessage>,
    total: u64,
}

impl View for Inserter {
    type V = InserterView;

    closed spec fn view(&self) -> InserterView {
        InserterView {
            chunk_size: self.chunk_size as nat,
            batch: self.batch.deep_view(),
            total: self.total as nat,
        }
    }
}

impl Inserter {
    pub fn new(chunk_size: usize) -> (r: Inserter)
        ensures
            r@ == started(chunk_size as nat),
    {
        let r = Inserter { chunk_size, batch: Vec::new(), total: 0 };
        proof {
            assert(r.batch.deep_view() =~= Seq::<NewMessageView>::empty());
        }
        r
    }

    /// Takes one more record. Hands back the batch to insert, where this
    /// record has filled it.
    pub fn push(&mut self, message: NewMessage) -> (r: Option<Vec<NewMessage>>)
        ensures
            final(self)@ == pushed(old(self)@, message@).0,
            r.deep_view() == pushed(old(self)@, message@).1,
    {
        let ghost before = self.batch.deep_view();
        self.batch.push(message);
        proof {
            assert(self.batch.deep_view() =~= before.push(message@));
        }
        if self.batch.len() == self.chunk_size {
            let mut full: Vec<NewMessage> = Vec::new();
            core::mem::swap(&mut self.batch, &mut full);
            proof {
                assert(self.batch.deep_view() =~= Seq::<NewMessageView>::empty());
            }
            Some(full)
        } else {
            None
        }
    }

    /// Takes the store's answer to one batch: the number of rows inserted, or
    /// `None` for an insert that failed.
    pub fn record(&mut self, answer: Option<u64>)
        ensures
            final(self)@ == recorded(old(self)@, answer),
    {
        let inserted = match answer {
            Some(inserted) => inserted,
            None => 0,
        };
        self.total = self.total.saturating_add(inserted);
    }

    /// Hands back the records that still wait, as the last batch.
    pub fn finish(&mut self) -> (r: Vec<NewMessage>)
        ensures
            final(self)@ == finished(old(self)@).0,
            r.deep_view() == finished(old(self)@).1,
    {
        let mut last: Vec<NewMessage> = Vec::new();
        core::mem::swap(&mut self.batch, &mut last);
        proof {
            assert(self.batch.deep_view() =~= Seq::<NewMessageView>::empty());
        }
        last
    }

    /// The rows that the store has reported so far.
    pub fn total(&self) -> (r: u64)
        ensures
            r == self@.total,
    {
        self.total
    }
}

/// What `total_after` comes to with a store that never fails: the rows
/// counted so far, the records that wait and the records still to come.
proof fn lemma_total_after(
    state: InserterView,
    records: Seq<NewMessageView>,
    store: spec_fn(Seq<NewMessageView>) -> Option<u64>,
)
    requires
        failure_free(store),
        state.total + state.batch.len() + records.len() <= u64::MAX,
    ensures
        total_after(state, records, store) == state.total + state.batch.len() + records.len(),
    decreases records.len(),
{
    if records.len() == 0 {
        assert(store(state.batch) == Some(state.batch.len() as u64));
    } else {
        let (next, full) = pushed(state, records.first());
        match full {
            Some(batch) => {
                assert(store(batch) == Some(batch.len() as u64));
                lemma_total_after(recorded(next, store(batch)), records.drop_first(), store);
            },
            None => {
                lemma_total_after(next, records.drop_first(), store);
            },
        }
    }
}

/// With a store that never fails, the total of a backfill is the number of
/// records that went in, whatever the size of the batches.
pub proof fn lemma_backfill_counts_every_record(
    chunk_size: nat,
    records: Seq<NewMessageView>,
    store: spec_fn(Seq<NewMessageView>) -> Option<u64>,
)
    requires
        failure_free(store),
        records.len() <= u64::MAX,
    ensures
        total_after(started(chunk_size), records, store) == records.len(),
{
    lemma_total_after(started(chunk_size), records, store);
}

/// The total does not depend on the order in which the store's answers come
/// in, so batches may be inserted side by side.
pub proof fn lemma_answers_commute(state: InserterView, first: Option<u64>, second: Option<u64>)
    requires
        state.total <= u64::MAX,
    ensures
        recorded(recorded(state, first), second) == recorded(recorded(state, second), first),
{
}

} // verus!
