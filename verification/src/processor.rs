//! The ingestion pipeline's bookkeeping: where rows go, how workers batch
//! their inserts, and how their counts add up.
use vstd::prelude::*;

verus! {

/// Where and how a catalog is loaded: the database, the collection, and the
/// sizes of the worker pool, of each insert batch and of the row channel.
pub struct Processor {
    mongodb_uri: String,
    db_name: String,
    collection_name: String,
    num_workers: usize,
    batch_size: usize,
    channel_capacity: usize,
}

impl Processor {
    /// A processor for the given database, collection and sizes.
    pub fn new(
        mongodb_uri: String,
        db_name: String,
        collection_name: String,
        num_workers: usize,
        batch_size: usize,
        channel_capacity: usize,
    ) -> (p: Processor)
        ensures
            p.mongodb_uri_spec() == mongodb_uri@,
            p.db_name_spec() == db_name@,
            p.collection_name_spec() == collection_name@,
            p.num_workers_spec() == num_workers,
            p.batch_size_spec() == batch_size,
            p.channel_capacity_spec() == channel_capacity,
    {
        Processor { mongodb_uri, db_name, collection_name, num_workers, batch_size, channel_capacity }
    }

    pub closed spec fn mongodb_uri_spec(&self) -> Seq<char> {
        self.mongodb_uri@
    }

    pub closed spec fn db_name_spec(&self) -> Seq<char> {
        self.db_name@
    }

    pub closed spec fn collection_name_spec(&self) -> Seq<char> {
        self.collection_name@
    }

    pub closed spec fn num_workers_spec(&self) -> usize {
        self.num_workers
    }

    pub closed spec fn batch_size_spec(&self) -> usize {
        self.batch_size
    }

    pub closed spec fn channel_capacity_spec(&self) -> usize {
        self.channel_capacity
    }

    /// The MongoDB connection string.
    pub fn mongodb_uri(&self) -> (s: &str)
        ensures
            s@ == self.mongodb_uri_spec(),
    {
        self.mongodb_uri.as_str()
    }

    /// The database name.
    pub fn db_name(&self) -> (s: &str)
        ensures
            s@ == self.db_name_spec(),
    {
        self.db_name.as_str()
    }

    /// The collection name.
    pub fn collection_name(&self) -> (s: &str)
        ensures
            s@ == self.collection_name_spec(),
    {
        self.collection_name.as_str()
    }

    /// How many workers insert rows.
    pub fn num_workers(&self) -> (n: usize)
        ensures
            n == self.num_workers_spec(),
    {
        self.num_workers
    }

    /// How many documents a worker inserts at once.
    pub fn batch_size(&self) -> (n: usize)
        ensures
            n == self.batch_size_spec(),
    {
        self.batch_size
    }

    /// How many rows the channel to the workers buffers.
    pub fn channel_capacity(&self) -> (n: usize)
        ensures
            n == self.channel_capacity_spec(),
    {
        self.channel_capacity
    }

    /// The number of documents that the workers inserted, all together:
    /// workers that failed or panicked count nothing.
    pub fn total_inserted(&self, outcomes: &[WorkerOutcome]) -> (total: usize)
        requires
            inserted_total(outcomes@) <= usize::MAX,
        ensures
            total == inserted_total(outcomes@),
    {
        let mut total: usize = 0;
        let mut i: usize = 0;
        while i < outcomes.len()
            invariant
                i <= outcomes@.len(),
                inserted_total(outcomes@) <= usize::MAX,
                total == inserted_total(outcomes@.take(i as int)),
            decreases outcomes@.len() - i,
        {
            proof {
                assert(outcomes@.take(i + 1).drop_last() =~= outcomes@.take(i as int));
                lemma_inserted_total_prefix(outcomes@, i + 1);
            }
            match &outcomes[i] {
                WorkerOutcome::Inserted(n) => {
                    total = total + *n;
                },
                _ => {},
            }
            i = i + 1;
        }
        assert(outcomes@.take(i as int) =~= outcomes@);
        total
    }
}

/// How a worker ended: with the number of documents it inserted, with an
/// error, or by panicking.
pub enum WorkerOutcome {
    Inserted(usize),
    Failed(String),
    Panicked(String),
}

/// The documents inserted by workers that ended normally, all together.
pub open spec fn inserted_total(outcomes: Seq<WorkerOutcome>) -> int
    decreases outcomes.len(),
{
    if outcomes.len() == 0 {
        0
    } else {
        inserted_total(outcomes.drop_last()) + match outcomes.last() {
            WorkerOutcome::Inserted(n) => n as int,
            _ => 0,
        }
    }
}

/// A prefix of the outcomes inserted no more than all of them.
pub proof fn lemma_inserted_total_prefix(outcomes: Seq<WorkerOutcome>, k: int)
    requires
        0 <= k <= outcomes.len(),
    ensures
        0 <= inserted_total(outcomes.take(k)) <= inserted_total(outcomes),
    decreases outcomes.len(),
{
    if k < outcomes.len() {
        assert(outcomes.drop_last().take(k) =~= outcomes.take(k));
        lemma_inserted_total_prefix(outcomes.drop_last(), k);
        lemma_inserted_total_prefix(outcomes.drop_last(), outcomes.len() - 1);
        assert(outcomes.drop_last().take(outcomes.len() - 1) =~= outcomes.drop_last());
    } else {
        assert(outcomes.take(k) =~= outcomes);
        if outcomes.len() > 0 {
            lemma_inserted_total_prefix(outcomes.drop_last(), outcomes.len() - 1);
            assert(outcomes.drop_last().take(outcomes.len() - 1) =~= outcomes.drop_last());
        }
    }
}

/// A worker's buffer of documents waiting to be inserted, and its count of
/// documents inserted so far.
pub struct InsertBatcher<T> {
    batch_size: usize,
    pending: Vec<T>,
    inserted: usize,
}

impl<T> InsertBatcher<T> {
    pub closed spec fn batch_size_spec(&self) -> usize {
        self.batch_size
    }

    pub closed spec fn pending_spec(&self) -> Seq<T> {
        self.pending@
    }

    pub closed spec fn inserted_spec(&self) -> usize {
        self.inserted
    }

    /// An empty buffer that hands out batches of `batch_size` documents.
    pub fn new(batch_size: usize) -> (b: InsertBatcher<T>)
        ensures
            b.batch_size_spec() == batch_size,
            b.pending_spec() == Seq::<T>::empty(),
            b.inserted_spec() == 0,
    {
        InsertBatcher { batch_size, pending: Vec::new(), inserted: 0 }
    }

    /// Buffers `doc`; once the buffer holds `batch_size` documents (or more),
    /// hands all of them out as a batch to insert and starts a new buffer.
    pub fn push(&mut self, doc: T) -> (batch: Option<Vec<T>>)
        ensures
            final(self).batch_size_spec() == old(self).batch_size_spec(),
            final(self).inserted_spec() == old(self).inserted_spec(),
            match batch {
                Some(b) => {
                    &&& old(self).pending_spec().len() + 1 >= old(self).batch_size_spec()
                    &&& b@ == old(self).pending_spec().push(doc)
                    &&& final(self).pending_spec() == Seq::<T>::empty()
                },
                None => {
                    &&& old(self).pending_spec().len() + 1 < old(self).batch_size_spec()
                    &&& final(self).pending_spec() == old(self).pending_spec().push(doc)
                },
            },
    {
        self.pending.push(doc);
        if self.pending.len() >= self.batch_size {
            let mut batch: Vec<T> = Vec::new();
            std::mem::swap(&mut batch, &mut self.pending);
            Some(batch)
        } else {
            None
        }
    }

    /// Hands out what is left in the buffer, if anything, as a last batch.
    pub fn finish(&mut self) -> (batch: Option<Vec<T>>)
        ensures
            final(self).batch_size_spec() == old(self).batch_size_spec(),
            final(self).inserted_spec() == old(self).inserted_spec(),
            final(self).pending_spec() == Seq::<T>::empty(),
            match batch {
                Some(b) => old(self).pending_spec().len() > 0 && b@ == old(self).pending_spec(),
                None => old(self).pending_spec().len() == 0,
            },
    {
        if self.pending.len() == 0 {
            None
        } else {
            let mut batch: Vec<T> = Vec::new();
            std::mem::swap(&mut batch, &mut self.pending);
            Some(batch)
        }
    }

    /// Records how an insert of `count` documents went: a successful insert
    /// adds them to the count, a failed one adds nothing.
    pub fn record_insert(&mut self, count: usize, succeeded: bool)
        requires
            succeeded ==> old(self).inserted_spec() + count <= usize::MAX,
        ensures
            final(self).batch_size_spec() == old(self).batch_size_spec(),
            final(self).pending_spec() == old(self).pending_spec(),
            final(self).inserted_spec() == if succeeded {
                old(self).inserted_spec() + count
            } else {
                old(self).inserted_spec() as int
            },
    {
        if succeeded {
            self.inserted = self.inserted + count;
        }
    }

    /// The number of documents inserted so far.
    pub fn inserted(&self) -> (n: usize)
        ensures
            n == self.inserted_spec(),
    {
        self.inserted
    }

    /// The number of documents waiting in the buffer.
    pub fn pending_len(&self) -> (n: usize)
        ensures
            n == self.pending_spec().len(),
    {
        self.pending.len()
    }
}


/// The batches that a buffer holding `pending` hands out while `docs`
/// arrive one by one, and what it holds afterwards: each arrival that brings
/// the buffer to `batch_size` documents empties it into a batch.
pub open spec fn batching<T>(batch_size: nat, pending: Seq<T>, docs: Seq<T>) -> (Seq<Seq<T>>, Seq<T>)
    decreases docs.len(),
{
    if docs.len() == 0 {
        (Seq::empty(), pending)
    } else {
        let p = pending.push(docs[0]);
        if p.len() >= batch_size {
            let (batches, rest) = batching(batch_size, Seq::empty(), docs.drop_first());
            (seq![p] + batches, rest)
        } else {
            batching(batch_size, p, docs.drop_first())
        }
    }
}

/// Every document that reaches a worker is handed out for insertion exactly
/// once and in the order it arrived: the batches, followed by what is left in
/// the buffer (the worker's last batch), are the documents that were waiting
/// followed by those that arrived. No batch is empty, and when the buffer
/// starts below `batch_size` every batch holds exactly `batch_size`
/// documents (one, for a batch size of zero) and the buffer stays below it.
pub proof fn lemma_batching_keeps_every_document<T>(batch_size: nat, pending: Seq<T>, docs: Seq<T>)
    requires
        pending.len() < batch_size || pending.len() == 0,
    ensures
        ({
            let (batches, rest) = batching(batch_size, pending, docs);
            &&& batches.flatten() + rest == pending + docs
            &&& forall|k: int| 0 <= k < batches.len() ==>
                (#[trigger] batches[k]).len() == (if batch_size == 0 { 1 } else { batch_size })
            &&& rest.len() < batch_size || rest.len() == 0
        }),
    decreases docs.len(),
{
    if docs.len() > 0 {
        let p = pending.push(docs[0]);
        let tail = docs.drop_first();
        assert(pending + docs =~= p + tail);
        if p.len() >= batch_size {
            assert(p.len() == (if batch_size == 0 { 1 } else { batch_size }));
            lemma_batching_keeps_every_document(batch_size, Seq::<T>::empty(), tail);
            let (batches, rest) = batching(batch_size, Seq::<T>::empty(), tail);
            let all = seq![p] + batches;
            assert(all.first() == p);
            assert(all.drop_first() =~= batches);
            assert(all.flatten() == p + batches.flatten());
            assert(Seq::<T>::empty() + tail =~= tail);
            assert((p + batches.flatten()) + rest =~= p + (batches.flatten() + rest));
            assert forall|k: int| 0 <= k < all.len() implies
                (#[trigger] all[k]).len() == (if batch_size == 0 { 1 } else { batch_size }) by {
                if k > 0 {
                    assert(all[k] == batches[k - 1]);
                }
            }
        } else {
            lemma_batching_keeps_every_document(batch_size, p, tail);
        }
    } else {
        let (batches, rest) = batching(batch_size, pending, docs);
        assert(batches.flatten() =~= Seq::<T>::empty());
        assert(pending + docs =~= pending);
        assert(Seq::<T>::empty() + rest =~= rest);
    }
}

} // verus!
