//! The batch accumulator: turns a sequence of input lines into write
//! batches that respect the per-record and per-batch limits.

use vstd::prelude::*;

use crate::partition::{partition_key, partition_key_of};
use crate::seqs::{concat_all, lemma_concat_all_push};

verus! {

/// Largest payload, in bytes, that a record may carry.
pub const MAX_RECORD_BYTES: usize = 1048576;

/// Ceiling, in bytes, on the cumulative payload size of a batch.
pub const MAX_BATCH_BYTES: usize = 5242880;

/// Largest number of records in a batch.
pub const MAX_BATCH_RECORDS: usize = 500;

/// A payload together with the partition key derived from it.
pub struct Record {
    pub partition_key: String,
    pub data: Vec<u8>,
}

impl Record {
    /// The key is the one derived from the payload.
    pub open spec fn wf(&self) -> bool {
        self.partition_key@ == partition_key_of(self.data@)
    }
}

/// An ordered group of records submitted in one write call.
pub struct Batch {
    pub records: Vec<Record>,
}

impl View for Batch {
    type V = Seq<Seq<u8>>;

    /// The payloads of the records, in order.
    open spec fn view(&self) -> Seq<Seq<u8>> {
        self.records@.map_values(|r: Record| r.data@)
    }
}

impl Batch {
    /// Every record carries the key derived from its payload.
    pub open spec fn wf(&self) -> bool {
        forall|i: int| 0 <= i < self.records@.len() ==> #[trigger] self.records@[i].wf()
    }

    /// Number of records in the batch.
    pub fn len(&self) -> (r: usize)
        ensures
            r == self@.len(),
    {
        self.records.len()
    }
}

/// A record's partition key depends on its payload alone: two records with
/// equal payloads carry equal keys, in whichever batches they stand.
pub proof fn lemma_same_payload_same_key(a: Batch, i: int, b: Batch, j: int)
    requires
        a.wf(),
        b.wf(),
        0 <= i < a@.len(),
        0 <= j < b@.len(),
        a@[i] == b@[j],
    ensures
        a.records@[i].partition_key@ == b.records@[j].partition_key@,
{
    assert(a.records@[i].wf());
    assert(b.records@[j].wf());
}

/// What became of one offered line.
pub enum BatchAction {
    /// The line was added to the current batch.
    Appended,
    /// The line was added, and a completed batch is handed out.
    AppendedAndFlushed(Batch),
    /// The line exceeded the per-record ceiling and was dropped; the value is
    /// its ordinal among all offered lines, counting from one.
    Skipped(usize),
}

/// Sum of the lengths of the given payloads.
pub open spec fn total_bytes(lines: Seq<Seq<u8>>) -> nat
    decreases lines.len(),
{
    if lines.len() == 0 {
        0
    } else {
        total_bytes(lines.drop_last()) + lines.last().len()
    }
}

/// A line is kept when it fits the per-record ceiling.
pub open spec fn fits_record(line: Seq<u8>) -> bool {
    line.len() <= MAX_RECORD_BYTES
}

/// One offer on the pending batch: the new pending batch and the batch
/// handed out, if any. An oversized line changes nothing. Otherwise the
/// pending batch is first handed out when the line would take it past the
/// byte ceiling; the line is appended; and a batch that then holds the
/// maximum count is handed out.
pub open spec fn step(pending: Seq<Seq<u8>>, line: Seq<u8>) -> (Seq<Seq<u8>>, Option<Seq<Seq<u8>>>) {
    if !fits_record(line) {
        (pending, None)
    } else {
        let pre_flush = total_bytes(pending) + line.len() > MAX_BATCH_BYTES;
        let p1 = if pre_flush { Seq::<Seq<u8>>::empty() } else { pending };
        let f1 = if pre_flush { Some(pending) } else { None };
        let p2 = p1.push(line);
        if p2.len() == MAX_BATCH_RECORDS {
            (Seq::<Seq<u8>>::empty(), Some(p2))
        } else {
            (p2, f1)
        }
    }
}

/// The batches handed out over the given lines, and the batch left pending.
pub open spec fn run(lines: Seq<Seq<u8>>) -> (Seq<Seq<Seq<u8>>>, Seq<Seq<u8>>)
    decreases lines.len(),
{
    if lines.len() == 0 {
        (Seq::empty(), Seq::empty())
    } else {
        let (done, pending) = run(lines.drop_last());
        let (next, flushed) = step(pending, lines.last());
        match flushed {
            Some(b) => (done.push(b), next),
            None => (done, next),
        }
    }
}

/// All batches produced from the given lines, the final partial batch included.
pub open spec fn batches_of(lines: Seq<Seq<u8>>) -> Seq<Seq<Seq<u8>>> {
    let (done, pending) = run(lines);
    if pending.len() > 0 {
        done.push(pending)
    } else {
        done
    }
}

/// Ordinals, counting from one, of the lines that exceed the per-record ceiling.
pub open spec fn skipped_ordinals(lines: Seq<Seq<u8>>) -> Seq<usize>
    decreases lines.len(),
{
    if lines.len() == 0 {
        Seq::empty()
    } else if fits_record(lines.last()) {
        skipped_ordinals(lines.drop_last())
    } else {
        skipped_ordinals(lines.drop_last()).push(lines.len() as usize)
    }
}

/// A batch within both ceilings, holding at least one record, each of
/// which fits the per-record ceiling.
pub open spec fn bounded_batch(b: Seq<Seq<u8>>) -> bool {
    &&& 0 < b.len() <= MAX_BATCH_RECORDS
    &&& total_bytes(b) <= MAX_BATCH_BYTES
    &&& forall|i: int| 0 <= i < b.len() ==> fits_record(#[trigger] b[i])
}

proof fn lemma_total_bytes_push(p: Seq<Seq<u8>>, l: Seq<u8>)
    ensures
        total_bytes(p.push(l)) == total_bytes(p) + l.len(),
{
    assert(p.push(l).drop_last() =~= p);
}

/// What holds of the batches handed out and of the pending batch after any
/// sequence of lines.
proof fn lemma_run_inv(lines: Seq<Seq<u8>>)
    ensures
        concat_all(run(lines).0) + run(lines).1 == lines.filter(|l: Seq<u8>| fits_record(l)),
        forall|i: int| 0 <= i < run(lines).0.len() ==> bounded_batch(#[trigger] run(lines).0[i]),
        run(lines).1.len() < MAX_BATCH_RECORDS,
        total_bytes(run(lines).1) <= MAX_BATCH_BYTES,
        forall|i: int| 0 <= i < run(lines).1.len() ==> fits_record(#[trigger] run(lines).1[i]),
    decreases lines.len(),
{
    let kept = |l: Seq<u8>| fits_record(l);
    if lines.len() == 0 {
        reveal_with_fuel(Seq::<_>::filter, 1);
        assert(concat_all(run(lines).0) + run(lines).1 =~= lines.filter(kept));
    } else {
        let prev = lines.drop_last();
        let line = lines.last();
        lemma_run_inv(prev);
        let (done, pending) = run(prev);
        reveal_with_fuel(Seq::<_>::filter, 1);
        assert(lines.filter(kept) == if kept(line) {
            prev.filter(kept).push(line)
        } else {
            prev.filter(kept)
        });
        if fits_record(line) {
            let pre_flush = total_bytes(pending) + line.len() > MAX_BATCH_BYTES;
            let e = Seq::<Seq<u8>>::empty();
            lemma_total_bytes_push(pending, line);
            lemma_total_bytes_push(e, line);
            assert(total_bytes(e) == 0);
            if pre_flush {
                assert(pending.len() > 0);
                assert(e.push(line).len() == 1);
                lemma_concat_all_push(done, pending);
                assert(concat_all(done.push(pending)) + e.push(line) =~= concat_all(done) + pending
                    + seq![line]);
                assert(concat_all(done) + pending + seq![line] =~= (concat_all(done) + pending).push(
                    line,
                ));
                assert(forall|i: int|
                    0 <= i < done.push(pending).len() ==> bounded_batch(
                        #[trigger] done.push(pending)[i],
                    )) by {
                    assert forall|i: int| 0 <= i < done.push(pending).len() implies bounded_batch(
                        #[trigger] done.push(pending)[i],
                    ) by {
                        if i < done.len() {
                            assert(done.push(pending)[i] == done[i]);
                        }
                    }
                }
                assert(forall|i: int| 0 <= i < e.push(line).len() ==> e.push(line)[i] == line);
            } else {
                let p2 = pending.push(line);
                assert(forall|i: int| 0 <= i < p2.len() ==> fits_record(#[trigger] p2[i])) by {
                    assert forall|i: int| 0 <= i < p2.len() implies fits_record(#[trigger] p2[i]) by {
                        if i < pending.len() {
                            assert(p2[i] == pending[i]);
                        }
                    }
                }
                if p2.len() == MAX_BATCH_RECORDS {
                    lemma_concat_all_push(done, p2);
                    assert(concat_all(done.push(p2)) + e =~= concat_all(done) + pending.push(line));
                    assert(concat_all(done) + pending.push(line) =~= (concat_all(done)
                        + pending).push(line));
                    assert forall|i: int| 0 <= i < done.push(p2).len() implies bounded_batch(
                        #[trigger] done.push(p2)[i],
                    ) by {
                        if i < done.len() {
                            assert(done.push(p2)[i] == done[i]);
                        }
                    }
                } else {
                    assert(concat_all(done) + pending.push(line) =~= (concat_all(done)
                        + pending).push(line));
                }
            }
        }
    }
}

/// Batching keeps exactly the lines that fit the per-record ceiling, in
/// their original order: the batches, one after another and the final
/// partial batch included, hold those lines and no others.
pub proof fn lemma_batches_keep_fitting_lines(lines: Seq<Seq<u8>>)
    ensures
        concat_all(batches_of(lines)) == lines.filter(|l: Seq<u8>| fits_record(l)),
{
    lemma_run_inv(lines);
    let (done, pending) = run(lines);
    if pending.len() > 0 {
        lemma_concat_all_push(done, pending);
    } else {
        assert(concat_all(done) + pending =~= concat_all(done));
    }
}

/// Every batch produced holds between one and the maximum count of
/// records, each within the per-record ceiling, and stays within the byte
/// ceiling.
pub proof fn lemma_batches_bounded(lines: Seq<Seq<u8>>)
    ensures
        forall|i: int|
            0 <= i < batches_of(lines).len() ==> bounded_batch(#[trigger] batches_of(lines)[i]),
{
    lemma_run_inv(lines);
    let (done, pending) = run(lines);
    if pending.len() > 0 {
        assert forall|i: int| 0 <= i < done.push(pending).len() implies bounded_batch(
            #[trigger] done.push(pending)[i],
        ) by {
            if i < done.len() {
                assert(done.push(pending)[i] == done[i]);
            }
        }
    }
}

/// Accumulates lines into batches.
pub struct BatchAccumulator {
    records: Vec<Record>,
    bytes: usize,
    seen: usize,
}

impl BatchAccumulator {
    /// The payloads of the pending batch.
    pub closed spec fn pending(&self) -> Seq<Seq<u8>> {
        self.records@.map_values(|r: Record| r.data@)
    }

    /// How many lines were offered so far.
    pub closed spec fn seen(&self) -> nat {
        self.seen as nat
    }

    pub closed spec fn wf(&self) -> bool {
        &&& self.bytes == total_bytes(self.pending())
        &&& self.bytes <= MAX_BATCH_BYTES
        &&& self.records@.len() < MAX_BATCH_RECORDS
        &&& self.keys_wf()
    }

    closed spec fn keys_wf(&self) -> bool {
        forall|i: int| 0 <= i < self.records@.len() ==> #[trigger] self.records@[i].wf()
    }

    /// An accumulator with an empty pending batch and no line seen.
    pub fn new() -> (r: Self)
        ensures
            r.wf(),
            r.pending() == Seq::<Seq<u8>>::empty(),
            r.seen() == 0,
    {
        let r = BatchAccumulator { records: Vec::new(), bytes: 0, seen: 0 };
        assert(r.pending() =~= Seq::<Seq<u8>>::empty());
        r
    }

    /// How many lines were offered so far.
    pub fn lines_seen(&self) -> (r: usize)
        ensures
            r == self.seen(),
    {
        self.seen
    }

    /// Hands out the pending batch and starts an empty one.
    fn take_batch(&mut self) -> (r: Batch)
        requires
            old(self).keys_wf(),
        ensures
            final(self).wf(),
            r@ == old(self).pending(),
            r.wf(),
            final(self).pending() == Seq::<Seq<u8>>::empty(),
            final(self).seen() == old(self).seen(),
    {
        let mut records: Vec<Record> = Vec::new();
        std::mem::swap(&mut records, &mut self.records);
        self.bytes = 0;
        assert(self.pending() =~= Seq::<Seq<u8>>::empty());
        Batch { records }
    }

    /// Offers the next input line.
    pub fn offer(&mut self, line: Vec<u8>) -> (r: BatchAction)
        requires
            old(self).wf(),
            old(self).seen() < usize::MAX,
        ensures
            final(self).wf(),
            final(self).seen() == old(self).seen() + 1,
            final(self).pending() == step(old(self).pending(), line@).0,
            match r {
                BatchAction::Skipped(n) => !fits_record(line@) && n == final(self).seen(),
                BatchAction::Appended => fits_record(line@) && step(
                    old(self).pending(),
                    line@,
                ).1 is None,
                BatchAction::AppendedAndFlushed(b) => fits_record(line@) && step(
                    old(self).pending(),
                    line@,
                ).1 == Some(b@) && b.wf(),
            },
    {
        let ghost before = self.pending();
        self.seen = self.seen + 1;
        let len = line.len();
        if len > MAX_RECORD_BYTES {
            return BatchAction::Skipped(self.seen);
        }
        let mut flushed: Option<Batch> = None;
        if self.bytes + len > MAX_BATCH_BYTES {
            flushed = Some(self.take_batch());
        }
        let key = partition_key(line.as_slice());
        let ghost mid = self.pending();
        self.bytes = self.bytes + len;
        self.records.push(Record { partition_key: key, data: line });
        assert(self.pending() =~= mid.push(line@));
        assert(self.pending().drop_last() =~= mid);
        if self.records.len() == MAX_BATCH_RECORDS {
            return BatchAction::AppendedAndFlushed(self.take_batch());
        }
        match flushed {
            Some(b) => BatchAction::AppendedAndFlushed(b),
            None => BatchAction::Appended,
        }
    }

    /// Ends the input: hands out the pending batch if it holds any record.
    pub fn finish(self) -> (r: Option<Batch>)
        requires
            self.wf(),
        ensures
            self.pending().len() > 0 ==> (r matches Some(b) && b@ == self.pending() && b.wf()),
            self.pending().len() == 0 ==> r is None,
    {
        if self.records.len() > 0 {
            Some(Batch { records: self.records })
        } else {
            None
        }
    }
}

/// The payloads of a sequence of lines.
pub open spec fn line_views(lines: Seq<Vec<u8>>) -> Seq<Seq<u8>> {
    lines.map_values(|l: Vec<u8>| l@)
}

/// The payloads of a sequence of batches.
pub open spec fn batch_views(batches: Seq<Batch>) -> Seq<Seq<Seq<u8>>> {
    batches.map_values(|b: Batch| b@)
}

/// The outcome of batching a whole input.
pub struct BatchPlan {
    /// The batches, in the order they were completed.
    pub batches: Vec<Batch>,
    /// Ordinals, counting from one, of the lines that were dropped as oversized.
    pub skipped: Vec<usize>,
}

/// Batches a whole input: offers each line in turn, then hands out the
/// final partial batch.
pub fn batch_lines(lines: &Vec<Vec<u8>>) -> (r: BatchPlan)
    ensures
        batch_views(r.batches@) == batches_of(line_views(lines@)),
        forall|i: int| 0 <= i < r.batches@.len() ==> #[trigger] r.batches@[i].wf(),
        r.skipped@ == skipped_ordinals(line_views(lines@)),
{
    let ghost views = line_views(lines@);
    let mut acc = BatchAccumulator::new();
    let mut batches: Vec<Batch> = Vec::new();
    let mut skipped: Vec<usize> = Vec::new();
    let mut i: usize = 0;
    while i < lines.len()
        invariant
            i <= lines@.len(),
            views == line_views(lines@),
            acc.wf(),
            acc.seen() == i,
            acc.pending() == run(views.take(i as int)).1,
            batch_views(batches@) == run(views.take(i as int)).0,
            forall|k: int| 0 <= k < batches@.len() ==> #[trigger] batches@[k].wf(),
            skipped@ == skipped_ordinals(views.take(i as int)),
        decreases lines@.len() - i,
    {
        let line = lines[i].clone();
        let ghost prefix = views.take(i as int);
        let ghost next = views.take(i as int + 1);
        assert(next.drop_last() =~= prefix);
        assert(next.last() == line@);
        let ghost old_batches = batches@;
        match acc.offer(line) {
            BatchAction::Skipped(n) => {
                skipped.push(n);
            },
            BatchAction::Appended => {},
            BatchAction::AppendedAndFlushed(b) => {
                batches.push(b);
                assert(batch_views(batches@) =~= batch_views(old_batches).push(b@));
            },
        }
        i = i + 1;
    }
    assert(views.take(i as int) =~= views);
    let ghost done = batches@;
    if let Some(b) = acc.finish() {
        batches.push(b);
        assert(batch_views(batches@) =~= batch_views(done).push(b@));
    }
    BatchPlan { batches, skipped }
}

} // verus!
