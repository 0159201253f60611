//! Object-storage transfer bookkeeping: the tasks of a run, enumerated bucket
//! by bucket, and the statistics that every finished task reports into.

use vstd::prelude::*;
use crate::numbers::{decimal_of, push_decimal};
use crate::text::copy_string;

verus! {

/// How many objects are moved at once unless configured otherwise.
pub const DEFAULT_PARALLEL: usize = 4;

/// An object as a bucket listing gives it.
pub struct ObjectEntry {
    pub key: String,
    pub size_bytes: u64,
}

/// The objects of one bucket.
pub struct BucketListing {
    pub bucket: String,
    pub objects: Vec<ObjectEntry>,
}

/// One object to move. Tasks are independent of each other.
pub struct TransferTask {
    pub bucket: String,
    pub object_key: String,
    pub size_bytes: u64,
}

/// How one task ended.
pub enum TransferOutcome {
    Succeeded,
    Failed(String),
}

/// A task as bucket, key and size.
pub type TaskView = (Seq<char>, Seq<char>, u64);

pub open spec fn task_views(v: Seq<TransferTask>) -> Seq<TaskView> {
    v.map_values(|t: TransferTask| (t.bucket@, t.object_key@, t.size_bytes))
}

/// The tasks of one bucket, in listing order.
pub open spec fn bucket_tasks(b: BucketListing) -> Seq<TaskView> {
    b.objects@.map_values(|o: ObjectEntry| (b.bucket@, o.key@, o.size_bytes))
}

/// The tasks of all buckets: bucket by bucket, each in listing order.
pub open spec fn tasks_of(ls: Seq<BucketListing>) -> Seq<TaskView>
    decreases ls.len(),
{
    if ls.len() == 0 {
        Seq::empty()
    } else {
        tasks_of(ls.drop_last()) + bucket_tasks(ls.last())
    }
}

/// Every object of every bucket becomes one task; none is dropped or added.
pub fn enumerate_tasks(listings: &Vec<BucketListing>) -> (r: Vec<TransferTask>)
    ensures
        task_views(r@) == tasks_of(listings@),
{
    let mut r: Vec<TransferTask> = Vec::new();
    let mut i: usize = 0;
    while i < listings.len()
        invariant
            i <= listings@.len(),
            task_views(r@) == tasks_of(listings@.take(i as int)),
        decreases listings@.len() - i,
    {
        let b = &listings[i];
        let ghost base = task_views(r@);
        let mut j: usize = 0;
        while j < b.objects.len()
            invariant
                j <= b.objects@.len(),
                *b == listings@[i as int],
                task_views(r@) == base + bucket_tasks(*b).take(j as int),
            decreases b.objects@.len() - j,
        {
            let o = &b.objects[j];
            let ghost before = r@;
            r.push(
                TransferTask {
                    bucket: copy_string(&b.bucket),
                    object_key: copy_string(&o.key),
                    size_bytes: o.size_bytes,
                },
            );
            assert(task_views(r@) == task_views(before).push((b.bucket@, o.key@, o.size_bytes)));
            assert(bucket_tasks(*b).take(j + 1) == bucket_tasks(*b).take(j as int).push(
                (b.bucket@, o.key@, o.size_bytes),
            ));
            j = j + 1;
        }
        assert(bucket_tasks(*b).take(j as int) == bucket_tasks(*b));
        assert(listings@.take(i + 1).drop_last() == listings@.take(i as int));
        i = i + 1;
    }
    assert(listings@.take(i as int) == listings@);
    r
}

/// How many entries of `s` are true.
pub open spec fn count_true(s: Seq<bool>) -> nat
    decreases s.len(),
{
    if s.len() == 0 {
        0
    } else {
        count_true(s.drop_last()) + if s.last() {
            1nat
        } else {
            0nat
        }
    }
}

proof fn lemma_count_true_bound(s: Seq<bool>)
    ensures
        count_true(s) <= s.len(),
        count_true(s) == s.len() <==> forall|i: int| 0 <= i < s.len() ==> #[trigger] s[i],
    decreases s.len(),
{
    if s.len() > 0 {
        lemma_count_true_bound(s.drop_last());
        if forall|i: int| 0 <= i < s.len() ==> #[trigger] s[i] {
            assert forall|i: int| 0 <= i < s.drop_last().len() implies #[trigger] s.drop_last()[i] by {
                assert(s[i] == s.drop_last()[i]);
            }
        }
        if count_true(s) == s.len() {
            assert forall|i: int| 0 <= i < s.len() implies #[trigger] s[i] by {
                if i < s.len() - 1 {
                    assert(s[i] == s.drop_last()[i]);
                }
            }
        }
    }
}

proof fn lemma_count_true_set(s: Seq<bool>, i: int)
    requires
        0 <= i < s.len(),
        !s[i],
    ensures
        count_true(s.update(i, true)) == count_true(s) + 1,
    decreases s.len(),
{
    let t = s.update(i, true);
    if i < s.len() - 1 {
        assert(t.drop_last() == s.drop_last().update(i, true));
        lemma_count_true_set(s.drop_last(), i);
    } else {
        assert(t.drop_last() == s.drop_last());
    }
}

proof fn lemma_count_true_none(n: nat)
    ensures
        count_true(Seq::new(n, |i: int| false)) == 0,
    decreases n,
{
    if n > 0 {
        assert(Seq::new(n, |i: int| false).drop_last() == Seq::new((n - 1) as nat, |i: int| false));
        lemma_count_true_none((n - 1) as nat);
    }
}

/// The totals of a transfer run.
pub struct TransferStats {
    attempted: usize,
    succeeded: usize,
    failed: usize,
    bytes_transferred: u64,
}

impl TransferStats {
    pub closed spec fn spec_attempted(&self) -> nat {
        self.attempted as nat
    }

    pub closed spec fn spec_succeeded(&self) -> nat {
        self.succeeded as nat
    }

    pub closed spec fn spec_failed(&self) -> nat {
        self.failed as nat
    }

    pub closed spec fn spec_bytes(&self) -> nat {
        self.bytes_transferred as nat
    }

    pub fn attempted(&self) -> (r: usize)
        ensures
            r == self.spec_attempted(),
    {
        self.attempted
    }

    pub fn succeeded(&self) -> (r: usize)
        ensures
            r == self.spec_succeeded(),
    {
        self.succeeded
    }

    pub fn failed(&self) -> (r: usize)
        ensures
            r == self.spec_failed(),
    {
        self.failed
    }

    pub fn bytes_transferred(&self) -> (r: u64)
        ensures
            r == self.spec_bytes(),
    {
        self.bytes_transferred
    }

    /// One line for people: `<succeeded>/<attempted> objects transferred, <failed> failed, <bytes> bytes`.
    pub fn summary(&self) -> (r: String)
        ensures
            r@ == decimal_of(self.spec_succeeded()) + seq!['/'] + decimal_of(self.spec_attempted())
                + SUMMARY_OBJECTS@ + decimal_of(self.spec_failed()) + SUMMARY_FAILED@ + decimal_of(
                self.spec_bytes(),
            ) + SUMMARY_BYTES@,
    {
        let mut r = String::new();
        push_decimal(&mut r, self.succeeded as u64);
        crate::text::push_char(&mut r, '/');
        push_decimal(&mut r, self.attempted as u64);
        r.append(SUMMARY_OBJECTS);
        push_decimal(&mut r, self.failed as u64);
        r.append(SUMMARY_FAILED);
        push_decimal(&mut r, self.bytes_transferred);
        r.append(SUMMARY_BYTES);
        r
    }
}

pub const SUMMARY_OBJECTS: &'static str = " objects transferred, ";
pub const SUMMARY_FAILED: &'static str = " failed, ";
pub const SUMMARY_BYTES: &'static str = " bytes";

/// A transfer run in progress: which tasks have reported, the reasons of the
/// failures, and the totals. It is the one place that workers report into.
pub struct TransferRun {
    sizes: Vec<u64>,
    reported: Vec<bool>,
    failures: Vec<String>,
    stats: TransferStats,
}

impl TransferRun {
    /// Every task reports at most once, and the totals count exactly the tasks that reported.
    pub closed spec fn wf(&self) -> bool {
        &&& self.reported@.len() == self.sizes@.len()
        &&& self.stats.attempted == count_true(self.reported@)
        &&& self.stats.succeeded + self.stats.failed == self.stats.attempted
        &&& self.failures@.len() == self.stats.failed
    }

    /// How many tasks the run was started with.
    pub closed spec fn task_count(&self) -> nat {
        self.sizes@.len()
    }

    /// Whether the task at `i` has reported.
    pub closed spec fn has_reported(&self, i: int) -> bool {
        self.reported@[i]
    }

    pub closed spec fn spec_stats(&self) -> TransferStats {
        self.stats
    }

    /// The size of the task at `i`.
    pub closed spec fn task_size(&self, i: int) -> u64 {
        self.sizes@[i]
    }

    /// The reasons of the failures reported so far, in order of report.
    pub closed spec fn spec_failures(&self) -> Seq<Seq<char>> {
        crate::text::views(self.failures@)
    }

    /// Whether every task has reported.
    pub open spec fn spec_complete(&self) -> bool {
        forall|i: int| 0 <= i < self.task_count() ==> #[trigger] self.has_reported(i)
    }

    /// A run over `tasks`, with nothing reported yet.
    pub fn new(tasks: &Vec<TransferTask>) -> (r: TransferRun)
        ensures
            r.wf(),
            r.task_count() == tasks@.len(),
            forall|i: int| 0 <= i < r.task_count() ==> !#[trigger] r.has_reported(i),
            forall|i: int| 0 <= i < r.task_count() ==> #[trigger] r.task_size(i) == tasks@[i].size_bytes,
            r.spec_failures() == Seq::<Seq<char>>::empty(),
            r.spec_stats().spec_attempted() == 0,
            r.spec_stats().spec_bytes() == 0,
    {
        let mut sizes: Vec<u64> = Vec::new();
        let mut reported: Vec<bool> = Vec::new();
        let mut i: usize = 0;
        while i < tasks.len()
            invariant
                i <= tasks@.len(),
                sizes@.len() == i,
                forall|k: int| 0 <= k < i ==> #[trigger] sizes@[k] == tasks@[k].size_bytes,
                reported@ == Seq::new(i as nat, |k: int| false),
            decreases tasks@.len() - i,
        {
            sizes.push(tasks[i].size_bytes);
            reported.push(false);
            i = i + 1;
        }
        proof {
            lemma_count_true_none(i as nat);
        }
        let ghost empty: Seq<String> = Seq::empty();
        assert(crate::text::views(empty) == Seq::<Seq<char>>::empty());
        TransferRun {
            sizes,
            reported,
            failures: Vec::new(),
            stats: TransferStats { attempted: 0, succeeded: 0, failed: 0, bytes_transferred: 0 },
        }
    }

    /// Records how the task at `index` ended. A report for a task that does
    /// not exist or has already reported changes nothing and gives false.
    /// A success adds the task's size to the bytes moved (saturating).
    pub fn report(&mut self, index: usize, outcome: TransferOutcome) -> (r: bool)
        requires
            old(self).wf(),
        ensures
            final(self).wf(),
            final(self).task_count() == old(self).task_count(),
            r <==> index < old(self).task_count() && !old(self).has_reported(index as int),
            !r ==> *final(self) == *old(self),
            r ==> final(self).has_reported(index as int) && forall|i: int|
                0 <= i < old(self).task_count() && i != index ==> #[trigger] final(self).has_reported(i) == old(self).has_reported(i),
            r ==> final(self).spec_stats().spec_attempted() == old(self).spec_stats().spec_attempted()
                + 1,
            r && outcome is Succeeded ==> final(self).spec_stats().spec_succeeded() == old(self).spec_stats().spec_succeeded() + 1 && final(self).spec_stats().spec_failed() == old(self).spec_stats().spec_failed(),
            r && outcome is Failed ==> final(self).spec_stats().spec_failed() == old(self).spec_stats().spec_failed() + 1 && final(self).spec_stats().spec_succeeded() == old(self).spec_stats().spec_succeeded(),
            forall|i: int| 0 <= i < old(self).task_count() ==> #[trigger] final(self).task_size(i) == old(self).task_size(i),
            r && outcome is Succeeded ==> final(self).spec_stats().spec_bytes() == if old(self).spec_stats().spec_bytes() + old(self).task_size(index as int) > u64::MAX {
                u64::MAX as int
            } else {
                old(self).spec_stats().spec_bytes() + old(self).task_size(index as int)
            },
            r && outcome is Succeeded ==> final(self).spec_failures() == old(self).spec_failures(),
            outcome is Failed ==> (r ==> final(self).spec_stats().spec_bytes() == old(self).spec_stats().spec_bytes()),
            match outcome {
                TransferOutcome::Failed(reason) => r ==> final(self).spec_failures() == old(self).spec_failures().push(reason@),
                TransferOutcome::Succeeded => true,
            },
    {
        if index >= self.reported.len() || self.reported[index] {
            return false;
        }
        proof {
            lemma_count_true_set(self.reported@, index as int);
            lemma_count_true_bound(self.reported@.update(index as int, true));
        }
        self.reported.set(index, true);
        self.stats.attempted = self.stats.attempted + 1;
        match outcome {
            TransferOutcome::Succeeded => {
                self.stats.succeeded = self.stats.succeeded + 1;
                self.stats.bytes_transferred = self.stats.bytes_transferred.saturating_add(
                    self.sizes[index],
                );
            },
            TransferOutcome::Failed(reason) => {
                self.stats.failed = self.stats.failed + 1;
                let ghost before = self.failures@;
                self.failures.push(reason);
                assert(crate::text::views(self.failures@) == crate::text::views(before).push(reason@));
            },
        }
        true
    }

    /// Whether every task has reported.
    pub fn is_complete(&self) -> (r: bool)
        requires
            self.wf(),
        ensures
            r == self.spec_complete(),
    {
        let mut i: usize = 0;
        while i < self.reported.len()
            invariant
                i <= self.reported@.len(),
                self.wf(),
                forall|k: int| 0 <= k < i ==> self.reported@[k],
            decreases self.reported@.len() - i,
        {
            if !self.reported[i] {
                assert(!self.has_reported(i as int));
                assert(!self.spec_complete());
                return false;
            }
            i = i + 1;
        }
        assert forall|k: int| 0 <= k < self.task_count() implies #[trigger] self.has_reported(k) by {
            assert(self.reported@[k]);
        }
        true
    }

    /// The reasons of the failures reported so far, in order of report.
    pub fn failures(&self) -> (r: &Vec<String>)
        requires
            self.wf(),
        ensures
            r@.len() == self.spec_stats().spec_failed(),
            crate::text::views(r@) == self.spec_failures(),
    {
        &self.failures
    }

    /// Ends the run: its totals, once every task has reported; otherwise the
    /// run is handed back.
    pub fn finish(self) -> (r: Result<TransferStats, TransferRun>)
        requires
            self.wf(),
        ensures
            self.spec_complete() ==> (r matches Ok(st) && st == self.spec_stats()),
            !self.spec_complete() ==> (r matches Err(run) && run == self),
    {
        if self.is_complete() {
            Ok(self.stats)
        } else {
            Err(self)
        }
    }
}

/// When a run is complete, every task was attempted exactly once and either
/// succeeded or failed: succeeded plus failed is attempted, and attempted is
/// the number of tasks the run was started with.
pub proof fn lemma_complete_run_counts_every_task(run: TransferRun)
    requires
        run.wf(),
        run.spec_complete(),
    ensures
        run.spec_stats().spec_succeeded() + run.spec_stats().spec_failed() == run.spec_stats().spec_attempted(),
        run.spec_stats().spec_attempted() == run.task_count(),
{
    assert forall|i: int| 0 <= i < run.reported@.len() implies #[trigger] run.reported@[i] by {
        assert(run.has_reported(i));
    }
    lemma_count_true_bound(run.reported@);
}

} // verus!
