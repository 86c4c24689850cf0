use vstd::prelude::*;

use crate::jobs::{
    has_job, is_new_i2i, is_new_t2i, item_of, items_of, job_ids_unique, listing,
    admits, fresh_id, fresh_ids, item_not_of, job_not, new_i2i_job, now_rfc3339, new_t2i_job, JobFilter, LedgerError,
};
use crate::laws::{law_insert_is_one_unit, lemma_filter_keeps_time_order, lemma_filter_nested, lemma_filter_update_len};
use crate::model::{
    lemma_text_le_refl, lemma_text_le_total, lemma_text_le_trans, text_le, text_le_exec,
    CreateI2IJobRequest, CreateT2IJobRequest, ItemStatus, Job, JobItem, JobWithItems,
};

verus! {

/// Every item belongs to a stored job.
pub open spec fn items_owned(jobs: Seq<Job>, items: Seq<JobItem>) -> bool {
    forall|k: int| 0 <= k < items.len() ==> has_job(jobs, #[trigger] items[k].job_id@)
}

/// Each job's counters fit its item count, which is the number of items it owns.
pub open spec fn counts_consistent(jobs: Seq<Job>, items: Seq<JobItem>) -> bool {
    forall|i: int|
        0 <= i < jobs.len() ==> (#[trigger] jobs[i]).counters_ok() && jobs[i].total_items
            == items_of(items, jobs[i].id@).len()
}

/// No two items share an id.
pub open spec fn item_ids_unique(items: Seq<JobItem>) -> bool {
    forall|a: int, b: int|
        0 <= a < items.len() && 0 <= b < items.len() && a != b ==> #[trigger] items[a].id@
            != #[trigger] items[b].id@
}

/// Items are stored in order of creation time.
pub open spec fn items_in_time_order(items: Seq<JobItem>) -> bool {
    forall|a: int, b: int|
        0 <= a < b < items.len() ==> text_le(
            (#[trigger] items[a]).created_at@,
            (#[trigger] items[b]).created_at@,
        )
}

/// No stored item was created after `t`.
pub open spec fn no_item_later_than(items: Seq<JobItem>, t: Seq<char>) -> bool {
    forall|k: int| 0 <= k < items.len() ==> text_le((#[trigger] items[k]).created_at@, t)
}

/// Jobs are stored in order of creation time.
pub open spec fn in_time_order(jobs: Seq<Job>) -> bool {
    forall|i: int, j: int|
        0 <= i < j < jobs.len() ==> text_le(
            (#[trigger] jobs[i]).created_at@,
            (#[trigger] jobs[j]).created_at@,
        )
}

/// Each job was created no earlier than every job after it.
pub open spec fn newest_first(jobs: Seq<Job>) -> bool {
    forall|a: int, b: int|
        0 <= a < b < jobs.len() ==> text_le(
            (#[trigger] jobs[b]).created_at@,
            (#[trigger] jobs[a]).created_at@,
        )
}

/// No stored job was created after `t`.
pub open spec fn none_later_than(jobs: Seq<Job>, t: Seq<char>) -> bool {
    forall|i: int| 0 <= i < jobs.len() ==> text_le((#[trigger] jobs[i]).created_at@, t)
}

/// An entry brings exactly `total_items` items and counters that fit them.
pub open spec fn counts_fit(entry: JobWithItems) -> bool {
    entry.items@.len() == entry.job.total_items && entry.job.counters_ok()
}

/// The jobs and their items, jobs in order of creation.
pub struct Ledger {
    jobs: Vec<Job>,
    items: Vec<JobItem>,
}

impl Ledger {
    pub closed spec fn jobs(&self) -> Seq<Job> {
        self.jobs@
    }

    pub closed spec fn items(&self) -> Seq<JobItem> {
        self.items@
    }

    /// Job ids are unique and every item is owned by a stored job.
    pub open spec fn wf(&self) -> bool {
        &&& job_ids_unique(self.jobs())
        &&& items_owned(self.jobs(), self.items())
        &&& counts_consistent(self.jobs(), self.items())
        &&& in_time_order(self.jobs())
        &&& item_ids_unique(self.items())
        &&& items_in_time_order(self.items())
    }

    /// An empty ledger.
    pub fn new() -> (r: Ledger)
        ensures
            r.wf(),
            r.jobs() == Seq::<Job>::empty(),
            r.items() == Seq::<JobItem>::empty(),
    {
        Ledger { jobs: Vec::new(), items: Vec::new() }
    }

    fn find_job(&self, id: &String) -> (r: Option<usize>)
        ensures
            r matches Some(i) ==> i < self.jobs().len() && self.jobs()[i as int].id@ == id@,
            r is None ==> !has_job(self.jobs(), id@),
    {
        let mut i: usize = 0;
        while i < self.jobs.len()
            invariant
                0 <= i <= self.jobs@.len(),
                forall|j: int| 0 <= j < i ==> #[trigger] self.jobs@[j].id@ != id@,
            decreases self.jobs@.len() - i,
        {
            if self.jobs[i].id == *id {
                return Some(i);
            }
            i = i + 1;
        }
        None
    }

    /// Stores a job with its items as one unit, after all existing ones.
    /// Nothing is stored when the id is taken, an item names another job, the
    /// counters do not fit the items, an item id is taken or repeated, or a
    /// stored job or item is newer (items must also come in time order).
    pub fn insert_job(&mut self, entry: JobWithItems) -> (r: Result<(), LedgerError>)
        requires
            old(self).wf(),
        ensures
            final(self).wf(),
            has_job(old(self).jobs(), entry.job.id@) ==> r == Err::<(), LedgerError>(
                LedgerError::DuplicateId,
            ),
            !has_job(old(self).jobs(), entry.job.id@) && (exists|k: int|
                0 <= k < entry.items@.len() && #[trigger] entry.items@[k].job_id@
                    != entry.job.id@) ==> r == Err::<(), LedgerError>(LedgerError::ForeignItem),
            !has_job(old(self).jobs(), entry.job.id@) && (forall|k: int|
                0 <= k < entry.items@.len() ==> #[trigger] entry.items@[k].job_id@
                    == entry.job.id@) && !counts_fit(entry) ==> r == Err::<(), LedgerError>(
                LedgerError::InconsistentCounts,
            ),
            !has_job(old(self).jobs(), entry.job.id@) && (forall|k: int|
                0 <= k < entry.items@.len() ==> #[trigger] entry.items@[k].job_id@
                    == entry.job.id@) && counts_fit(entry) && !none_later_than(
                old(self).jobs(),
                entry.job.created_at@,
            ) ==> r == Err::<(), LedgerError>(LedgerError::OutOfOrder),
            !has_job(old(self).jobs(), entry.job.id@) && (forall|k: int|
                0 <= k < entry.items@.len() ==> #[trigger] entry.items@[k].job_id@
                    == entry.job.id@) && counts_fit(entry) && none_later_than(
                old(self).jobs(),
                entry.job.created_at@,
            ) && !item_ids_unique(old(self).items() + entry.items@) ==> r == Err::<
                (),
                LedgerError,
            >(LedgerError::DuplicateItemId),
            r is Ok <==> !has_job(old(self).jobs(), entry.job.id@) && (forall|k: int|
                0 <= k < entry.items@.len() ==> #[trigger] entry.items@[k].job_id@
                    == entry.job.id@) && counts_fit(entry) && none_later_than(
                old(self).jobs(),
                entry.job.created_at@,
            ) && item_ids_unique(old(self).items() + entry.items@) && items_in_time_order(
                old(self).items() + entry.items@,
            ),
            r is Ok ==> final(self).jobs() == old(self).jobs().push(entry.job) && final(self).items()
                == old(self).items() + entry.items@,
            r is Err ==> final(self).jobs() == old(self).jobs() && final(self).items()
                == old(self).items(),
    {
        if self.find_job(&entry.job.id).is_some() {
            return Err(LedgerError::DuplicateId);
        }
        let mut k: usize = 0;
        while k < entry.items.len()
            invariant
                0 <= k <= entry.items@.len(),
                forall|j: int| 0 <= j < k ==> #[trigger] entry.items@[j].job_id@ == entry.job.id@,
                self.wf(),
                !has_job(self.jobs(), entry.job.id@),
                self.jobs@ == old(self).jobs@,
                self.items@ == old(self).items@,
            decreases entry.items@.len() - k,
        {
            if entry.items[k].job_id != entry.job.id {
                return Err(LedgerError::ForeignItem);
            }
            k = k + 1;
        }
        if entry.items.len() != entry.job.total_items || entry.job.completed_items
            > entry.job.total_items || entry.job.failed_items > entry.job.total_items
            - entry.job.completed_items {
            return Err(LedgerError::InconsistentCounts);
        }
        let mut t: usize = 0;
        while t < self.jobs.len()
            invariant
                0 <= t <= self.jobs@.len(),
                forall|j: int| 0 <= j < t ==> text_le(
                    (#[trigger] self.jobs@[j]).created_at@,
                    entry.job.created_at@,
                ),
                self.wf(),
                !has_job(self.jobs(), entry.job.id@),
                self.jobs@ == old(self).jobs@,
                self.items@ == old(self).items@,
                forall|j: int| 0 <= j < entry.items@.len() ==> #[trigger] entry.items@[j].job_id@ == entry.job.id@,
                counts_fit(entry),
            decreases self.jobs@.len() - t,
        {
            if !text_le_exec(self.jobs[t].created_at.as_str(), entry.job.created_at.as_str()) {
                return Err(LedgerError::OutOfOrder);
            }
            t = t + 1;
        }
        let ghost all = self.items@ + entry.items@;
        let m = self.items.len();
        let mut k: usize = 0;
        while k < entry.items.len()
            invariant
                0 <= k <= entry.items@.len(),
                m == self.items@.len(),
                all == self.items@ + entry.items@,
                item_ids_unique(all.subrange(0, m + k)),
                self.wf(),
                !has_job(self.jobs(), entry.job.id@),
                self.jobs@ == old(self).jobs@,
                self.items@ == old(self).items@,
                forall|j: int| 0 <= j < entry.items@.len() ==> #[trigger] entry.items@[j].job_id@ == entry.job.id@,
                counts_fit(entry),
                none_later_than(self.jobs(), entry.job.created_at@),
            decreases entry.items@.len() - k,
        {
            let mut j: usize = 0;
            while j < m
                invariant
                    self.wf(),
                    !has_job(self.jobs(), entry.job.id@),
                    self.jobs@ == old(self).jobs@,
                    self.items@ == old(self).items@,
                    forall|y: int| 0 <= y < entry.items@.len() ==> #[trigger] entry.items@[y].job_id@ == entry.job.id@,
                    counts_fit(entry),
                    none_later_than(self.jobs(), entry.job.created_at@),
                    0 <= k < entry.items@.len(),
                    m == self.items@.len(),
                    all == self.items@ + entry.items@,
                    0 <= j <= m,
                    forall|x: int| 0 <= x < j ==> #[trigger] all[x].id@ != all[m + k].id@,
                decreases m - j,
            {
                if self.items[j].id == entry.items[k].id {
                    proof {
                        assert(all[j as int].id@ == all[m + k].id@);
                    }
                    return Err(LedgerError::DuplicateItemId);
                }
                j = j + 1;
            }
            let mut j2: usize = 0;
            while j2 < k
                invariant
                    self.wf(),
                    !has_job(self.jobs(), entry.job.id@),
                    self.jobs@ == old(self).jobs@,
                    self.items@ == old(self).items@,
                    forall|y: int| 0 <= y < entry.items@.len() ==> #[trigger] entry.items@[y].job_id@ == entry.job.id@,
                    counts_fit(entry),
                    none_later_than(self.jobs(), entry.job.created_at@),
                    0 <= k < entry.items@.len(),
                    m == self.items@.len(),
                    all == self.items@ + entry.items@,
                    0 <= j2 <= k,
                    forall|x: int| 0 <= x < m + j2 ==> #[trigger] all[x].id@ != all[m + k].id@,
                decreases k - j2,
            {
                if entry.items[j2].id == entry.items[k].id {
                    proof {
                        assert(all[m + j2].id@ == all[m + k].id@);
                    }
                    return Err(LedgerError::DuplicateItemId);
                }
                j2 = j2 + 1;
            }
            proof {
                let sub = all.subrange(0, m + k + 1);
                assert forall|a: int, b: int|
                    0 <= a < sub.len() && 0 <= b < sub.len() && a != b implies #[trigger] sub[a].id@
                    != #[trigger] sub[b].id@ by {
                    if a < m + k && b < m + k {
                        assert(all.subrange(0, m + k)[a] == sub[a]);
                        assert(all.subrange(0, m + k)[b] == sub[b]);
                    }
                }
            }
            k = k + 1;
        }
        proof {
            assert(all.subrange(0, m + entry.items@.len()) =~= all);
        }
        proof {
            assert(all.subrange(0, m as int) =~= self.items@);
        }
        let mut k: usize = 0;
        while k < entry.items.len()
            invariant
                self.wf(),
                !has_job(self.jobs(), entry.job.id@),
                self.jobs@ == old(self).jobs@,
                self.items@ == old(self).items@,
                forall|y: int| 0 <= y < entry.items@.len() ==> #[trigger] entry.items@[y].job_id@ == entry.job.id@,
                counts_fit(entry),
                none_later_than(self.jobs(), entry.job.created_at@),
                item_ids_unique(all),
                m == self.items@.len(),
                all == self.items@ + entry.items@,
                0 <= k <= entry.items@.len(),
                items_in_time_order(all.subrange(0, m + k)),
            decreases entry.items@.len() - k,
        {
            let ordered = if k > 0 {
                text_le_exec(entry.items[k - 1].created_at.as_str(), entry.items[k].created_at.as_str())
            } else if m > 0 {
                text_le_exec(self.items[m - 1].created_at.as_str(), entry.items[k].created_at.as_str())
            } else {
                true
            };
            if !ordered {
                proof {
                    assert(all[m + k - 1] == all.subrange(0, m + k)[m + k - 1]);
                    assert(!text_le(all[m + k - 1].created_at@, all[m + k].created_at@));
                }
                return Err(LedgerError::OutOfOrder);
            }
            proof {
                let sub = all.subrange(0, m + k + 1);
                let prev = all.subrange(0, m + k);
                assert forall|a: int, b: int| 0 <= a < b < sub.len() implies text_le(
                    (#[trigger] sub[a]).created_at@,
                    (#[trigger] sub[b]).created_at@,
                ) by {
                    assert(sub[a] == all[a] && sub[b] == all[b]);
                    if b < m + k {
                        assert(prev[a] == all[a] && prev[b] == all[b]);
                    } else {
                        assert(text_le(all[m + k - 1].created_at@, all[m + k].created_at@));
                        if a < m + k - 1 {
                            assert(prev[a] == all[a] && prev[m + k - 1] == all[m + k - 1]);
                            lemma_text_le_trans(
                                all[a].created_at@,
                                all[m + k - 1].created_at@,
                                all[m + k].created_at@,
                            );
                        }
                    }
                }
            }
            k = k + 1;
        }
        proof {
            assert(all.subrange(0, m + entry.items@.len()) =~= all);
        }
        let ghost old_jobs = self.jobs@;
        let ghost old_items = self.items@;
        let JobWithItems { job, items } = entry;
        let mut items = items;
        self.jobs.push(job);
        self.items.append(&mut items);
        proof {
            let jobs = self.jobs@;
            assert forall|i: int, j: int|
                0 <= i < jobs.len() && 0 <= j < jobs.len() && i != j implies #[trigger] jobs[i].id@
                != #[trigger] jobs[j].id@ by {
                if i == jobs.len() - 1 {
                    assert(old_jobs[j] == jobs[j]);
                } else if j == jobs.len() - 1 {
                    assert(old_jobs[i] == jobs[i]);
                }
            }
            assert forall|k: int| 0 <= k < self.items@.len() implies has_job(
                jobs,
                #[trigger] self.items@[k].job_id@,
            ) by {
                if k < old_items.len() {
                    let i = choose|i: int| 0 <= i < old_jobs.len() && #[trigger] old_jobs[i].id@
                        == old_items[k].job_id@;
                    assert(jobs[i] == old_jobs[i]);
                } else {
                    assert(jobs[jobs.len() - 1].id@ == self.items@[k].job_id@);
                }
            }
            assert forall|i: int, j: int| 0 <= i < j < jobs.len() implies text_le(
                (#[trigger] jobs[i]).created_at@,
                (#[trigger] jobs[j]).created_at@,
            ) by {
                assert(jobs[i] == old_jobs[i]);
                if j < old_jobs.len() {
                    assert(jobs[j] == old_jobs[j]);
                }
            }
            assert forall|i: int| 0 <= i < jobs.len() implies (#[trigger] jobs[i]).counters_ok()
                && jobs[i].total_items == items_of(self.items@, jobs[i].id@).len() by {
                law_insert_is_one_unit(old_jobs, old_items, entry, jobs[i].id@);
                if i < old_jobs.len() {
                    assert(jobs[i] == old_jobs[i]);
                    assert(has_job(old_jobs, jobs[i].id@));
                }
            }
        }
        Ok(())
    }

    /// The stored jobs that `filter` admits, newest first.
    pub fn get_jobs(&self, filter: JobFilter) -> (r: Vec<Job>)
        requires
            self.wf(),
        ensures
            r@ == listing(self.jobs(), filter),
            newest_first(r@),
            job_ids_unique(r@),
    {
        let mut out: Vec<Job> = Vec::new();
        let n = self.jobs.len();
        let mut i: usize = n;
        let ghost pred = admits(filter);
        while i > 0
            invariant
                pred == admits(filter),
                n == self.jobs@.len(),
                0 <= i <= n,
                out@ == self.jobs@.subrange(i as int, n as int).reverse().filter(pred),
                self.wf(),
                newest_first(out@),
                job_ids_unique(out@),
                forall|a: int|
                    0 <= a < out@.len() ==> exists|j: int|
                        i <= j < n && #[trigger] self.jobs@[j] == #[trigger] out@[a],
            decreases i,
        {
            i = i - 1;
            let ghost before = self.jobs@.subrange(i + 1, n as int).reverse();
            proof {
                assert(self.jobs@.subrange(i as int, n as int).reverse() =~= before.push(
                    self.jobs@[i as int],
                ));
                before.lemma_filter_push(self.jobs@[i as int], pred);
            }
            let admitted = match filter {
                JobFilter::All => true,
                JobFilter::ActiveOnly => self.jobs[i].status.is_active(),
            };
            if admitted {
                let ghost prev = out@;
                out.push(self.jobs[i].copy());
                proof {
                    let jobs = self.jobs@;
                    assert forall|a: int, b: int| 0 <= a < b < out@.len() implies text_le(
                        (#[trigger] out@[b]).created_at@,
                        (#[trigger] out@[a]).created_at@,
                    ) by {
                        assert(prev[a] == out@[a]);
                        if b < prev.len() {
                            assert(prev[b] == out@[b]);
                        } else {
                            let j = choose|j: int| i < j < n && #[trigger] jobs[j] == prev[a];
                            assert(jobs[j] == out@[a]);
                        }
                    }
                    assert forall|a: int, b: int|
                        0 <= a < out@.len() && 0 <= b < out@.len() && a != b implies #[trigger] out@[a].id@
                        != #[trigger] out@[b].id@ by {
                        if a == prev.len() {
                            let j = choose|j: int| i < j < n && #[trigger] jobs[j] == prev[b];
                            assert(jobs[j] == out@[b]);
                        } else if b == prev.len() {
                            let j = choose|j: int| i < j < n && #[trigger] jobs[j] == prev[a];
                            assert(jobs[j] == out@[a]);
                        } else {
                            assert(prev[a] == out@[a] && prev[b] == out@[b]);
                        }
                    }
                    assert forall|a: int| 0 <= a < out@.len() implies exists|j: int|
                        i <= j < n && #[trigger] jobs[j] == #[trigger] out@[a] by {
                        if a < prev.len() {
                            assert(prev[a] == out@[a]);
                            let j = choose|j: int| i < j < n && #[trigger] jobs[j] == prev[a];
                            assert(jobs[j] == out@[a]);
                        } else {
                            assert(jobs[i as int] == out@[a]);
                        }
                    }
                }
            }
        }
        proof {
            assert(self.jobs@.subrange(0, n as int) =~= self.jobs@);
        }
        out
    }

    /// The job with the given id and its items in order of creation.
    pub fn get_job(&self, id: &String) -> (r: Result<JobWithItems, LedgerError>)
        requires
            self.wf(),
        ensures
            r is Err <==> !has_job(self.jobs(), id@),
            r matches Err(e) ==> e == LedgerError::NotFound,
            r matches Ok(v) ==> self.jobs().contains(v.job) && v.job.id@ == id@ && v.items@
                == items_of(self.items(), id@),
            r matches Ok(v) ==> v.items@.len() == v.job.total_items && v.job.counters_ok(),
            r matches Ok(v) ==> items_in_time_order(v.items@),
    {
        proof {
            lemma_filter_keeps_time_order(self.items(), item_of(id@));
        }
        match self.find_job(id) {
            None => Err(LedgerError::NotFound),
            Some(i) => {
                let job = self.jobs[i].copy();
                let items = self.items_for(id);
                proof {
                    assert(self.jobs@[i as int] == job);
                }
                Ok(JobWithItems { job, items })
            },
        }
    }

    fn items_for(&self, id: &String) -> (r: Vec<JobItem>)
        ensures
            r@ == items_of(self.items(), id@),
    {
        let mut out: Vec<JobItem> = Vec::new();
        let mut k: usize = 0;
        let n = self.items.len();
        while k < n
            invariant
                n == self.items@.len(),
                0 <= k <= n,
                out@ == self.items@.subrange(0, k as int).filter(item_of(id@)),
            decreases n - k,
        {
            proof {
                assert(self.items@.subrange(0, k + 1) =~= self.items@.subrange(0, k as int).push(
                    self.items@[k as int],
                ));
                self.items@.subrange(0, k as int).lemma_filter_push(
                    self.items@[k as int],
                    item_of(id@),
                );
            }
            if self.items[k].job_id == *id {
                out.push(self.items[k].copy());
            }
            k = k + 1;
        }
        proof {
            assert(self.items@.subrange(0, n as int) =~= self.items@);
        }
        out
    }

    fn latest_item_time(&self, now: String) -> (r: String)
        ensures
            no_item_later_than(self.items(), r@),
    {
        let mut latest = now;
        let mut i: usize = 0;
        while i < self.items.len()
            invariant
                0 <= i <= self.items@.len(),
                forall|j: int| 0 <= j < i ==> text_le((#[trigger] self.items@[j]).created_at@, latest@),
            decreases self.items@.len() - i,
        {
            if text_le_exec(latest.as_str(), self.items[i].created_at.as_str()) {
                let ghost before = latest@;
                latest = self.items[i].created_at.clone();
                proof {
                    assert forall|j: int| 0 <= j < i + 1 implies text_le(
                        (#[trigger] self.items@[j]).created_at@,
                        latest@,
                    ) by {
                        if j < i {
                            lemma_text_le_trans(self.items@[j].created_at@, before, latest@);
                        } else {
                            lemma_text_le_refl(latest@);
                        }
                    }
                }
            } else {
                proof {
                    lemma_text_le_total(latest@, self.items@[i as int].created_at@);
                }
            }
            i = i + 1;
        }
        latest
    }

    /// `now`, or the creation time of the newest stored job where that is later,
    /// so that creation times never decrease.
    fn latest_time(&self, now: String) -> (r: String)
        ensures
            none_later_than(self.jobs(), r@),
            no_item_later_than(self.items(), r@),
    {
        let now = self.latest_item_time(now);
        let mut latest = now;
        let mut i: usize = 0;
        while i < self.jobs.len()
            invariant
                0 <= i <= self.jobs@.len(),
                forall|j: int| 0 <= j < i ==> text_le((#[trigger] self.jobs@[j]).created_at@, latest@),
                no_item_later_than(self.items@, latest@),
            decreases self.jobs@.len() - i,
        {
            if text_le_exec(latest.as_str(), self.jobs[i].created_at.as_str()) {
                let ghost before = latest@;
                latest = self.jobs[i].created_at.clone();
                proof {
                    assert forall|j: int| 0 <= j < i + 1 implies text_le(
                        (#[trigger] self.jobs@[j]).created_at@,
                        latest@,
                    ) by {
                        if j < i {
                            lemma_text_le_trans(self.jobs@[j].created_at@, before, latest@);
                        } else {
                            lemma_text_le_refl(latest@);
                        }
                    }
                    assert forall|k: int| 0 <= k < self.items@.len() implies text_le(
                        (#[trigger] self.items@[k]).created_at@,
                        latest@,
                    ) by {
                        lemma_text_le_trans(self.items@[k].created_at@, before, latest@);
                    }
                }
            } else {
                proof {
                    lemma_text_le_total(latest@, self.jobs@[i as int].created_at@);
                }
            }
            i = i + 1;
        }
        latest
    }

    /// Creates a pending text-to-image job with one pending item per prompt,
    /// under fresh random ids and the current time. Job and items are stored
    /// together or not at all.
    pub fn create_t2i_job(&mut self, request: CreateT2IJobRequest) -> (r: Result<JobWithItems, LedgerError>)
        requires
            old(self).wf(),
        ensures
            final(self).wf(),
            r matches Ok(v) ==> {
                &&& exists|ids: Seq<String>| is_new_t2i(v, v.job.id@, ids, v.job.created_at@, request)
                &&& final(self).jobs() == old(self).jobs().push(v.job)
                &&& final(self).items() == old(self).items() + v.items@
                &&& items_of(final(self).items(), v.job.id@) == v.items@
                &&& none_later_than(old(self).jobs(), v.job.created_at@)
            },
            r matches Err(e) ==> (e == LedgerError::DuplicateId || e == LedgerError::DuplicateItemId)
                && final(self).jobs() == old(self).jobs() && final(self).items() == old(self).items(),
            r is Err ==> (exists|i: int|
                0 <= i < old(self).jobs().len() && (#[trigger] old(self).jobs()[i]).id@.len() == 36)
                || (exists|k: int|
                0 <= k < old(self).items().len() && (#[trigger] old(self).items()[k]).id@.len() == 36)
                || request.prompts@.len() > 1,
            r matches Ok(v) ==> item_ids_unique(final(self).items()),
    {
        let job_id = fresh_id();
        let item_ids = fresh_ids(request.prompts.len());
        let now = self.latest_time(now_rfc3339());
        let entry = new_t2i_job(&job_id, &item_ids, &now, &request);
        let ghost before = *old(self);
        proof {
            let all = before.items() + entry.items@;
            let n = before.items().len();
            lemma_text_le_refl(now@);
            assert forall|a: int, b: int| 0 <= a < b < all.len() implies text_le(
                (#[trigger] all[a]).created_at@,
                (#[trigger] all[b]).created_at@,
            ) by {
                if b < n {
                    assert(all[a] == before.items()[a] && all[b] == before.items()[b]);
                } else if a < n {
                    assert(all[a] == before.items()[a]);
                    assert(all[b] == entry.items@[b - n]);
                } else {
                    assert(all[a] == entry.items@[a - n]);
                    assert(all[b] == entry.items@[b - n]);
                }
            }
            if request.prompts@.len() <= 1 && forall|k: int|
                0 <= k < n ==> (#[trigger] before.items()[k]).id@.len() != 36 {
                assert forall|a: int, b: int|
                    0 <= a < all.len() && 0 <= b < all.len() && a != b implies #[trigger] all[a].id@
                    != #[trigger] all[b].id@ by {
                    if a < n && b < n {
                        assert(all[a] == before.items()[a] && all[b] == before.items()[b]);
                    } else if a < n {
                        assert(all[a] == before.items()[a]);
                        assert(all[b] == entry.items@[b - n]);
                    } else if b < n {
                        assert(all[b] == before.items()[b]);
                        assert(all[a] == entry.items@[a - n]);
                    }
                }
            }
        }
        match self.insert_job(entry.copy()) {
            Ok(()) => {
                proof {
                    law_insert_is_one_unit(before.jobs(), before.items(), entry, entry.job.id@);
                }
                Ok(entry)
            },
            Err(e) => Err(e),
        }
    }

    /// Creates a pending image-to-image job with one pending item per input image,
    /// under fresh random ids and the current time. Job and items are stored
    /// together or not at all.
    pub fn create_i2i_job(&mut self, request: CreateI2IJobRequest) -> (r: Result<JobWithItems, LedgerError>)
        requires
            old(self).wf(),
        ensures
            final(self).wf(),
            r matches Ok(v) ==> {
                &&& exists|ids: Seq<String>| is_new_i2i(v, v.job.id@, ids, v.job.created_at@, request)
                &&& final(self).jobs() == old(self).jobs().push(v.job)
                &&& final(self).items() == old(self).items() + v.items@
                &&& items_of(final(self).items(), v.job.id@) == v.items@
                &&& none_later_than(old(self).jobs(), v.job.created_at@)
            },
            r matches Err(e) ==> (e == LedgerError::DuplicateId || e == LedgerError::DuplicateItemId)
                && final(self).jobs() == old(self).jobs() && final(self).items() == old(self).items(),
            r is Err ==> (exists|i: int|
                0 <= i < old(self).jobs().len() && (#[trigger] old(self).jobs()[i]).id@.len() == 36)
                || (exists|k: int|
                0 <= k < old(self).items().len() && (#[trigger] old(self).items()[k]).id@.len() == 36)
                || request.image_paths@.len() > 1,
            r matches Ok(v) ==> item_ids_unique(final(self).items()),
    {
        let job_id = fresh_id();
        let item_ids = fresh_ids(request.image_paths.len());
        let now = self.latest_time(now_rfc3339());
        let entry = new_i2i_job(&job_id, &item_ids, &now, &request);
        let ghost before = *old(self);
        proof {
            let all = before.items() + entry.items@;
            let n = before.items().len();
            lemma_text_le_refl(now@);
            assert forall|a: int, b: int| 0 <= a < b < all.len() implies text_le(
                (#[trigger] all[a]).created_at@,
                (#[trigger] all[b]).created_at@,
            ) by {
                if b < n {
                    assert(all[a] == before.items()[a] && all[b] == before.items()[b]);
                } else if a < n {
                    assert(all[a] == before.items()[a]);
                    assert(all[b] == entry.items@[b - n]);
                } else {
                    assert(all[a] == entry.items@[a - n]);
                    assert(all[b] == entry.items@[b - n]);
                }
            }
            if request.image_paths@.len() <= 1 && forall|k: int|
                0 <= k < n ==> (#[trigger] before.items()[k]).id@.len() != 36 {
                assert forall|a: int, b: int|
                    0 <= a < all.len() && 0 <= b < all.len() && a != b implies #[trigger] all[a].id@
                    != #[trigger] all[b].id@ by {
                    if a < n && b < n {
                        assert(all[a] == before.items()[a] && all[b] == before.items()[b]);
                    } else if a < n {
                        assert(all[a] == before.items()[a]);
                        assert(all[b] == entry.items@[b - n]);
                    } else if b < n {
                        assert(all[b] == before.items()[b]);
                        assert(all[a] == entry.items@[a - n]);
                    }
                }
            }
        }
        match self.insert_job(entry.copy()) {
            Ok(()) => {
                proof {
                    law_insert_is_one_unit(before.jobs(), before.items(), entry, entry.job.id@);
                }
                Ok(entry)
            },
            Err(e) => Err(e),
        }
    }

    /// Removes the job with the given id and all of its items; an absent id is no error.
    pub fn delete_job(&mut self, id: &String)
        requires
            old(self).wf(),
        ensures
            final(self).wf(),
            final(self).jobs() == old(self).jobs().filter(job_not(id@)),
            final(self).items() == old(self).items().filter(item_not_of(id@)),
    {
        let mut items: Vec<JobItem> = Vec::new();
        let n = self.items.len();
        let mut k: usize = 0;
        while k < n
            invariant
                n == self.items@.len(),
                0 <= k <= n,
                items@ == self.items@.subrange(0, k as int).filter(item_not_of(id@)),
                item_ids_unique(self.items@),
                item_ids_unique(items@),
                forall|a: int|
                    0 <= a < items@.len() ==> exists|j: int|
                        0 <= j < k && #[trigger] self.items@[j] == #[trigger] items@[a],
            decreases n - k,
        {
            proof {
                assert(self.items@.subrange(0, k + 1) =~= self.items@.subrange(0, k as int).push(
                    self.items@[k as int],
                ));
                self.items@.subrange(0, k as int).lemma_filter_push(
                    self.items@[k as int],
                    item_not_of(id@),
                );
            }
            if self.items[k].job_id != *id {
                let ghost prev = items@;
                items.push(self.items[k].copy());
                proof {
                    let src = self.items@;
                    assert forall|a: int, b: int|
                        0 <= a < items@.len() && 0 <= b < items@.len() && a != b implies #[trigger] items@[a].id@
                        != #[trigger] items@[b].id@ by {
                        if a == prev.len() {
                            let j = choose|j: int| 0 <= j < k && #[trigger] src[j] == prev[b];
                            assert(src[j] == items@[b]);
                        } else if b == prev.len() {
                            let j = choose|j: int| 0 <= j < k && #[trigger] src[j] == prev[a];
                            assert(src[j] == items@[a]);
                        } else {
                            assert(prev[a] == items@[a] && prev[b] == items@[b]);
                        }
                    }
                    assert forall|a: int| 0 <= a < items@.len() implies exists|j: int|
                        0 <= j < k + 1 && #[trigger] src[j] == #[trigger] items@[a] by {
                        if a < prev.len() {
                            assert(prev[a] == items@[a]);
                            let j = choose|j: int| 0 <= j < k && #[trigger] src[j] == prev[a];
                            assert(src[j] == items@[a]);
                        } else {
                            assert(src[k as int] == items@[a]);
                        }
                    }
                }
            }
            k = k + 1;
        }
        proof {
            assert(self.items@.subrange(0, n as int) =~= self.items@);
        }
        let mut jobs: Vec<Job> = Vec::new();
        let m = self.jobs.len();
        let mut i: usize = 0;
        while i < m
            invariant
                m == self.jobs@.len(),
                0 <= i <= m,
                job_ids_unique(self.jobs@),
                job_ids_unique(jobs@),
                in_time_order(self.jobs@),
                in_time_order(jobs@),
                jobs@ == self.jobs@.subrange(0, i as int).filter(job_not(id@)),
                forall|a: int|
                    0 <= a < jobs@.len() ==> exists|j: int|
                        0 <= j < i && #[trigger] self.jobs@[j] == #[trigger] jobs@[a],
            decreases m - i,
        {
            proof {
                assert(self.jobs@.subrange(0, i + 1) =~= self.jobs@.subrange(0, i as int).push(
                    self.jobs@[i as int],
                ));
                self.jobs@.subrange(0, i as int).lemma_filter_push(
                    self.jobs@[i as int],
                    job_not(id@),
                );
            }
            if self.jobs[i].id != *id {
                let ghost before = jobs@;
                jobs.push(self.jobs[i].copy());
                proof {
                    assert forall|a: int, b: int|
                        0 <= a < jobs@.len() && 0 <= b < jobs@.len() && a != b implies #[trigger] jobs@[a].id@
                        != #[trigger] jobs@[b].id@ by {
                        if a == before.len() {
                            let j = choose|j: int| 0 <= j < i && #[trigger] self.jobs@[j] == before[b];
                            assert(self.jobs@[j] == jobs@[b]);
                        } else if b == before.len() {
                            let j = choose|j: int| 0 <= j < i && #[trigger] self.jobs@[j] == before[a];
                            assert(self.jobs@[j] == jobs@[a]);
                        } else {
                            assert(before[a] == jobs@[a] && before[b] == jobs@[b]);
                        }
                    }
                    assert forall|a: int, b: int| 0 <= a < b < jobs@.len() implies text_le(
                        (#[trigger] jobs@[a]).created_at@,
                        (#[trigger] jobs@[b]).created_at@,
                    ) by {
                        assert(before[a] == jobs@[a]);
                        if b < before.len() {
                            assert(before[b] == jobs@[b]);
                        } else {
                            let j = choose|j: int| 0 <= j < i && #[trigger] self.jobs@[j] == before[a];
                            assert(self.jobs@[j] == jobs@[a]);
                        }
                    }
                    assert forall|a: int| 0 <= a < jobs@.len() implies exists|j: int|
                        0 <= j < i + 1 && #[trigger] self.jobs@[j] == #[trigger] jobs@[a] by {
                        if a < before.len() {
                            assert(before[a] == jobs@[a]);
                            let j = choose|j: int| 0 <= j < i && #[trigger] self.jobs@[j] == before[a];
                            assert(self.jobs@[j] == jobs@[a]);
                        } else {
                            assert(self.jobs@[i as int] == jobs@[a]);
                        }
                    }
                }
            }
            i = i + 1;
        }
        proof {
            assert(self.jobs@.subrange(0, m as int) =~= self.jobs@);
            let old_jobs = self.jobs@;
            let old_items = self.items@;
            assert forall|k: int| 0 <= k < items@.len() implies has_job(jobs@, #[trigger] items@[k].job_id@) by {
                old_items.lemma_filter_pred(item_not_of(id@), k);
                old_items.lemma_filter_contains_rev(item_not_of(id@), items@[k]);
                let kk = choose|kk: int| 0 <= kk < old_items.len() && old_items[kk] == items@[k];
                assert(has_job(old_jobs, old_items[kk].job_id@));
                let j = choose|j: int| 0 <= j < old_jobs.len() && #[trigger] old_jobs[j].id@ == old_items[kk].job_id@;
                old_jobs.lemma_filter_contains(job_not(id@), j);
                let a = choose|a: int| 0 <= a < jobs@.len() && jobs@[a] == old_jobs[j];
                assert(jobs@[a].id@ == items@[k].job_id@);
            }
            assert forall|a: int| 0 <= a < jobs@.len() implies (#[trigger] jobs@[a]).counters_ok()
                && jobs@[a].total_items == items_of(items@, jobs@[a].id@).len() by {
                let j = choose|j: int| 0 <= j < m && #[trigger] old_jobs[j] == jobs@[a];
                old_jobs.lemma_filter_pred(job_not(id@), a);
                lemma_filter_nested(old_items, item_not_of(id@), item_of(jobs@[a].id@));
            }
        }
        proof {
            lemma_filter_keeps_time_order(self.items@, item_not_of(id@));
        }
        self.jobs = jobs;
        self.items = items;
    }

    fn find_item(&self, item_id: &String) -> (r: Option<usize>)
        ensures
            r matches Some(i) ==> i < self.items().len() && self.items()[i as int].id@ == item_id@
                && forall|j: int| 0 <= j < i ==> #[trigger] self.items()[j].id@ != item_id@,
            r is None ==> forall|j: int|
                0 <= j < self.items().len() ==> #[trigger] self.items()[j].id@ != item_id@,
    {
        let mut i: usize = 0;
        while i < self.items.len()
            invariant
                0 <= i <= self.items@.len(),
                forall|j: int| 0 <= j < i ==> #[trigger] self.items@[j].id@ != item_id@,
            decreases self.items@.len() - i,
        {
            if self.items[i].id == *item_id {
                return Some(i);
            }
            i = i + 1;
        }
        None
    }

    /// Records one lifecycle step of the item with the given id, with its
    /// result: an output path exactly when it completes, an error exactly when it
    /// fails. Jobs and their counters are left to the caller.
    pub fn advance_item(
        &mut self,
        item_id: &String,
        next: ItemStatus,
        output_image_path: Option<String>,
        error: Option<String>,
        now: String,
    ) -> (r: Result<(), LedgerError>)
        requires
            old(self).wf(),
        ensures
            final(self).wf(),
            final(self).jobs() == old(self).jobs(),
            (forall|j: int| 0 <= j < old(self).items().len() ==> #[trigger] old(self).items()[j].id@
                != item_id@) ==> r == Err::<(), LedgerError>(LedgerError::NotFound),
            r is Err ==> final(self).items() == old(self).items(),
            r is Ok ==> exists|i: int|
                {
                    &&& 0 <= i < old(self).items().len()
                    &&& #[trigger] old(self).items()[i].id@ == item_id@
                    &&& forall|j: int| 0 <= j < i ==> #[trigger] old(self).items()[j].id@ != item_id@
                    &&& old(self).items()[i].status.spec_can_advance_to(next)
                    &&& (output_image_path is Some <==> next == ItemStatus::Completed)
                    &&& (error is Some <==> next == ItemStatus::Failed)
                    &&& final(self).items() == old(self).items().update(
                        i,
                        JobItem {
                            status: next,
                            output_image_path,
                            error,
                            updated_at: now,
                            ..old(self).items()[i]
                        },
                    )
                },
            r matches Err(e) ==> e == LedgerError::NotFound || e == LedgerError::InvalidTransition,
            forall|i: int|
                {
                    &&& 0 <= i < old(self).items().len()
                    &&& #[trigger] old(self).items()[i].id@ == item_id@
                    &&& forall|j: int| 0 <= j < i ==> #[trigger] old(self).items()[j].id@ != item_id@
                    &&& old(self).items()[i].status.spec_can_advance_to(next)
                    &&& (output_image_path is Some <==> next == ItemStatus::Completed)
                    &&& (error is Some <==> next == ItemStatus::Failed)
                } ==> r is Ok,
    {
        match self.find_item(item_id) {
            None => Err(LedgerError::NotFound),
            Some(i) => {
                if !self.items[i].status.can_advance_to(next) {
                    return Err(LedgerError::InvalidTransition);
                }
                let completes = match next {
                    ItemStatus::Completed => true,
                    _ => false,
                };
                let fails = match next {
                    ItemStatus::Failed => true,
                    _ => false,
                };
                if output_image_path.is_some() != completes || error.is_some() != fails {
                    return Err(LedgerError::InvalidTransition);
                }
                let old_item = self.items[i].copy();
                let updated = JobItem {
                    status: next,
                    output_image_path,
                    error,
                    updated_at: now,
                    ..old_item
                };
                let ghost before = self.items@;
                self.items.set(i, updated);
                proof {
                    assert forall|k: int| 0 <= k < self.items@.len() implies has_job(
                        self.jobs@,
                        #[trigger] self.items@[k].job_id@,
                    ) by {
                        assert(has_job(self.jobs@, before[k].job_id@));
                    }
                    assert forall|a: int| 0 <= a < self.jobs@.len() implies (
                    #[trigger] self.jobs@[a]).counters_ok() && self.jobs@[a].total_items
                        == items_of(self.items@, self.jobs@[a].id@).len() by {
                        lemma_filter_update_len(before, i as int, self.items@[i as int], item_of(self.jobs@[a].id@));
                        assert(self.items@ == before.update(i as int, self.items@[i as int]));
                    }
                    assert forall|a: int, b: int| 0 <= a < b < self.items@.len() implies text_le(
                        (#[trigger] self.items@[a]).created_at@,
                        (#[trigger] self.items@[b]).created_at@,
                    ) by {
                        assert(self.items@[a].created_at == before[a].created_at);
                        assert(self.items@[b].created_at == before[b].created_at);
                    }
                }
                Ok(())
            },
        }
    }
}

} // verus!
