use vstd::prelude::*;

use crate::jobs::{admits, has_job, item_not_of, item_of, items_of, job_ids_unique, job_not, listing, JobFilter};
use crate::ledger::{items_in_time_order, items_owned, Ledger};
use crate::model::text_le;
use crate::model::{Job, JobItem, JobWithItems};

verus! {

proof fn lemma_filter_keeps_all<A>(s: Seq<A>, pred: spec_fn(A) -> bool)
    requires
        forall|k: int| 0 <= k < s.len() ==> pred(#[trigger] s[k]),
    ensures
        s.filter(pred) == s,
    decreases s.len(),
{
    if s.len() > 0 {
        let rest = s.drop_last();
        lemma_filter_keeps_all(rest, pred);
        rest.lemma_filter_push(s.last(), pred);
        assert(rest.push(s.last()) =~= s);
    } else {
        assert(s.filter(pred) =~= s);
    }
}

proof fn lemma_filter_drops_all<A>(s: Seq<A>, pred: spec_fn(A) -> bool)
    requires
        forall|k: int| 0 <= k < s.len() ==> !pred(#[trigger] s[k]),
    ensures
        s.filter(pred) == Seq::<A>::empty(),
    decreases s.len(),
{
    if s.len() > 0 {
        let rest = s.drop_last();
        lemma_filter_drops_all(rest, pred);
        rest.lemma_filter_push(s.last(), pred);
        assert(rest.push(s.last()) =~= s);
    } else {
        assert(s.filter(pred) =~= Seq::<A>::empty());
    }
}

pub(crate) proof fn lemma_filter_nested<A>(s: Seq<A>, p: spec_fn(A) -> bool, q: spec_fn(A) -> bool)
    requires
        forall|x: A| #[trigger] q(x) ==> p(x),
    ensures
        s.filter(p).filter(q) == s.filter(q),
    decreases s.len(),
{
    if s.len() > 0 {
        let rest = s.drop_last();
        lemma_filter_nested(rest, p, q);
        assert(rest.push(s.last()) =~= s);
        rest.lemma_filter_push(s.last(), p);
        rest.lemma_filter_push(s.last(), q);
        rest.filter(p).lemma_filter_push(s.last(), q);
    } else {
        lemma_filter_keeps_all(s, p);
    }
}

pub(crate) proof fn lemma_filter_update_len<A>(s: Seq<A>, i: int, x: A, q: spec_fn(A) -> bool)
    requires
        0 <= i < s.len(),
        q(x) == q(s[i]),
    ensures
        s.update(i, x).filter(q).len() == s.filter(q).len(),
    decreases s.len(),
{
    let rest = s.drop_last();
    assert(rest.push(s.last()) =~= s);
    rest.lemma_filter_push(s.last(), q);
    if i == s.len() - 1 {
        assert(rest.push(x) =~= s.update(i, x));
        rest.lemma_filter_push(x, q);
    } else {
        lemma_filter_update_len(rest, i, x, q);
        assert(rest.update(i, x).push(s.last()) =~= s.update(i, x));
        rest.update(i, x).lemma_filter_push(s.last(), q);
    }
}

pub(crate) proof fn lemma_filter_keeps_time_order(s: Seq<JobItem>, p: spec_fn(JobItem) -> bool)
    requires
        items_in_time_order(s),
    ensures
        items_in_time_order(s.filter(p)),
    decreases s.len(),
{
    if s.len() > 0 {
        let rest = s.drop_last();
        let x = s.last();
        assert(rest.push(x) =~= s);
        assert forall|a: int, b: int| 0 <= a < b < rest.len() implies text_le(
            (#[trigger] rest[a]).created_at@,
            (#[trigger] rest[b]).created_at@,
        ) by {
            assert(rest[a] == s[a] && rest[b] == s[b]);
        }
        lemma_filter_keeps_time_order(rest, p);
        rest.lemma_filter_push(x, p);
        let f = rest.filter(p);
        if p(x) {
            let g = f.push(x);
            assert forall|a: int, b: int| 0 <= a < b < g.len() implies text_le(
                (#[trigger] g[a]).created_at@,
                (#[trigger] g[b]).created_at@,
            ) by {
                if b < f.len() {
                    assert(g[a] == f[a] && g[b] == f[b]);
                } else {
                    assert(g[a] == f[a]);
                    assert(f.contains(f[a]));
                    rest.lemma_filter_contains_rev(p, f[a]);
                    let j = choose|j: int| 0 <= j < rest.len() && rest[j] == f[a];
                    assert(s[j] == rest[j]);
                    assert(s[s.len() - 1] == x);
                }
            }
        }
    } else {
        lemma_filter_keeps_all(s, p);
    }
}

/// Storing a new job with its items after well-formed contents: the job's items
/// are exactly the ones stored with it, and every other job keeps exactly the
/// items it had.
pub proof fn law_insert_is_one_unit(
    jobs: Seq<Job>,
    items: Seq<JobItem>,
    entry: JobWithItems,
    other: Seq<char>,
)
    requires
        job_ids_unique(jobs),
        items_owned(jobs, items),
        !has_job(jobs, entry.job.id@),
        forall|k: int| 0 <= k < entry.items@.len() ==> #[trigger] entry.items@[k].job_id@ == entry.job.id@,
    ensures
        items_of(items + entry.items@, entry.job.id@) == entry.items@,
        other != entry.job.id@ ==> items_of(items + entry.items@, other) == items_of(items, other),
{
    let id = entry.job.id@;
    Seq::filter_distributes_over_add(items, entry.items@, item_of(id));
    Seq::filter_distributes_over_add(items, entry.items@, item_of(other));
    lemma_filter_keeps_all(entry.items@, item_of(id));
    assert forall|k: int| 0 <= k < items.len() implies !item_of(id)(#[trigger] items[k]) by {
        assert(has_job(jobs, items[k].job_id@));
    }
    lemma_filter_drops_all(items, item_of(id));
    assert(items.filter(item_of(id)) + entry.items@ =~= entry.items@);
    if other != id {
        lemma_filter_drops_all(entry.items@, item_of(other));
        assert(items.filter(item_of(other)) + Seq::<JobItem>::empty() =~= items.filter(item_of(other)));
    }
}

/// Creating a job is one step: afterwards the new job owns exactly the items
/// created with it, and every other job owns exactly what it owned before, so
/// no state holds part of a job's items.
pub proof fn law_creation_is_atomic(before: Ledger, after: Ledger, v: JobWithItems, other: Seq<char>)
    requires
        before.wf(),
        after.wf(),
        after.jobs() == before.jobs().push(v.job),
        after.items() == before.items() + v.items@,
        forall|k: int| 0 <= k < v.items@.len() ==> #[trigger] v.items@[k].job_id@ == v.job.id@,
    ensures
        items_of(after.items(), v.job.id@) == v.items@,
        other != v.job.id@ ==> items_of(after.items(), other) == items_of(before.items(), other),
{
    if has_job(before.jobs(), v.job.id@) {
        let i = choose|i: int| 0 <= i < before.jobs().len() && #[trigger] before.jobs()[i].id@ == v.job.id@;
        let n = before.jobs().len() as int;
        assert(after.jobs()[i] == before.jobs()[i]);
        assert(after.jobs()[n].id@ == v.job.id@);
    }
    law_insert_is_one_unit(before.jobs(), before.items(), v, other);
}

/// After a job is deleted, no job with its id is left (so looking it up fails)
/// and no item of it is left.
pub proof fn law_deleted_job_is_gone(before: Ledger, after: Ledger, id: Seq<char>)
    requires
        after.jobs() == before.jobs().filter(job_not(id)),
        after.items() == before.items().filter(item_not_of(id)),
    ensures
        !has_job(after.jobs(), id),
        items_of(after.items(), id) == Seq::<JobItem>::empty(),
{
    if has_job(after.jobs(), id) {
        let i = choose|i: int| 0 <= i < after.jobs().len() && #[trigger] after.jobs()[i].id@ == id;
        before.jobs().lemma_filter_pred(job_not(id), i);
    }
    assert forall|k: int| 0 <= k < after.items().len() implies !item_of(id)(#[trigger] after.items()[k]) by {
        before.items().lemma_filter_pred(item_not_of(id), k);
    }
    lemma_filter_drops_all(after.items(), item_of(id));
}

/// The active listing holds exactly the stored jobs that are pending or
/// processing.
pub proof fn law_active_listing(jobs: Seq<Job>, j: Job)
    ensures
        listing(jobs, JobFilter::ActiveOnly).contains(j) <==> jobs.contains(j) && j.status.spec_is_active(),
{
    let r = jobs.reverse();
    let p = admits(JobFilter::ActiveOnly);
    if listing(jobs, JobFilter::ActiveOnly).contains(j) {
        r.lemma_filter_contains_rev(p, j);
        let k = choose|k: int| 0 <= k < r.len() && r[k] == j;
        assert(jobs[jobs.len() - 1 - k] == j);
        let i = choose|i: int| 0 <= i < r.filter(p).len() && r.filter(p)[i] == j;
        r.lemma_filter_pred(p, i);
    }
    if jobs.contains(j) && j.status.spec_is_active() {
        let i = choose|i: int| 0 <= i < jobs.len() && jobs[i] == j;
        assert(r[jobs.len() - 1 - i] == j);
        r.lemma_filter_contains(p, jobs.len() - 1 - i);
    }
}

} // verus!
