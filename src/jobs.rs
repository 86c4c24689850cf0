use vstd::prelude::*;

use crate::model::{
    CreateI2IJobRequest, CreateT2IJobRequest, ItemStatus, Job, JobItem, JobMode, JobStatus,
    JobWithItems,
};

verus! {

/// Relies on uuid's `Uuid::new_v4` and its `Display`, which writes the hyphenated
/// form: 32 hexadecimal digits and 4 hyphens. The value itself is random; the call
/// panics only when the operating system's random source fails.
#[verifier::external_body]
pub(crate) fn fresh_id() -> (r: String)
    ensures
        r@.len() == 36,
{
    uuid::Uuid::new_v4().to_string()
}

/// Relies on chrono's `Utc::now` and `DateTime::to_rfc3339`; the value depends on the clock.
#[verifier::external_body]
pub(crate) fn now_rfc3339() -> (r: String) {
    chrono::Utc::now().to_rfc3339()
}

/// Which jobs a listing returns.
#[derive(Clone, Copy, Debug, PartialEq, Eq, Structural)]
pub enum JobFilter {
    All,
    ActiveOnly,
}

impl JobFilter {
    /// The filter a caller names: "active" selects active jobs, anything else all jobs.
    pub fn from_status(status: &Option<String>) -> (r: JobFilter)
        ensures
            r == JobFilter::ActiveOnly <==> (status matches Some(s) && s@ == "active"@),
    {
        match status {
            Some(s) => {
                if crate::model::str_eq(s.as_str(), "active") {
                    JobFilter::ActiveOnly
                } else {
                    JobFilter::All
                }
            },
            None => JobFilter::All,
        }
    }
}

/// Why the ledger refused an operation.
#[derive(Clone, Copy, Debug, PartialEq, Eq, Structural)]
pub enum LedgerError {
    /// No job has the requested id.
    NotFound,
    /// A job with that id is already stored.
    DuplicateId,
    /// An item handed in with a job belongs to another job.
    ForeignItem,
    /// The counters of a job handed in do not fit its items.
    InconsistentCounts,
    /// An item handed in has the id of another item.
    DuplicateItemId,
    /// A job handed in is older than a stored one.
    OutOfOrder,
    /// The item cannot move to the requested status, or the result fields do not fit it.
    InvalidTransition,
}

impl LedgerError {
    pub open spec fn spec_message(self) -> Seq<char> {
        match self {
            LedgerError::NotFound => "Job not found"@,
            LedgerError::DuplicateId => "A job with this id already exists"@,
            LedgerError::ForeignItem => "Item belongs to another job"@,
            LedgerError::InvalidTransition => "Invalid item status change"@,
            LedgerError::OutOfOrder => "Job is older than a stored job"@,
            LedgerError::DuplicateItemId => "An item with this id already exists"@,
            LedgerError::InconsistentCounts => "Job counters do not match its items"@,
        }
    }

    /// A description for the user.
    pub fn message(&self) -> (r: String)
        ensures
            r@ == self.spec_message(),
    {
        match self {
            LedgerError::NotFound => String::from_str("Job not found"),
            LedgerError::DuplicateId => String::from_str("A job with this id already exists"),
            LedgerError::ForeignItem => String::from_str("Item belongs to another job"),
            LedgerError::InvalidTransition => String::from_str("Invalid item status change"),
            LedgerError::OutOfOrder => String::from_str("Job is older than a stored job"),
            LedgerError::DuplicateItemId => String::from_str("An item with this id already exists"),
            LedgerError::InconsistentCounts => String::from_str("Job counters do not match its items"),
        }
    }
}

pub open spec fn filter_admits(filter: JobFilter, job: Job) -> bool {
    match filter {
        JobFilter::All => true,
        JobFilter::ActiveOnly => job.status.spec_is_active(),
    }
}

pub open spec fn item_of(job_id: Seq<char>) -> spec_fn(JobItem) -> bool {
    |it: JobItem| it.job_id@ == job_id
}

/// The items of one job, in the order in which they were stored.
pub open spec fn items_of(items: Seq<JobItem>, job_id: Seq<char>) -> Seq<JobItem> {
    items.filter(item_of(job_id))
}

pub open spec fn job_not(id: Seq<char>) -> spec_fn(Job) -> bool {
    |j: Job| j.id@ != id
}

pub open spec fn item_not_of(job_id: Seq<char>) -> spec_fn(JobItem) -> bool {
    |it: JobItem| it.job_id@ != job_id
}

/// The jobs that a listing admits, newest first (jobs are stored oldest first).
pub open spec fn listing(jobs: Seq<Job>, filter: JobFilter) -> Seq<Job> {
    jobs.reverse().filter(admits(filter))
}

pub open spec fn admits(filter: JobFilter) -> spec_fn(Job) -> bool {
    |j: Job| filter_admits(filter, j)
}

pub open spec fn job_ids_unique(jobs: Seq<Job>) -> bool {
    forall|i: int, j: int|
        0 <= i < jobs.len() && 0 <= j < jobs.len() && i != j ==> #[trigger] jobs[i].id@
            != #[trigger] jobs[j].id@
}

pub open spec fn has_job(jobs: Seq<Job>, id: Seq<char>) -> bool {
    exists|i: int| 0 <= i < jobs.len() && #[trigger] jobs[i].id@ == id
}

/// A freshly submitted item: pending, with no output and no error.
pub open spec fn is_fresh_item(it: JobItem, job_id: Seq<char>, item_id: Seq<char>, now: Seq<char>) -> bool {
    &&& it.id@ == item_id
    &&& it.job_id@ == job_id
    &&& it.output_image_path is None
    &&& it.status == ItemStatus::Pending
    &&& it.error is None
    &&& it.created_at@ == now
    &&& it.updated_at@ == now
}

/// A freshly submitted job: pending, with no batch bookkeeping and zero counters.
pub open spec fn is_fresh_job(
    job: Job,
    job_id: Seq<char>,
    mode: JobMode,
    prompt: Seq<char>,
    output_size: Seq<char>,
    temperature_milli: i64,
    aspect_ratio: Seq<char>,
    total: nat,
    now: Seq<char>,
) -> bool {
    &&& job.id@ == job_id
    &&& job.status == JobStatus::Pending
    &&& job.mode == mode
    &&& job.prompt@ == prompt
    &&& job.output_size@ == output_size
    &&& job.temperature_milli == temperature_milli
    &&& job.aspect_ratio@ == aspect_ratio
    &&& job.batch_job_name is None
    &&& job.batch_temp_file is None
    &&& job.total_items == total
    &&& job.completed_items == 0
    &&& job.failed_items == 0
    &&& job.created_at@ == now
    &&& job.updated_at@ == now
}

/// The representative prompt of a text-to-image job: its first prompt, or empty.
pub open spec fn first_prompt(prompts: Seq<String>) -> Seq<char> {
    if prompts.len() > 0 {
        prompts[0]@
    } else {
        Seq::empty()
    }
}

/// The record of a text-to-image job built from `request` with the given ids and time.
pub open spec fn is_new_t2i(
    r: JobWithItems,
    job_id: Seq<char>,
    item_ids: Seq<String>,
    now: Seq<char>,
    request: CreateT2IJobRequest,
) -> bool {
    let n = request.prompts@.len();
    &&& is_fresh_job(
        r.job,
        job_id,
        JobMode::TextToImage,
        first_prompt(request.prompts@),
        request.output_size@,
        request.temperature_milli,
        request.aspect_ratio@,
        n,
        now,
    )
    &&& r.items@.len() == n
    &&& forall|k: int|
        0 <= k < n ==> {
            &&& is_fresh_item(#[trigger] r.items@[k], job_id, item_ids[k]@, now)
            &&& r.items@[k].input_prompt matches Some(p) && p@ == request.prompts@[k]@
            &&& r.items@[k].input_image_path is None
        }
}

/// The record of an image-to-image job built from `request` with the given ids and time.
pub open spec fn is_new_i2i(
    r: JobWithItems,
    job_id: Seq<char>,
    item_ids: Seq<String>,
    now: Seq<char>,
    request: CreateI2IJobRequest,
) -> bool {
    let n = request.image_paths@.len();
    &&& is_fresh_job(
        r.job,
        job_id,
        JobMode::ImageToImage,
        request.prompt@,
        request.output_size@,
        request.temperature_milli,
        request.aspect_ratio@,
        n,
        now,
    )
    &&& r.items@.len() == n
    &&& forall|k: int|
        0 <= k < n ==> {
            &&& is_fresh_item(#[trigger] r.items@[k], job_id, item_ids[k]@, now)
            &&& r.items@[k].input_prompt is None
            &&& r.items@[k].input_image_path matches Some(p) && p@ == request.image_paths@[k]@
        }
}

fn copy_opt(o: &Option<String>) -> (r: Option<String>)
    ensures
        r == *o,
{
    match o {
        Some(s) => Some(s.clone()),
        None => None,
    }
}

impl Job {
    /// A field-by-field copy.
    pub fn copy(&self) -> (r: Job)
        ensures
            r == *self,
    {
        Job {
            id: self.id.clone(),
            status: self.status,
            mode: self.mode,
            prompt: self.prompt.clone(),
            output_size: self.output_size.clone(),
            temperature_milli: self.temperature_milli,
            aspect_ratio: self.aspect_ratio.clone(),
            batch_job_name: copy_opt(&self.batch_job_name),
            batch_temp_file: copy_opt(&self.batch_temp_file),
            total_items: self.total_items,
            completed_items: self.completed_items,
            failed_items: self.failed_items,
            created_at: self.created_at.clone(),
            updated_at: self.updated_at.clone(),
        }
    }
}

impl JobItem {
    /// A field-by-field copy.
    pub fn copy(&self) -> (r: JobItem)
        ensures
            r == *self,
    {
        JobItem {
            id: self.id.clone(),
            job_id: self.job_id.clone(),
            input_prompt: copy_opt(&self.input_prompt),
            input_image_path: copy_opt(&self.input_image_path),
            output_image_path: copy_opt(&self.output_image_path),
            status: self.status,
            error: copy_opt(&self.error),
            created_at: self.created_at.clone(),
            updated_at: self.updated_at.clone(),
        }
    }
}

impl JobWithItems {
    /// A field-by-field copy.
    pub fn copy(&self) -> (r: JobWithItems)
        ensures
            r.job == self.job,
            r.items@ == self.items@,
    {
        let mut items: Vec<JobItem> = Vec::new();
        let mut k: usize = 0;
        while k < self.items.len()
            invariant
                0 <= k <= self.items@.len(),
                items@ == self.items@.subrange(0, k as int),
            decreases self.items@.len() - k,
        {
            items.push(self.items[k].copy());
            proof {
                assert(items@ =~= self.items@.subrange(0, k + 1));
            }
            k = k + 1;
        }
        proof {
            assert(items@ =~= self.items@);
        }
        JobWithItems { job: self.job.copy(), items }
    }
}

fn fresh_item(job_id: &String, item_id: &String, now: &String) -> (r: JobItem)
    ensures
        is_fresh_item(r, job_id@, item_id@, now@),
        r.input_prompt is None,
        r.input_image_path is None,
{
    JobItem {
        id: item_id.clone(),
        job_id: job_id.clone(),
        input_prompt: None,
        input_image_path: None,
        output_image_path: None,
        status: ItemStatus::Pending,
        error: None,
        created_at: now.clone(),
        updated_at: now.clone(),
    }
}

/// Builds the record of a text-to-image job: one pending item per prompt, in order.
pub fn new_t2i_job(
    job_id: &String,
    item_ids: &Vec<String>,
    now: &String,
    request: &CreateT2IJobRequest,
) -> (r: JobWithItems)
    requires
        item_ids@.len() == request.prompts@.len(),
    ensures
        is_new_t2i(r, job_id@, item_ids@, now@, *request),
{
    let n = request.prompts.len();
    let mut items: Vec<JobItem> = Vec::new();
    let mut k: usize = 0;
    while k < n
        invariant
            n == request.prompts@.len(),
            n == item_ids@.len(),
            0 <= k <= n,
            items@.len() == k,
            forall|j: int|
                0 <= j < k ==> {
                    &&& is_fresh_item(#[trigger] items@[j], job_id@, item_ids@[j]@, now@)
                    &&& items@[j].input_prompt matches Some(p) && p@ == request.prompts@[j]@
                    &&& items@[j].input_image_path is None
                },
        decreases n - k,
    {
        let mut it = fresh_item(job_id, &item_ids[k], now);
        it.input_prompt = Some(request.prompts[k].clone());
        items.push(it);
        k = k + 1;
    }
    let prompt = if n > 0 {
        request.prompts[0].clone()
    } else {
        String::new()
    };
    let job = Job {
        id: job_id.clone(),
        status: JobStatus::Pending,
        mode: JobMode::TextToImage,
        prompt,
        output_size: request.output_size.clone(),
        temperature_milli: request.temperature_milli,
        aspect_ratio: request.aspect_ratio.clone(),
        batch_job_name: None,
        batch_temp_file: None,
        total_items: n,
        completed_items: 0,
        failed_items: 0,
        created_at: now.clone(),
        updated_at: now.clone(),
    };
    JobWithItems { job, items }
}

/// Builds the record of an image-to-image job: one pending item per input image, in order.
pub fn new_i2i_job(
    job_id: &String,
    item_ids: &Vec<String>,
    now: &String,
    request: &CreateI2IJobRequest,
) -> (r: JobWithItems)
    requires
        item_ids@.len() == request.image_paths@.len(),
    ensures
        is_new_i2i(r, job_id@, item_ids@, now@, *request),
{
    let n = request.image_paths.len();
    let mut items: Vec<JobItem> = Vec::new();
    let mut k: usize = 0;
    while k < n
        invariant
            n == request.image_paths@.len(),
            n == item_ids@.len(),
            0 <= k <= n,
            items@.len() == k,
            forall|j: int|
                0 <= j < k ==> {
                    &&& is_fresh_item(#[trigger] items@[j], job_id@, item_ids@[j]@, now@)
                    &&& items@[j].input_prompt is None
                    &&& items@[j].input_image_path matches Some(p) && p@
                        == request.image_paths@[j]@
                },
        decreases n - k,
    {
        let mut it = fresh_item(job_id, &item_ids[k], now);
        it.input_image_path = Some(request.image_paths[k].clone());
        items.push(it);
        k = k + 1;
    }
    let job = Job {
        id: job_id.clone(),
        status: JobStatus::Pending,
        mode: JobMode::ImageToImage,
        prompt: request.prompt.clone(),
        output_size: request.output_size.clone(),
        temperature_milli: request.temperature_milli,
        aspect_ratio: request.aspect_ratio.clone(),
        batch_job_name: None,
        batch_temp_file: None,
        total_items: n,
        completed_items: 0,
        failed_items: 0,
        created_at: now.clone(),
        updated_at: now.clone(),
    };
    JobWithItems { job, items }
}

/// `n` fresh random identifiers.
pub(crate) fn fresh_ids(n: usize) -> (r: Vec<String>)
    ensures
        r@.len() == n,
        forall|k: int| 0 <= k < n ==> (#[trigger] r@[k])@.len() == 36,
{
    let mut ids: Vec<String> = Vec::new();
    let mut k: usize = 0;
    while k < n
        invariant
            0 <= k <= n,
            ids@.len() == k,
            forall|j: int| 0 <= j < k ==> (#[trigger] ids@[j])@.len() == 36,
        decreases n - k,
    {
        ids.push(fresh_id());
        k = k + 1;
    }
    ids
}

} // verus!
