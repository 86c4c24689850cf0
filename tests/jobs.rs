use nanobanana::jobs::{new_i2i_job, new_t2i_job, JobFilter, LedgerError};
use nanobanana::ledger::Ledger;
use nanobanana::model::{
    CreateI2IJobRequest, CreateT2IJobRequest, ItemStatus, Job, JobItem, JobMode, JobStatus,
    JobWithItems,
};

fn s(x: &str) -> String {
    x.to_string()
}

fn t2i(prompts: &[&str]) -> CreateT2IJobRequest {
    CreateT2IJobRequest {
        prompts: prompts.iter().map(|p| p.to_string()).collect(),
        output_size: s("1K"),
        temperature_milli: 1000,
        aspect_ratio: s("1:1"),
    }
}

fn i2i(prompt: &str, paths: &[&str]) -> CreateI2IJobRequest {
    CreateI2IJobRequest {
        prompt: s(prompt),
        image_paths: paths.iter().map(|p| p.to_string()).collect(),
        output_size: s("2K"),
        temperature_milli: 700,
        aspect_ratio: s("16:9"),
    }
}

fn stored_job(id: &str, status: JobStatus, created_at: &str) -> JobWithItems {
    JobWithItems {
        job: Job {
            id: s(id),
            status,
            mode: JobMode::TextToImage,
            prompt: s("p"),
            output_size: s("1K"),
            temperature_milli: 1000,
            aspect_ratio: s("1:1"),
            batch_job_name: None,
            batch_temp_file: None,
            total_items: 0,
            completed_items: 0,
            failed_items: 0,
            created_at: s(created_at),
            updated_at: s(created_at),
        },
        items: vec![],
    }
}

fn item(id: &str, job_id: &str) -> JobItem {
    JobItem {
        id: s(id),
        job_id: s(job_id),
        input_prompt: Some(s("x")),
        input_image_path: None,
        output_image_path: None,
        status: ItemStatus::Pending,
        error: None,
        created_at: s("t"),
        updated_at: s("t"),
    }
}

#[test]
fn t2i_job_has_one_pending_item_per_prompt() {
    let mut l = Ledger::new();
    let v = l.create_t2i_job(t2i(&["a cat", "a dog", "a fox"])).unwrap();
    assert_eq!(v.job.total_items, 3);
    assert_eq!(v.job.status, JobStatus::Pending);
    assert_eq!(v.job.mode, JobMode::TextToImage);
    assert_eq!(v.job.prompt, "a cat");
    assert_eq!(v.job.completed_items, 0);
    assert_eq!(v.job.failed_items, 0);
    assert_eq!(v.job.id.len(), 36);
    assert_eq!(v.items.len(), 3);
    for (it, p) in v.items.iter().zip(["a cat", "a dog", "a fox"]) {
        assert_eq!(it.status, ItemStatus::Pending);
        assert_eq!(it.input_prompt.as_deref(), Some(p));
        assert!(it.input_image_path.is_none());
        assert!(it.output_image_path.is_none());
        assert!(it.error.is_none());
        assert_eq!(it.job_id, v.job.id);
    }
    let got = l.get_job(&v.job.id).unwrap();
    assert_eq!(got.items.len(), 3);
    assert_eq!(got.items[1].input_prompt.as_deref(), Some("a dog"));
}

#[test]
fn i2i_job_has_one_pending_item_per_image() {
    let mut l = Ledger::new();
    let v = l.create_i2i_job(i2i("make it blue", &["/a.png", "/b.jpg"])).unwrap();
    assert_eq!(v.job.total_items, 2);
    assert_eq!(v.job.mode, JobMode::ImageToImage);
    assert_eq!(v.job.prompt, "make it blue");
    assert_eq!(v.job.temperature_milli, 700);
    assert_eq!(v.job.aspect_ratio, "16:9");
    assert_eq!(v.items.len(), 2);
    assert!(v.items[0].input_prompt.is_none());
    assert_eq!(v.items[0].input_image_path.as_deref(), Some("/a.png"));
    assert_eq!(v.items[1].input_image_path.as_deref(), Some("/b.jpg"));
    assert_eq!(l.get_job(&v.job.id).unwrap().items.len(), 2);
}

#[test]
fn empty_prompt_list_gives_degenerate_job() {
    let mut l = Ledger::new();
    let v = l.create_t2i_job(t2i(&[])).unwrap();
    assert_eq!(v.job.total_items, 0);
    assert_eq!(v.job.prompt, "");
    assert!(v.items.is_empty());
}

#[test]
fn builders_use_given_ids_and_time() {
    let ids = vec![s("i1"), s("i2")];
    let v = new_t2i_job(&s("job"), &ids, &s("2024-01-01T00:00:00+00:00"), &t2i(&["x", "y"]));
    assert_eq!(v.job.id, "job");
    assert_eq!(v.items[0].id, "i1");
    assert_eq!(v.items[1].id, "i2");
    assert_eq!(v.items[1].created_at, "2024-01-01T00:00:00+00:00");
    assert_eq!(v.job.created_at, "2024-01-01T00:00:00+00:00");
    let w = new_i2i_job(&s("j2"), &ids, &s("now"), &i2i("p", &["/x.png", "/y.png"]));
    assert_eq!(w.items[0].job_id, "j2");
    assert_eq!(w.items[1].input_image_path.as_deref(), Some("/y.png"));
}

#[test]
fn deleted_job_is_not_found_and_has_no_items() {
    let mut l = Ledger::new();
    let a = l.create_t2i_job(t2i(&["one", "two"])).unwrap();
    let b = l.create_t2i_job(t2i(&["three"])).unwrap();
    l.delete_job(&a.job.id);
    assert_eq!(l.get_job(&a.job.id).unwrap_err(), LedgerError::NotFound);
    let kept = l.get_job(&b.job.id).unwrap();
    assert_eq!(kept.items.len(), 1);
    assert_eq!(l.get_jobs(JobFilter::All).len(), 1);
}

#[test]
fn deleting_absent_job_is_no_error() {
    let mut l = Ledger::new();
    let a = l.create_t2i_job(t2i(&["one"])).unwrap();
    l.delete_job(&s("no-such-job"));
    assert_eq!(l.get_jobs(JobFilter::All).len(), 1);
    assert!(l.get_job(&a.job.id).is_ok());
}

#[test]
fn unknown_job_is_not_found() {
    let l = Ledger::new();
    assert_eq!(l.get_job(&s("missing")).unwrap_err(), LedgerError::NotFound);
}

#[test]
fn active_listing_is_pending_and_processing_newest_first() {
    let mut l = Ledger::new();
    l.insert_job(stored_job("a", JobStatus::Pending, "1")).unwrap();
    l.insert_job(stored_job("b", JobStatus::Completed, "2")).unwrap();
    l.insert_job(stored_job("c", JobStatus::Processing, "3")).unwrap();
    l.insert_job(stored_job("d", JobStatus::Failed, "4")).unwrap();
    l.insert_job(stored_job("e", JobStatus::Partial, "5")).unwrap();
    l.insert_job(stored_job("f", JobStatus::Pending, "6")).unwrap();
    let active: Vec<String> = l.get_jobs(JobFilter::ActiveOnly).into_iter().map(|j| j.id).collect();
    assert_eq!(active, vec![s("f"), s("c"), s("a")]);
    let all: Vec<String> = l.get_jobs(JobFilter::All).into_iter().map(|j| j.id).collect();
    assert_eq!(all, vec![s("f"), s("e"), s("d"), s("c"), s("b"), s("a")]);
}

#[test]
fn duplicate_job_id_is_refused_and_nothing_stored() {
    let mut l = Ledger::new();
    l.insert_job(stored_job("a", JobStatus::Pending, "1")).unwrap();
    let mut dup = stored_job("a", JobStatus::Pending, "2");
    dup.items.push(item("i", "a"));
    assert_eq!(l.insert_job(dup).unwrap_err(), LedgerError::DuplicateId);
    assert!(l.get_job(&s("a")).unwrap().items.is_empty());
}

#[test]
fn item_of_another_job_is_refused() {
    let mut l = Ledger::new();
    let mut entry = stored_job("a", JobStatus::Pending, "1");
    entry.items.push(item("i1", "a"));
    entry.items.push(item("i2", "b"));
    assert_eq!(l.insert_job(entry).unwrap_err(), LedgerError::ForeignItem);
    assert_eq!(l.get_job(&s("a")).unwrap_err(), LedgerError::NotFound);
}

#[test]
fn creation_leaves_other_jobs_items_alone() {
    let mut l = Ledger::new();
    let a = l.create_t2i_job(t2i(&["one", "two"])).unwrap();
    let b = l.create_i2i_job(i2i("p", &["/1.png", "/2.png", "/3.png"])).unwrap();
    assert_eq!(l.get_job(&a.job.id).unwrap().items.len(), 2);
    assert_eq!(l.get_job(&b.job.id).unwrap().items.len(), 3);
    assert_ne!(a.job.id, b.job.id);
}

#[test]
fn status_and_mode_names_round_trip() {
    for st in [
        JobStatus::Pending,
        JobStatus::Processing,
        JobStatus::Completed,
        JobStatus::Failed,
        JobStatus::Partial,
    ] {
        assert_eq!(JobStatus::parse(&st.as_text()), Some(st));
    }
    assert_eq!(JobStatus::Processing.as_text(), "processing");
    assert_eq!(JobStatus::parse("done"), None);
    assert_eq!(ItemStatus::parse("failed"), Some(ItemStatus::Failed));
    assert_eq!(ItemStatus::parse("partial"), None);
    assert_eq!(JobMode::parse("image-to-image"), Some(JobMode::ImageToImage));
    assert_eq!(JobMode::TextToImage.as_text(), "text-to-image");
    assert_eq!(JobMode::parse("Text-To-Image"), None);
}

#[test]
fn filter_from_status_name() {
    assert_eq!(JobFilter::from_status(&Some(s("active"))), JobFilter::ActiveOnly);
    assert_eq!(JobFilter::from_status(&Some(s("all"))), JobFilter::All);
    assert_eq!(JobFilter::from_status(&None), JobFilter::All);
    assert_eq!(LedgerError::NotFound.message(), "Job not found");
}

#[test]
fn item_lifecycle_steps() {
    assert!(ItemStatus::Pending.can_advance_to(ItemStatus::Processing));
    assert!(ItemStatus::Processing.can_advance_to(ItemStatus::Completed));
    assert!(ItemStatus::Processing.can_advance_to(ItemStatus::Failed));
    assert!(!ItemStatus::Pending.can_advance_to(ItemStatus::Completed));
    assert!(!ItemStatus::Completed.can_advance_to(ItemStatus::Processing));
    assert!(!ItemStatus::Failed.can_advance_to(ItemStatus::Failed));
}

#[test]
fn advancing_items_records_results() {
    let mut l = Ledger::new();
    let mut entry = stored_job("a", JobStatus::Pending, "1");
    entry.items.push(item("i1", "a"));
    entry.items.push(item("i2", "a"));
    entry.job.total_items = 2;
    l.insert_job(entry).unwrap();
    assert_eq!(
        l.advance_item(&s("i1"), ItemStatus::Completed, Some(s("/out.png")), None, s("t2")),
        Err(LedgerError::InvalidTransition)
    );
    l.advance_item(&s("i1"), ItemStatus::Processing, None, None, s("t2")).unwrap();
    assert_eq!(
        l.advance_item(&s("i1"), ItemStatus::Completed, None, None, s("t3")),
        Err(LedgerError::InvalidTransition)
    );
    l.advance_item(&s("i1"), ItemStatus::Completed, Some(s("/out.png")), None, s("t3")).unwrap();
    l.advance_item(&s("i2"), ItemStatus::Processing, None, None, s("t4")).unwrap();
    l.advance_item(&s("i2"), ItemStatus::Failed, None, Some(s("quota")), s("t5")).unwrap();
    assert_eq!(
        l.advance_item(&s("nope"), ItemStatus::Processing, None, None, s("t6")),
        Err(LedgerError::NotFound)
    );
    let v = l.get_job(&s("a")).unwrap();
    assert_eq!(v.items[0].status, ItemStatus::Completed);
    assert_eq!(v.items[0].output_image_path.as_deref(), Some("/out.png"));
    assert_eq!(v.items[0].updated_at, "t3");
    assert_eq!(v.items[1].status, ItemStatus::Failed);
    assert_eq!(v.items[1].error.as_deref(), Some("quota"));
    assert!(v.items[1].output_image_path.is_none());
}

#[test]
fn counters_must_fit_items() {
    let mut l = Ledger::new();
    let mut entry = stored_job("a", JobStatus::Pending, "1");
    entry.items.push(item("i1", "a"));
    assert_eq!(l.insert_job(entry.clone()).unwrap_err(), LedgerError::InconsistentCounts);
    entry.job.total_items = 1;
    entry.job.completed_items = 1;
    entry.job.failed_items = 1;
    assert_eq!(l.insert_job(entry.clone()).unwrap_err(), LedgerError::InconsistentCounts);
    entry.job.failed_items = 0;
    l.insert_job(entry).unwrap();
    let v = l.get_job(&s("a")).unwrap();
    assert_eq!(v.items.len(), v.job.total_items);
}

#[test]
fn older_job_than_stored_is_refused() {
    let mut l = Ledger::new();
    l.insert_job(stored_job("a", JobStatus::Pending, "2026-01-01T00:00:02+00:00")).unwrap();
    assert_eq!(
        l.insert_job(stored_job("b", JobStatus::Pending, "2026-01-01T00:00:01+00:00")).unwrap_err(),
        LedgerError::OutOfOrder
    );
    l.insert_job(stored_job("c", JobStatus::Pending, "2026-01-01T00:00:02+00:00")).unwrap();
}

#[test]
fn active_listing_of_five_jobs() {
    let mut l = Ledger::new();
    l.insert_job(stored_job("A", JobStatus::Pending, "2026-01-01 00:00:01")).unwrap();
    l.insert_job(stored_job("B", JobStatus::Completed, "2026-01-01 00:00:02")).unwrap();
    l.insert_job(stored_job("C", JobStatus::Processing, "2026-01-01 00:00:03")).unwrap();
    l.insert_job(stored_job("D", JobStatus::Failed, "2026-01-01 00:00:04")).unwrap();
    l.insert_job(stored_job("E", JobStatus::Partial, "2026-01-01 00:00:05")).unwrap();
    let ids: Vec<String> = l.get_jobs(JobFilter::ActiveOnly).into_iter().map(|j| j.id).collect();
    assert_eq!(ids, vec![s("C"), s("A")]);
}

#[test]
fn created_jobs_never_go_back_in_time() {
    let mut l = Ledger::new();
    l.insert_job(stored_job("future", JobStatus::Completed, "9999-12-31T23:59:59+00:00")).unwrap();
    let v = l.create_t2i_job(t2i(&["x"])).unwrap();
    assert_eq!(v.job.created_at, "9999-12-31T23:59:59+00:00");
    assert_eq!(v.items[0].created_at, v.job.created_at);
    let all = l.get_jobs(JobFilter::All);
    assert_eq!(all[0].id, v.job.id);
    assert!(all[0].created_at >= all[1].created_at);
}

#[test]
fn repeated_item_id_is_refused() {
    let mut l = Ledger::new();
    let mut a = stored_job("a", JobStatus::Pending, "1");
    a.items.push(item("i1", "a"));
    a.job.total_items = 1;
    l.insert_job(a).unwrap();
    let mut b = stored_job("b", JobStatus::Pending, "2");
    b.items.push(item("i1", "b"));
    b.job.total_items = 1;
    assert_eq!(l.insert_job(b).unwrap_err(), LedgerError::DuplicateItemId);
    let mut c = stored_job("c", JobStatus::Pending, "3");
    c.items.push(item("i2", "c"));
    c.items.push(item("i2", "c"));
    c.job.total_items = 2;
    assert_eq!(l.insert_job(c).unwrap_err(), LedgerError::DuplicateItemId);
    assert_eq!(l.get_jobs(JobFilter::All).len(), 1);
}

#[test]
fn items_must_come_in_time_order() {
    let mut l = Ledger::new();
    let mut a = stored_job("a", JobStatus::Pending, "2");
    let mut late = item("i1", "a");
    late.created_at = s("5");
    a.items.push(late);
    a.job.total_items = 1;
    l.insert_job(a).unwrap();
    let mut b = stored_job("b", JobStatus::Pending, "3");
    let mut early = item("i2", "b");
    early.created_at = s("4");
    b.items.push(early);
    b.job.total_items = 1;
    assert_eq!(l.insert_job(b).unwrap_err(), LedgerError::OutOfOrder);
    let v = l.create_t2i_job(t2i(&["x", "y"])).unwrap();
    assert_eq!(v.items[0].created_at, "5");
    assert_eq!(v.job.created_at, "5");
}
