use visual_search::app::Job;
use visual_search::events::{AddImage, ImageBytes, ImageSource};
use visual_search::work_queue::WorkQueue;

fn job(id: &str) -> Job {
    Job::AddImage(AddImage {
        source: ImageSource::ImageBytes(ImageBytes { bytes: vec![0xAB] }),
        collection_name: "c".into(),
        id: id.into(),
    })
}

#[test]
fn empty_queue_yields_no_work() {
    let mut q: WorkQueue<Job> = WorkQueue::new();
    assert!(q.get_work().is_none());
}

#[test]
fn add_work_deduplicates_structurally_equal_jobs() {
    let mut q: WorkQueue<Job> = WorkQueue::new();
    assert_eq!(q.add_work(job("a")), 1);
    assert_eq!(q.add_work(job("a")), 1);
    assert_eq!(q.add_work(job("b")), 2);
    assert_eq!(q.add_work(job("a")), 2);
}

#[test]
fn distinct_jobs_come_out_in_fifo_order() {
    let mut q: WorkQueue<Job> = WorkQueue::new();
    q.add_work(job("first"));
    q.add_work(job("second"));
    q.add_work(job("third"));

    for expected in ["first", "second", "third"] {
        match q.get_work() {
            Some(Job::AddImage(a)) => assert_eq!(a.id, expected),
            None => panic!("queue ran dry too early"),
        }
    }
    assert!(q.get_work().is_none());
}

#[test]
fn dequeued_job_may_be_enqueued_again() {
    let mut q: WorkQueue<Job> = WorkQueue::new();
    q.add_work(job("a"));
    assert!(q.get_work().is_some());
    assert_eq!(q.add_work(job("a")), 1);
}

#[test]
fn retain_copies_matching_jobs_without_draining() {
    let mut q: WorkQueue<Job> = WorkQueue::new();
    q.add_work(job("keep-1"));
    q.add_work(job("drop"));
    q.add_work(job("keep-2"));

    let kept = q.retain(|j: &Job| {
        let Job::AddImage(a) = j;
        a.id.starts_with("keep")
    });
    let ids: Vec<String> = kept
        .iter()
        .map(|j| {
            let Job::AddImage(a) = j;
            a.id.clone()
        })
        .collect();
    assert_eq!(ids, vec!["keep-1".to_string(), "keep-2".to_string()]);

    // The queue itself is untouched.
    assert_eq!(q.inner.len(), 3);
}
