use web_framework::JobQueue;

#[test]
fn every_job_is_taken_once_in_order() {
    let mut q: JobQueue<u32> = JobQueue::new();
    for job in 0..10u32 {
        assert!(q.submit(job).is_ok());
    }
    assert_eq!(q.len(), 10);
    let mut seen = Vec::new();
    while let Some(job) = q.take() {
        seen.push(job);
    }
    assert_eq!(seen, (0..10u32).collect::<Vec<u32>>());
    assert_eq!(q.take(), None);
}

#[test]
fn interleaved_submit_and_take() {
    let mut q: JobQueue<u32> = JobQueue::new();
    q.submit(1).unwrap();
    q.submit(2).unwrap();
    assert_eq!(q.take(), Some(1));
    q.submit(3).unwrap();
    assert_eq!(q.take(), Some(2));
    assert_eq!(q.take(), Some(3));
    assert_eq!(q.take(), None);
}

#[test]
fn closed_queue_refuses_but_drains() {
    let mut q: JobQueue<u32> = JobQueue::new();
    q.submit(7).unwrap();
    q.close();
    assert!(q.closed());
    assert_eq!(q.submit(8), Err(8));
    assert_eq!(q.take(), Some(7));
    assert_eq!(q.take(), None);
}

#[test]
fn many_jobs_few_takers_each_once() {
    let mut q: JobQueue<u32> = JobQueue::new();
    let mut counts = vec![0u32; 100];
    let mut next = 0u32;
    while next < 100 {
        for _ in 0..7 {
            if next < 100 {
                q.submit(next).unwrap();
                next += 1;
            }
        }
        for _ in 0..3 {
            if let Some(j) = q.take() {
                counts[j as usize] += 1;
            }
        }
    }
    while let Some(j) = q.take() {
        counts[j as usize] += 1;
    }
    assert!(counts.iter().all(|&c| c == 1));
}
