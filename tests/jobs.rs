use throttled_fetch::dispatcher::{Dispatcher, JobError, JobStatus, Progress, ProgressEvent};
use throttled_fetch::job_list::parse_job_list;
use throttled_fetch::jobs::{Job, JobSource};

fn job(i: usize) -> Job {
    Job::new(format!("http://example.com/{}", i), format!("file{}", i))
}

fn jobs(k: usize) -> Vec<Job> {
    (0..k).map(job).collect()
}

#[test]
fn source_hands_out_each_job_once_in_order() {
    let mut source = JobSource::new(jobs(3));
    assert_eq!(source.len(), 3);
    for i in 0..3 {
        let (index, claimed) = source.next().unwrap();
        assert_eq!(index, i);
        assert_eq!(claimed.source, format!("http://example.com/{}", i));
        assert_eq!(claimed.destination, format!("file{}", i));
    }
    assert!(source.is_exhausted());
    for _ in 0..5 {
        assert!(source.next().is_none());
    }
    assert_eq!(source.job(1).destination, "file1");
}

#[test]
fn exactly_once_claim_among_many_claimers() {
    let k = 17;
    let m = 4;
    let mut source = JobSource::new(jobs(k));
    let mut claimed: Vec<Vec<usize>> = vec![Vec::new(); m];
    let mut exhausted = vec![false; m];
    let mut round = 0;
    while exhausted.iter().any(|e| !e) {
        let claimer = round % m;
        match source.next() {
            Some((i, j)) => {
                assert_eq!(j.destination, format!("file{}", i));
                claimed[claimer].push(i);
            }
            None => exhausted[claimer] = true,
        }
        round += 1;
    }
    let mut all: Vec<usize> = claimed.into_iter().flatten().collect();
    all.sort();
    assert_eq!(all, (0..k).collect::<Vec<_>>());
    assert!(source.next().is_none());
}

#[test]
fn empty_source_is_exhausted() {
    let mut source = JobSource::new(Vec::new());
    assert!(source.is_exhausted());
    assert!(source.next().is_none());
}

fn check_event(event: &ProgressEvent, index: usize) {
    assert_eq!(event.job_index, index);
    assert_eq!(event.source, format!("http://example.com/{}", index));
    assert_eq!(event.destination, format!("file{}", index));
}

#[test]
fn events_pair_for_mixed_outcomes() {
    let k = 6;
    let mut dispatcher = Dispatcher::new(jobs(k));
    assert_eq!(dispatcher.job_count(), k);
    let mut started = Vec::new();
    let mut finished = Vec::new();
    // Two executors interleave their claims and finishes.
    let (a, _, ev_a) = dispatcher.claim().unwrap();
    let (b, _, ev_b) = dispatcher.claim().unwrap();
    for (i, ev) in [(a, ev_a), (b, ev_b)] {
        check_event(&ev, i);
        assert!(matches!(ev.progress, Progress::Started));
        started.push(i);
    }
    let mut running = vec![a, b];
    while let Some(i) = running.pop() {
        let outcome = if i % 2 == 0 { Ok(()) } else { Err(JobError::Io(format!("disk full {}", i))) };
        let ev = dispatcher.finish(i, outcome).unwrap();
        check_event(&ev, i);
        assert!(matches!(ev.progress, Progress::Finished(_)));
        finished.push(i);
        assert!(!dispatcher.is_complete() || running.is_empty());
        if let Some((n, _, ev)) = dispatcher.claim() {
            check_event(&ev, n);
            started.push(n);
            running.insert(0, n);
        }
    }
    assert!(dispatcher.is_complete());
    started.sort();
    finished.sort();
    assert_eq!(started, (0..k).collect::<Vec<_>>());
    assert_eq!(finished, (0..k).collect::<Vec<_>>());
}

#[test]
fn failure_of_one_job_does_not_stop_the_others() {
    let mut dispatcher = Dispatcher::new(jobs(5));
    let mut outcomes = Vec::new();
    while let Some((i, _, started)) = dispatcher.claim() {
        assert!(matches!(started.progress, Progress::Started));
        let outcome = if i == 2 { Err(JobError::Transport("status 500".to_string())) } else { Ok(()) };
        let event = dispatcher.finish(i, outcome).unwrap();
        match event.progress {
            Progress::Finished(Ok(())) => outcomes.push((i, true)),
            Progress::Finished(Err(_)) => outcomes.push((i, false)),
            Progress::Started => panic!("finish gave a start event"),
        }
    }
    assert!(dispatcher.is_complete());
    assert_eq!(outcomes, vec![(0, true), (1, true), (2, false), (3, true), (4, true)]);
}

#[test]
fn finish_of_a_job_that_is_not_running_is_refused() {
    let mut dispatcher = Dispatcher::new(jobs(2));
    assert!(dispatcher.finish(0, Ok(())).is_none());
    assert_eq!(dispatcher.status(0), JobStatus::Pending);
    let (i, _, _) = dispatcher.claim().unwrap();
    assert_eq!(dispatcher.status(i), JobStatus::Running);
    assert!(dispatcher.finish(i, Ok(())).is_some());
    assert_eq!(dispatcher.status(i), JobStatus::Done);
    assert!(dispatcher.finish(i, Ok(())).is_none());
    assert!(dispatcher.finish(7, Ok(())).is_none());
    assert!(!dispatcher.is_complete());
}

#[test]
fn empty_batch_is_complete_at_once() {
    let mut dispatcher = Dispatcher::new(Vec::new());
    assert!(dispatcher.is_complete());
    assert!(dispatcher.claim().is_none());
}

#[test]
fn job_list_lines() {
    let text = "http://a.example/x x.bin\n\n   \nhttp://b.example/y\ty.bin extra words\r\nonlyone\n  http://c.example/z   z.bin  \r\n";
    let parsed = parse_job_list(text);
    let pairs: Vec<(String, String)> =
        parsed.into_iter().map(|j| (j.source, j.destination)).collect();
    assert_eq!(
        pairs,
        vec![
            ("http://a.example/x".to_string(), "x.bin".to_string()),
            ("http://b.example/y".to_string(), "y.bin".to_string()),
            ("http://c.example/z".to_string(), "z.bin".to_string()),
        ]
    );
}

#[test]
fn job_list_edges() {
    assert!(parse_job_list("").is_empty());
    assert!(parse_job_list("\n\n").is_empty());
    assert!(parse_job_list("single").is_empty());
    let parsed = parse_job_list("u1 n1\r\nu2 n2");
    assert_eq!(parsed.len(), 2);
    assert_eq!(parsed[1].source, "u2");
    assert_eq!(parsed[1].destination, "n2");
    let unicode = parse_job_list("http://ex.org/é\tрезюме.pdf");
    assert_eq!(unicode.len(), 1);
    assert_eq!(unicode[0].source, "http://ex.org/é");
    assert_eq!(unicode[0].destination, "резюме.pdf");
}
