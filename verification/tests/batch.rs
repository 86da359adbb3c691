use emoji_kitchen::batch::{
    after_fetch, after_write, describe, status_line, summary_line, Batch, Failure, Job, Next,
    Outcome,
    Reply, Step, ANIMATION_DOWNLOADS, FETCH_RETRIES, PAIR_DOWNLOADS,
};

const ONE_PIXEL: [u8; 43] = [
    0x47, 0x49, 0x46, 0x38, 0x39, 0x61, 0x01, 0x00, 0x01, 0x00, 0x80, 0x00, 0x00, 0x00, 0x00, 0x00,
    0xff, 0xff, 0xff, 0x21, 0xf9, 0x04, 0x01, 0x00, 0x00, 0x00, 0x00, 0x2c, 0x00, 0x00, 0x00, 0x00,
    0x01, 0x00, 0x01, 0x00, 0x00, 0x02, 0x02, 0x44, 0x01, 0x00, 0x3b,
];

fn job(n: usize, resize: Option<u32>) -> Job {
    Job { filename: format!("file{}.gif", n), url: format!("https://example.org/{}", n), resize }
}

fn jobs(count: usize) -> Vec<Job> {
    (0..count).map(|n| job(n, None)).collect()
}

fn response(status: u16, reason: &str, body: &[u8]) -> Reply {
    Reply::Response { status, reason: reason.to_string(), body: body.to_vec() }
}

#[test]
fn transport_failure_ends_the_job_without_writing() {
    match after_fetch(&job(0, None), Reply::Failed("connection reset".to_string())) {
        Next::Fail(text) => assert_eq!(text, "connection reset"),
        other => panic!("unexpected step: {:?}", other),
    }
    match after_fetch(&job(0, Some(4)), Reply::Failed("timed out".to_string())) {
        Next::Fail(text) => assert_eq!(text, "timed out"),
        other => panic!("unexpected step: {:?}", other),
    }
}

#[test]
fn status_outside_success_ends_the_job_with_its_words() {
    for status in [199u16, 300, 301, 404, 429, 500, 503] {
        match after_fetch(&job(0, None), response(status, "404 Not Found", &ONE_PIXEL)) {
            Next::Fail(text) => assert_eq!(text, "404 Not Found"),
            other => panic!("unexpected step: {:?}", other),
        }
        match after_fetch(&job(0, Some(4)), response(status, "503 Service Unavailable", b"")) {
            Next::Fail(text) => assert_eq!(text, "503 Service Unavailable"),
            other => panic!("unexpected step: {:?}", other),
        }
    }
}

#[test]
fn successful_response_is_written_as_it_is_without_resizing() {
    match after_fetch(&job(0, None), response(200, "200 OK", b"any bytes at all")) {
        Next::Write(bytes) => assert_eq!(bytes, b"any bytes at all"),
        other => panic!("unexpected step: {:?}", other),
    }
    match after_fetch(&job(0, None), response(299, "299", b"")) {
        Next::Write(bytes) => assert!(bytes.is_empty()),
        other => panic!("unexpected step: {:?}", other),
    }
}

#[test]
fn successful_response_is_resized_before_writing() {
    match after_fetch(&job(0, Some(2)), response(200, "200 OK", &ONE_PIXEL)) {
        Next::Write(bytes) => {
            assert_eq!(&bytes[0..6], b"GIF89a");
            assert_eq!(&bytes[6..10], &[2, 0, 2, 0]);
        }
        other => panic!("unexpected step: {:?}", other),
    }
}

#[test]
fn payload_that_cannot_be_resized_ends_the_job_without_writing() {
    assert!(matches!(
        after_fetch(&job(0, Some(2)), response(200, "200 OK", b"<html>")),
        Next::Fail(_)
    ));
    match after_fetch(&job(0, Some(u32::MAX)), response(200, "200 OK", &ONE_PIXEL)) {
        Next::Fail(text) => assert_eq!(text, "frame too large to resize"),
        other => panic!("unexpected step: {:?}", other),
    }
}

#[test]
fn failed_attempts_leave_nothing_to_write() {
    let job = job(0, None);
    let replies = vec![
        Reply::Failed("connection refused".to_string()),
        response(503, "503 Service Unavailable", b"partial"),
        response(200, "200 OK", b"payload"),
    ];
    let mut written: Vec<Vec<u8>> = Vec::new();
    let mut outcome = None;
    for reply in replies {
        match after_fetch(&job, reply) {
            Next::Write(bytes) => {
                written.push(bytes);
                outcome = Some(after_write(Ok(())));
                break;
            }
            Next::Fail(_) => {}
        }
    }
    assert_eq!(written, vec![b"payload".to_vec()]);
    assert!(matches!(outcome, Some(Outcome::Saved)));
}

#[test]
fn outcome_of_writing() {
    assert!(matches!(after_write(Ok(())), Outcome::Saved));
    match after_write(Err("disk full".to_string())) {
        Outcome::Failed(text) => assert_eq!(text, "disk full"),
        other => panic!("unexpected outcome: {:?}", other),
    }
}

#[test]
fn twenty_jobs_under_a_cap_of_eight() {
    let mut batch = Batch::new(jobs(20), 8);
    assert_eq!(batch.len(), 20);
    let mut in_flight: Vec<usize> = Vec::new();
    let mut started: Vec<usize> = Vec::new();
    let mut most = 0;
    let mut turn = 0;
    loop {
        match batch.next() {
            Step::Start(index) => {
                assert!(!started.contains(&index));
                started.push(index);
                in_flight.push(index);
            }
            Step::Wait => {
                assert!(!in_flight.is_empty());
                turn += 1;
                let ended = in_flight.remove((turn * 5) % in_flight.len());
                let outcome = if ended % 3 == 0 {
                    Outcome::Failed(format!("error {}", ended))
                } else {
                    Outcome::Saved
                };
                assert!(batch.complete(ended, outcome));
            }
            Step::Finished => break,
        }
        assert_eq!(batch.in_flight_count(), in_flight.len());
        assert!(in_flight.len() <= 8);
        most = most.max(in_flight.len());
    }
    assert_eq!(most, 8);
    assert!(batch.is_finished());
    assert_eq!(started, (0..20).collect::<Vec<usize>>());
    let results = batch.results();
    assert_eq!(results.len(), 20);
    for index in 0..20 {
        assert_eq!(results.iter().filter(|(job, _)| *job == index).count(), 1);
    }
    for (index, outcome) in results {
        assert_eq!(matches!(outcome, Outcome::Failed(_)), index % 3 == 0);
    }
    let failures = batch.failures();
    assert_eq!(failures.len(), 7);
    for failure in &failures {
        let index: usize = failure.detail["error ".len()..].parse().unwrap();
        assert_eq!(failure.description, format!("file{0}.gif https://example.org/{0}", index));
    }
}

#[test]
fn limits_of_the_batches() {
    assert_eq!(ANIMATION_DOWNLOADS, 8);
    assert_eq!(PAIR_DOWNLOADS, 1);
    assert_eq!(FETCH_RETRIES, 3);
}

#[test]
fn jobs_start_in_order_up_to_the_cap() {
    let mut batch = Batch::new(jobs(5), 2);
    assert!(matches!(batch.next(), Step::Start(0)));
    assert!(matches!(batch.next(), Step::Start(1)));
    assert!(matches!(batch.next(), Step::Wait));
    assert!(matches!(batch.next(), Step::Wait));
    assert_eq!(batch.in_flight_count(), 2);
    assert!(batch.complete(1, Outcome::Saved));
    assert_eq!(batch.in_flight_count(), 1);
    assert!(matches!(batch.next(), Step::Start(2)));
    assert!(matches!(batch.next(), Step::Wait));
    assert!(batch.complete(0, Outcome::Saved));
    assert!(batch.complete(2, Outcome::Saved));
    assert!(matches!(batch.next(), Step::Start(3)));
    assert!(matches!(batch.next(), Step::Start(4)));
    assert!(matches!(batch.next(), Step::Wait));
    assert!(!batch.is_finished());
    assert!(batch.complete(4, Outcome::Saved));
    assert!(matches!(batch.next(), Step::Wait));
    assert!(batch.complete(3, Outcome::Saved));
    assert!(matches!(batch.next(), Step::Finished));
    assert!(matches!(batch.next(), Step::Finished));
    assert!(batch.is_finished());
    let order: Vec<usize> = batch.results().iter().map(|(job, _)| *job).collect();
    assert_eq!(order, vec![1, 0, 2, 4, 3]);
}

#[test]
fn a_cap_of_one_runs_the_jobs_one_after_another() {
    let mut batch = Batch::new(jobs(3), 1);
    for index in 0..3 {
        match batch.next() {
            Step::Start(started) => assert_eq!(started, index),
            other => panic!("unexpected step: {:?}", other),
        }
        assert!(matches!(batch.next(), Step::Wait));
        assert!(batch.complete(index, Outcome::Saved));
    }
    assert!(matches!(batch.next(), Step::Finished));
}

#[test]
fn a_cap_above_the_number_of_jobs_starts_them_all() {
    let mut batch = Batch::new(jobs(3), 8);
    assert!(matches!(batch.next(), Step::Start(0)));
    assert!(matches!(batch.next(), Step::Start(1)));
    assert!(matches!(batch.next(), Step::Start(2)));
    assert!(matches!(batch.next(), Step::Wait));
    assert_eq!(batch.in_flight_count(), 3);
}

#[test]
fn an_empty_batch_is_finished_at_once() {
    let mut batch = Batch::new(Vec::new(), 8);
    assert!(batch.is_finished());
    assert!(matches!(batch.next(), Step::Finished));
    assert_eq!(batch.results().len(), 0);
    assert_eq!(batch.failures().len(), 0);
    assert!(batch.job(0).is_none());
}

#[test]
fn only_a_job_in_flight_can_end() {
    let mut batch = Batch::new(jobs(3), 2);
    assert!(!batch.complete(0, Outcome::Saved));
    assert!(matches!(batch.next(), Step::Start(0)));
    assert!(!batch.complete(1, Outcome::Saved));
    assert!(!batch.complete(3, Outcome::Saved));
    assert!(!batch.complete(usize::MAX, Outcome::Saved));
    assert!(batch.complete(0, Outcome::Failed("first".to_string())));
    assert!(!batch.complete(0, Outcome::Saved));
    assert_eq!(batch.results().len(), 1);
    assert!(matches!(batch.results()[0], (0, Outcome::Failed(_))));
    assert_eq!(batch.in_flight_count(), 0);
}

#[test]
fn jobs_of_a_batch_by_index() {
    let batch = Batch::new(jobs(2), 1);
    assert_eq!(batch.job(0).unwrap().filename, "file0.gif");
    assert_eq!(batch.job(1).unwrap().url, "https://example.org/1");
    assert!(batch.job(2).is_none());
}

#[test]
fn one_failure_does_not_stop_the_other_jobs() {
    let mut batch = Batch::new(jobs(4), 2);
    assert!(matches!(batch.next(), Step::Start(0)));
    assert!(batch.complete(0, Outcome::Failed("boom".to_string())));
    assert!(matches!(batch.next(), Step::Start(1)));
    assert!(matches!(batch.next(), Step::Start(2)));
    assert!(batch.complete(2, Outcome::Saved));
    assert!(matches!(batch.next(), Step::Start(3)));
    assert!(batch.complete(1, Outcome::Failed("bang".to_string())));
    assert!(batch.complete(3, Outcome::Saved));
    assert!(matches!(batch.next(), Step::Finished));
    let failures = batch.failures();
    assert_eq!(failures.len(), 2);
    assert_eq!(failures[0].description, "file0.gif https://example.org/0");
    assert_eq!(failures[0].detail, "boom");
    assert_eq!(failures[1].description, "file1.gif https://example.org/1");
    assert_eq!(failures[1].detail, "bang");
}

#[test]
fn report_lines() {
    let job = job(7, None);
    assert_eq!(describe(&job), "file7.gif https://example.org/7");
    assert_eq!(
        status_line(&job, &Outcome::Saved),
        "\u{2705} file7.gif https://example.org/7"
    );
    assert_eq!(
        status_line(&job, &Outcome::Failed("404 Not Found".to_string())),
        "\u{1f6ab} file7.gif https://example.org/7 404 Not Found"
    );
    let failure = Failure {
        description: "file7.gif https://example.org/7".to_string(),
        detail: "404 Not Found".to_string(),
    };
    assert_eq!(failure.line(), "\u{1f6ab} file7.gif https://example.org/7 404 Not Found");
    assert_eq!(summary_line(0), "\u{2139}\u{fe0f} Completed with 0 errors");
    assert_eq!(summary_line(12), "\u{2139}\u{fe0f} Completed with 12 errors");
}
