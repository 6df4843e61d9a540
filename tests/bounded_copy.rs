use rand::{thread_rng, Rng, RngCore};
use throttled_fetch::bounded_copy::{BoundedCopy, CopyAction, CopyPhase, BUFFER_SIZE};
use throttled_fetch::token_bucket::TokenBucket;

/// Runs a copy over an in-memory source; `read_cap` bounds each read to
/// model short reads. Returns the bytes written, the reported total and the
/// number of yields.
fn run_copy(
    source: &[u8],
    chunk: usize,
    limiter: &mut dyn FnMut(usize) -> usize,
    read_cap: usize,
) -> (Vec<u8>, u64, usize) {
    let (mut copy, mut action) = BoundedCopy::new(chunk);
    let mut pos = 0usize;
    let mut sink = Vec::new();
    let mut yields = 0usize;
    loop {
        action = match action {
            CopyAction::RequestQuota(n) => {
                assert_eq!(n, chunk);
                copy.on_quota(limiter(n))
            }
            CopyAction::Yield => {
                yields += 1;
                copy.resume()
            }
            CopyAction::Read(n) => {
                assert!(n > 0 && n <= chunk);
                let len = n.min(read_cap).min(source.len() - pos);
                let data = source[pos..pos + len].to_vec();
                pos += len;
                copy.on_read(data)
            }
            CopyAction::Write(bytes) => {
                sink.extend_from_slice(&bytes);
                copy.on_written()
            }
            CopyAction::Done(total) => return (sink, total, yields),
        };
    }
}

fn unlimited(amount: usize) -> usize {
    amount
}

fn simple_limit_16(amount: usize) -> usize {
    amount.min(16)
}

fn random_limit(amount: usize) -> usize {
    thread_rng().gen_range(0..=amount)
}

#[test]
fn successful_copies() {
    let limiters: [fn(usize) -> usize; 3] = [unlimited, simple_limit_16, random_limit];
    let samples: Vec<Vec<u8>> = [0, 10, BUFFER_SIZE - 1, BUFFER_SIZE, BUFFER_SIZE + 1, BUFFER_SIZE * 2]
        .iter()
        .map(|&size| {
            let mut buf = vec![0u8; size];
            thread_rng().fill_bytes(&mut buf);
            buf
        })
        .collect();
    for limiter in limiters {
        for sample in &samples {
            let mut f = limiter;
            let (written, total, _) = run_copy(sample, BUFFER_SIZE, &mut f, usize::MAX);
            assert_eq!(&written, sample);
            assert_eq!(total, sample.len() as u64);
        }
    }
}

#[test]
fn copy_fidelity_with_small_chunks_and_short_reads() {
    let chunk = 7usize;
    for size in [0usize, 1, chunk - 1, chunk, chunk + 1, 2 * chunk] {
        let sample: Vec<u8> = (0..size).map(|i| (i * 31 + 5) as u8).collect();
        let mut f = simple_limit_16;
        let (written, total, _) = run_copy(&sample, chunk, &mut f, 3);
        assert_eq!(written, sample);
        assert_eq!(total, size as u64);
    }
}

#[test]
fn empty_source_finishes_with_zero() {
    let (mut copy, action) = BoundedCopy::new(BUFFER_SIZE);
    assert!(matches!(action, CopyAction::RequestQuota(BUFFER_SIZE)));
    assert!(matches!(copy.on_quota(BUFFER_SIZE), CopyAction::Read(BUFFER_SIZE)));
    assert!(matches!(copy.on_read(Vec::new()), CopyAction::Done(0)));
    assert_eq!(copy.phase(), CopyPhase::Finished);
    assert_eq!(copy.written(), 0);
}

#[test]
fn zero_quota_yields_and_retries() {
    let mut answers = vec![5usize, 0, 0, 0].into_iter();
    let mut limiter = move |_n: usize| answers.next_back().unwrap_or(5);
    let sample = vec![1u8, 2, 3, 4, 5, 6, 7, 8];
    let (written, total, yields) = run_copy(&sample, 4, &mut limiter, usize::MAX);
    assert_eq!(written, sample);
    assert_eq!(total, 8);
    assert_eq!(yields, 3);
}

#[test]
fn read_is_bounded_by_grant_and_chunk() {
    let (mut copy, _) = BoundedCopy::new(10);
    assert!(matches!(copy.on_quota(3), CopyAction::Read(3)));
    assert_eq!(copy.phase(), CopyPhase::AwaitRead(3));
    assert!(matches!(copy.on_interrupted(), CopyAction::RequestQuota(10)));
    assert!(matches!(copy.on_quota(50), CopyAction::Read(10)));
    match copy.on_read(vec![9, 8]) {
        CopyAction::Write(bytes) => assert_eq!(bytes, vec![9, 8]),
        other => panic!("unexpected action {:?}", other),
    }
    assert_eq!(copy.phase(), CopyPhase::AwaitWrite(2));
    assert!(matches!(copy.on_written(), CopyAction::RequestQuota(10)));
    assert_eq!(copy.written(), 2);
    assert_eq!(copy.chunk(), 10);
}

#[test]
fn two_copies_share_one_bucket() {
    // Two 3072-byte transfers through one bucket of 1024 bytes per second,
    // on a simulated clock that advances 10 ms per round.
    let mut bucket = TokenBucket::with_capacity(1024, 1024);
    let source = vec![7u8; 3072];
    let mut copies = Vec::new();
    for _ in 0..2 {
        let (copy, action) = BoundedCopy::new(BUFFER_SIZE);
        copies.push((copy, Some(action), 0usize, Vec::new()));
    }
    let mut now = 0u64;
    let mut totals = Vec::new();
    while totals.len() < 2 {
        now += 10_000_000;
        for (copy, action, pos, sink) in copies.iter_mut() {
            let Some(current) = action.take() else { continue };
            let next = match current {
                CopyAction::RequestQuota(n) => copy.on_quota(bucket.take_at(n, now)),
                CopyAction::Yield => copy.resume(),
                CopyAction::Read(n) => {
                    let len = n.min(source.len() - *pos);
                    let data = source[*pos..*pos + len].to_vec();
                    *pos += len;
                    copy.on_read(data)
                }
                CopyAction::Write(bytes) => {
                    sink.extend_from_slice(&bytes);
                    copy.on_written()
                }
                CopyAction::Done(total) => {
                    assert_eq!(sink, &source);
                    totals.push(total);
                    continue;
                }
            };
            *action = Some(next);
        }
    }
    assert_eq!(totals, vec![3072, 3072]);
    // 6144 bytes at 1024 bytes per second from an empty bucket.
    assert!(now >= 5_000_000_000);
}
