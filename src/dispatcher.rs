//! The bookkeeping of a dispatcher that runs jobs on several executors.
//!
//! Each executor claims a job, reports it started, runs it, and reports it
//! finished with its outcome, whatever that outcome is; then it claims the
//! next. A failed job ends only itself. The dispatcher keeps the log of every
//! event it emitted, and when the run is complete each job has exactly one
//! start and, after it, exactly one finish in that log.

use crate::jobs::{Job, JobSource, SourceView};
use vstd::prelude::*;
use vstd::relations::injective_on;
use vstd::set_lib::{lemma_int_range, lemma_map_size, lemma_set_disjoint_lens, set_int_range};

verus! {

/// Why a job failed.
#[derive(Debug)]
pub enum JobError {
    /// The source could not be fetched: unreachable, a non-success
    /// response, or a protocol failure.
    Transport(String),
    /// The destination could not be created or written, or reading the
    /// source stream failed.
    Io(String),
}

/// Status of a job.
#[derive(Debug)]
pub enum Progress {
    /// The job has started.
    Started,
    /// The job finished, successfully or not.
    Finished(Result<(), JobError>),
}

/// A lifecycle event of one job.
#[derive(Debug)]
pub struct ProgressEvent {
    /// Position of the job in the job list.
    pub job_index: usize,
    pub source: String,
    pub destination: String,
    pub progress: Progress,
}

/// Where a job stands in a run.
#[derive(Debug, Clone, Copy, PartialEq, Eq, Structural)]
pub enum JobStatus {
    Pending,
    Running,
    Done,
}

/// The mathematical state of a dispatcher. An entry of the log is the index
/// of a job and whether the event was its finish (otherwise its start).
pub struct DispatchView {
    pub source: SourceView,
    pub status: Seq<JobStatus>,
    pub log: Seq<(nat, bool)>,
}

/// Whether `log` pairs the events of `count` jobs: it holds `2 * count`
/// entries, none twice, only entries of those jobs, a start and a finish of
/// each of them, and each finish after the start of its job.
pub open spec fn events_paired(log: Seq<(nat, bool)>, count: nat) -> bool {
    &&& log.len() == 2 * count
    &&& log.no_duplicates()
    &&& forall|k: int| 0 <= k < log.len() ==> #[trigger] log[k].0 < count
    &&& forall|i: nat| i < count ==> #[trigger] log.contains((i, false)) && log.contains((i, true))
    &&& forall|f: int|
        0 <= f < log.len() && #[trigger] log[f].1 ==> exists|s: int|
            0 <= s < f && #[trigger] log[s] == (log[f].0, false)
}

proof fn lemma_paired_log_len(log: Seq<(nat, bool)>, count: nat)
    requires
        log.no_duplicates(),
        forall|k: int| 0 <= k < log.len() ==> #[trigger] log[k].0 < count,
        forall|i: nat| i < count ==> #[trigger] log.contains((i, false)) && log.contains((i, true)),
    ensures
        log.len() == 2 * count,
{
    let range = set_int_range(0, count as int);
    let starts = |i: int| (i as nat, false);
    let finishes = |i: int| (i as nat, true);
    let a = range.map(starts);
    let b = range.map(finishes);
    lemma_int_range(0, count as int);
    assert(injective_on(starts, range));
    assert(injective_on(finishes, range));
    lemma_map_size(range, a, starts);
    lemma_map_size(range, b, finishes);
    assert(a.disjoint(b));
    lemma_set_disjoint_lens(a, b);
    log.unique_seq_to_set();
    assert forall|e: (nat, bool)| #[trigger] log.to_set().contains(e) <==> (a + b).contains(e) by {
        if log.to_set().contains(e) {
            let k = choose|k: int| 0 <= k < log.len() && log[k] == e;
            assert(range.contains(e.0 as int));
            if e.1 {
                assert(finishes(e.0 as int) == e);
            } else {
                assert(starts(e.0 as int) == e);
            }
        }
        if a.contains(e) {
            let i = choose|i: int| range.contains(i) && starts(i) == e;
            assert(log.contains((i as nat, false)));
        }
        if b.contains(e) {
            let i = choose|i: int| range.contains(i) && finishes(i) == e;
            assert(log.contains((i as nat, false)));
            assert(log.contains((i as nat, true)));
        }
    }
    assert(log.to_set() == a + b);
}

/// Shared state of a run: the pending jobs, the status of each job, and the
/// log of emitted events.
pub struct Dispatcher {
    source: JobSource,
    status: Vec<JobStatus>,
    log: Ghost<Seq<(nat, bool)>>,
}

impl View for Dispatcher {
    type V = DispatchView;

    closed spec fn view(&self) -> DispatchView {
        DispatchView { source: self.source@, status: self.status@, log: self.log@ }
    }
}

impl Dispatcher {
    /// The run's state is consistent: the log records exactly the events
    /// emitted so far, once each.
    pub closed spec fn wf(self) -> bool {
        let next = self.source@.next;
        let log = self.log@;
        &&& next <= self.source@.jobs.len()
        &&& self.status@.len() == self.source@.jobs.len()
        &&& forall|i: int|
            0 <= i < self.status@.len() ==> (#[trigger] self.status@[i] == JobStatus::Pending <==> i
                >= next)
        &&& log.no_duplicates()
        &&& forall|k: int| 0 <= k < log.len() ==> #[trigger] log[k].0 < next
        &&& forall|i: nat| i < next ==> #[trigger] log.contains((i, false))
        &&& forall|i: nat|
            i < self.status@.len() ==> (#[trigger] log.contains((i, true)) <==> self.status@[i as int]
                == JobStatus::Done)
        &&& forall|f: int|
            0 <= f < log.len() && #[trigger] log[f].1 ==> exists|s: int|
                0 <= s < f && #[trigger] log[s] == (log[f].0, false)
    }

    /// A dispatcher for `jobs`, none of them started.
    pub fn new(jobs: Vec<Job>) -> (r: Dispatcher)
        ensures
            r.wf(),
            r@.source.jobs == jobs@.map_values(|j: Job| j@),
            r@.source.next == 0,
            r@.status == Seq::new(jobs@.len(), |i: int| JobStatus::Pending),
            r@.log == Seq::<(nat, bool)>::empty(),
    {
        let count = jobs.len();
        let source = JobSource::new(jobs);
        let mut status: Vec<JobStatus> = Vec::new();
        let mut i: usize = 0;
        while i < count
            invariant
                i <= count,
                status@ == Seq::new(i as nat, |k: int| JobStatus::Pending),
            decreases count - i,
        {
            status.push(JobStatus::Pending);
            i = i + 1;
        }
        Dispatcher { source, status, log: Ghost(Seq::empty()) }
    }

    /// Number of jobs in the run.
    pub fn job_count(&self) -> (r: usize)
        ensures
            r == self@.source.jobs.len(),
    {
        self.source.len()
    }

    /// Claims the next pending job: marks it running and returns its
    /// position, the job, and its `Started` event; nothing once every job was
    /// claimed.
    pub fn claim(&mut self) -> (r: Option<(usize, Job, ProgressEvent)>)
        requires
            old(self).wf(),
        ensures
            final(self).wf(),
            final(self)@.source == old(self)@.source.after_claim(),
            match r {
                Some((i, job, event)) => {
                    &&& old(self)@.source.claim_result() == Some((i as nat, job@))
                    &&& event.job_index == i
                    &&& (event.source@, event.destination@) == job@
                    &&& event.progress is Started
                    &&& final(self)@.status == old(self)@.status.update(i as int, JobStatus::Running)
                    &&& final(self)@.log == old(self)@.log.push((i as nat, false))
                },
                None => {
                    &&& old(self)@.source.claim_result() is None
                    &&& final(self)@ == old(self)@
                },
            },
    {
        let ghost old_next = self.source@.next;
        let claimed = self.source.next();
        match claimed {
            Some((i, job)) => {
                let ghost old_log = self.log@;
                let ghost entry = (i as nat, false);
                proof {
                    assert(i == old_next);
                    if old_log.contains(entry) {
                        let w = choose|w: int| 0 <= w < old_log.len() && old_log[w] == entry;
                        assert(old_log[w].0 < old_next);
                    }
                    self.log@ = old_log.push(entry);
                    let log = self.log@;
                    assert forall|a: int, b: int|
                        0 <= a < log.len() && 0 <= b < log.len() && a != b implies log[a]
                        != log[b] by {
                        if a < old_log.len() && b < old_log.len() {
                            assert(old_log[a] != old_log[b]);
                        } else if a < old_log.len() {
                            assert(old_log.contains(old_log[a]));
                        } else {
                            assert(old_log.contains(old_log[b]));
                        }
                    }
                    assert forall|k: nat| k < i + 1 implies #[trigger] log.contains((k, false)) by {
                        if k < i {
                            assert(old_log.contains((k, false)));
                            let w = choose|w: int| 0 <= w < old_log.len() && old_log[w] == (k, false);
                            assert(log[w] == (k, false));
                        } else {
                            assert(log[old_log.len() as int] == (k, false));
                        }
                    }
                    assert forall|f: int| 0 <= f < log.len() && #[trigger] log[f].1 implies exists|s: int|
                        0 <= s < f && #[trigger] log[s] == (log[f].0, false) by {
                        assert(f < old_log.len());
                        assert(log[f] == old_log[f]);
                        let s = choose|s: int| 0 <= s < f && #[trigger] old_log[s] == (old_log[f].0, false);
                        assert(log[s] == old_log[s]);
                    }
                }
                let ghost old_status = self.status@;
                self.status.set(i, JobStatus::Running);
                proof {
                    let log = self.log@;
                    assert(old_status[i as int] == JobStatus::Pending);
                    assert forall|k: int| 0 <= k < self.status@.len() implies (
                    #[trigger] self.status@[k] == JobStatus::Pending <==> k >= i + 1) by {
                        if k != i {
                            assert(self.status@[k] == old_status[k]);
                        }
                    }
                    assert forall|k: nat| k < self.status@.len() implies (#[trigger] log.contains(
                        (k, true),
                    ) <==> self.status@[k as int] == JobStatus::Done) by {
                        if k != i {
                            assert(self.status@[k as int] == old_status[k as int]);
                            if log.contains((k, true)) {
                                let w = choose|w: int| 0 <= w < log.len() && log[w] == (k, true);
                                assert(w < old_log.len());
                                assert(old_log[w] == (k, true));
                            }
                            if old_log.contains((k, true)) {
                                let w = choose|w: int| 0 <= w < old_log.len() && old_log[w] == (k, true);
                                assert(log[w] == (k, true));
                            }
                        } else if log.contains((k, true)) {
                            let w = choose|w: int| 0 <= w < log.len() && log[w] == (k, true);
                            assert(w < old_log.len());
                            assert(old_log[w] == (k, true));
                            assert(old_log.contains((k, true)));
                        }
                    }
                }
                let event = ProgressEvent {
                    job_index: i,
                    source: job.source.clone(),
                    destination: job.destination.clone(),
                    progress: Progress::Started,
                };
                Some((i, job, event))
            },
            None => None,
        }
    }

    /// Status of the job at position `i`.
    pub fn status(&self, i: usize) -> (r: JobStatus)
        requires
            i < self@.status.len(),
        ensures
            r == self@.status[i as int],
    {
        self.status[i]
    }

    /// Records that the running job at position `index` concluded with
    /// `outcome` and returns its `Finished` event. Whatever the outcome, the
    /// pending jobs are left as they were for the next claims. A job that is
    /// not running gets no event and changes nothing.
    pub fn finish(&mut self, index: usize, outcome: Result<(), JobError>) -> (r: Option<
        ProgressEvent,
    >)
        requires
            old(self).wf(),
        ensures
            final(self).wf(),
            final(self)@.source == old(self)@.source,
            (index < old(self)@.status.len() && old(self)@.status[index as int]
                == JobStatus::Running) ==> {
                &&& r matches Some(event) && {
                    &&& event.job_index == index
                    &&& (event.source@, event.destination@) == old(self)@.source.jobs[index as int]
                    &&& event.progress == Progress::Finished(outcome)
                }
                &&& final(self)@.status == old(self)@.status.update(index as int, JobStatus::Done)
                &&& final(self)@.log == old(self)@.log.push((index as nat, true))
            },
            !(index < old(self)@.status.len() && old(self)@.status[index as int]
                == JobStatus::Running) ==> r is None && final(self)@ == old(self)@,
    {
        if index >= self.status.len() {
            return None;
        }
        if self.status[index] != JobStatus::Running {
            return None;
        }
        let ghost old_log = self.log@;
        let ghost old_status = self.status@;
        let ghost entry = (index as nat, true);
        proof {
            assert(!old_log.contains(entry));
            self.log@ = old_log.push(entry);
            let log = self.log@;
            assert forall|a: int, b: int|
                0 <= a < log.len() && 0 <= b < log.len() && a != b implies log[a] != log[b] by {
                if a < old_log.len() && b < old_log.len() {
                    assert(old_log[a] != old_log[b]);
                } else if a < old_log.len() {
                    assert(old_log.contains(old_log[a]));
                } else {
                    assert(old_log.contains(old_log[b]));
                }
            }
            assert forall|k: nat| k < self.source@.next implies #[trigger] log.contains(
                (k, false),
            ) by {
                assert(old_log.contains((k, false)));
                let w = choose|w: int| 0 <= w < old_log.len() && old_log[w] == (k, false);
                assert(log[w] == (k, false));
            }
            assert forall|f: int| 0 <= f < log.len() && #[trigger] log[f].1 implies exists|s: int|
                0 <= s < f && #[trigger] log[s] == (log[f].0, false) by {
                if f < old_log.len() {
                    assert(log[f] == old_log[f]);
                    let s = choose|s: int| 0 <= s < f && #[trigger] old_log[s] == (old_log[f].0, false);
                    assert(log[s] == old_log[s]);
                } else {
                    assert(old_log.contains((index as nat, false)));
                    let s = choose|s: int| 0 <= s < old_log.len() && old_log[s] == (index as nat, false);
                    assert(log[s] == (index as nat, false));
                }
            }
        }
        self.status.set(index, JobStatus::Done);
        proof {
            let log = self.log@;
            assert forall|k: int| 0 <= k < self.status@.len() implies (
            #[trigger] self.status@[k] == JobStatus::Pending <==> k >= self.source@.next) by {
                if k != index {
                    assert(self.status@[k] == old_status[k]);
                }
            }
            assert forall|k: nat| k < self.status@.len() implies (#[trigger] log.contains((k, true))
                <==> self.status@[k as int] == JobStatus::Done) by {
                if k != index {
                    assert(self.status@[k as int] == old_status[k as int]);
                    if log.contains((k, true)) {
                        let w = choose|w: int| 0 <= w < log.len() && log[w] == (k, true);
                        assert(w < old_log.len());
                        assert(old_log[w] == (k, true));
                    }
                    if old_log.contains((k, true)) {
                        let w = choose|w: int| 0 <= w < old_log.len() && old_log[w] == (k, true);
                        assert(log[w] == (k, true));
                    }
                } else {
                    assert(log[old_log.len() as int] == (k, true));
                }
            }
        }
        let job = self.source.job(index);
        Some(
            ProgressEvent {
                job_index: index,
                source: job.source.clone(),
                destination: job.destination.clone(),
                progress: Progress::Finished(outcome),
            },
        )
    }

    /// Whether the run is complete: every job was claimed and finished. Then
    /// each job has exactly one `Started` and one `Finished` event in the log,
    /// the start first, and the log holds nothing else.
    pub fn is_complete(&self) -> (r: bool)
        requires
            self.wf(),
        ensures
            r == (self@.source.next >= self@.source.jobs.len() && forall|i: int|
                0 <= i < self@.status.len() ==> #[trigger] self@.status[i] == JobStatus::Done),
            r ==> events_paired(self@.log, self@.source.jobs.len()),
    {
        if !self.source.is_exhausted() {
            return false;
        }
        let count = self.status.len();
        let mut i: usize = 0;
        while i < count
            invariant
                count == self@.status.len(),
                i <= count,
                forall|k: int| 0 <= k < i ==> #[trigger] self@.status[k] == JobStatus::Done,
            decreases count - i,
        {
            if self.status[i] != JobStatus::Done {
                return false;
            }
            i = i + 1;
        }
        proof {
            let log = self.log@;
            assert forall|k: nat| k < self@.source.jobs.len() implies #[trigger] log.contains(
                (k, false),
            ) && log.contains((k, true)) by {
                assert(self@.status[k as int] == JobStatus::Done);
            }
            lemma_paired_log_len(log, self@.source.jobs.len());
        }
        true
    }
}

} // verus!
