//! Transfer jobs and the source that hands each of them out exactly once.

use vstd::prelude::*;

verus! {

/// One source-to-destination transfer.
pub struct Job {
    /// Where the bytes come from, such as a URL.
    pub source: String,
    /// The destination's file name, relative to the destination directory.
    pub destination: String,
}

impl View for Job {
    type V = (Seq<char>, Seq<char>);

    open spec fn view(&self) -> (Seq<char>, Seq<char>) {
        (self.source@, self.destination@)
    }
}

impl Job {
    pub fn new(source: String, destination: String) -> (r: Job)
        ensures
            r@ == (source@, destination@),
    {
        Job { source, destination }
    }

    /// A copy of this job.
    pub fn duplicate(&self) -> (r: Job)
        ensures
            r@ == self@,
    {
        Job { source: self.source.clone(), destination: self.destination.clone() }
    }
}

/// The mathematical state of a job source: the jobs in the order they were listed
/// and the position of the next one to hand out.
pub struct SourceView {
    pub jobs: Seq<(Seq<char>, Seq<char>)>,
    pub next: nat,
}

impl SourceView {
    /// What a claim returns: the next job with its position, or nothing once
    /// every job was handed out.
    pub open spec fn claim_result(self) -> Option<(nat, (Seq<char>, Seq<char>))> {
        if self.next < self.jobs.len() {
            Some((self.next, self.jobs[self.next as int]))
        } else {
            None
        }
    }

    /// The state after a claim.
    pub open spec fn after_claim(self) -> SourceView {
        if self.next < self.jobs.len() {
            SourceView { next: self.next + 1, ..self }
        } else {
            self
        }
    }

    /// The results of `calls` claims made one after another.
    pub open spec fn claims(self, calls: nat) -> Seq<Option<(nat, (Seq<char>, Seq<char>))>>
        decreases calls,
    {
        if calls == 0 {
            Seq::empty()
        } else {
            seq![self.claim_result()] + self.after_claim().claims((calls - 1) as nat)
        }
    }
}

/// The view of a claim's result.
pub open spec fn claim_view(r: Option<(usize, Job)>) -> Option<(nat, (Seq<char>, Seq<char>))> {
    match r {
        Some((i, job)) => Some((i as nat, job@)),
        None => None,
    }
}

/// A sequence of pending jobs, each handed out once and in order; once
/// exhausted it stays exhausted.
pub struct JobSource {
    jobs: Vec<Job>,
    next: usize,
}

impl View for JobSource {
    type V = SourceView;

    closed spec fn view(&self) -> SourceView {
        SourceView { jobs: self.jobs@.map_values(|j: Job| j@), next: self.next as nat }
    }
}

impl JobSource {
    #[verifier::type_invariant]
    closed spec fn inv(self) -> bool {
        self.next <= self.jobs.len()
    }

    pub fn new(jobs: Vec<Job>) -> (r: JobSource)
        ensures
            r@.jobs == jobs@.map_values(|j: Job| j@),
            r@.next == 0,
    {
        JobSource { jobs, next: 0 }
    }

    /// Number of jobs, claimed or not.
    pub fn len(&self) -> (r: usize)
        ensures
            r == self@.jobs.len(),
    {
        self.jobs.len()
    }

    /// The job at position `i` of the job list.
    pub fn job(&self, i: usize) -> (r: &Job)
        requires
            i < self@.jobs.len(),
        ensures
            r@ == self@.jobs[i as int],
    {
        &self.jobs[i]
    }

    /// Whether every job was handed out.
    pub fn is_exhausted(&self) -> (r: bool)
        ensures
            r == (self@.next >= self@.jobs.len()),
    {
        self.next >= self.jobs.len()
    }

    /// Hands out the next job with its position in the job list.
    pub fn next(&mut self) -> (r: Option<(usize, Job)>)
        ensures
            claim_view(r) == old(self)@.claim_result(),
            final(self)@ == old(self)@.after_claim(),
    {
        proof {
            use_type_invariant(&*self);
        }
        if self.next < self.jobs.len() {
            let i = self.next;
            let job = self.jobs[i].duplicate();
            self.next = i + 1;
            Some((i, job))
        } else {
            None
        }
    }
}

proof fn lemma_claims_from(s: SourceView, calls: nat)
    requires
        s.next <= s.jobs.len(),
    ensures
        s.claims(calls).len() == calls,
        forall|k: int|
            0 <= k < calls ==> #[trigger] s.claims(calls)[k] == (if s.next + k < s.jobs.len() {
                Some(((s.next + k) as nat, s.jobs[s.next + k]))
            } else {
                None
            }),
    decreases calls,
{
    if calls > 0 {
        let rest = s.after_claim().claims((calls - 1) as nat);
        lemma_claims_from(s.after_claim(), (calls - 1) as nat);
        assert forall|k: int| 0 <= k < calls implies #[trigger] s.claims(calls)[k] == (if s.next + k
            < s.jobs.len() {
            Some(((s.next + k) as nat, s.jobs[s.next + k]))
        } else {
            None
        }) by {
            if k > 0 {
                assert(s.claims(calls)[k] == rest[k - 1]);
            }
        }
    }
}

/// However many claims are made on a fresh source of jobs, the first ones
/// hand out every job once, in order and with its position, and every claim
/// after them finds the source exhausted.
pub proof fn lemma_exactly_once(jobs: Seq<(Seq<char>, Seq<char>)>, calls: nat)
    requires
        calls >= jobs.len(),
    ensures
        (SourceView { jobs, next: 0 }).claims(calls).len() == calls,
        forall|i: int|
            0 <= i < jobs.len() ==> #[trigger] (SourceView { jobs, next: 0 }).claims(calls)[i] == Some(
                (i as nat, jobs[i]),
            ),
        forall|i: int|
            jobs.len() <= i < calls ==> #[trigger] (SourceView { jobs, next: 0 }).claims(calls)[i]
                is None,
{
    let s = SourceView { jobs, next: 0 };
    lemma_claims_from(s, calls);
    assert forall|i: int| 0 <= i < jobs.len() implies #[trigger] s.claims(calls)[i] == Some(
        (i as nat, jobs[i]),
    ) by {
        assert(s.claims(calls)[i] == Some(((s.next + i) as nat, s.jobs[s.next + i])));
    }
}

} // verus!
