//! The decisions of a rate-limited stream copy, as a state machine.
//!
//! A driver performs the actions the machine asks for (ask the limiter for
//! quota, yield, read, write) and hands back what happened. The machine passes
//! every byte read on to the sink unchanged and in order, and reports the
//! number of bytes written once the source is exhausted.

use vstd::prelude::*;

verus! {

/// Default number of bytes moved per chunk.
pub const BUFFER_SIZE: usize = 8 * 1024;

/// Where a copy stands.
#[derive(Debug, Clone, Copy, PartialEq, Eq, Structural)]
pub enum CopyPhase {
    /// Waiting for the limiter's answer to a quota request.
    AwaitQuota,
    /// Waiting for a read of at most this many bytes.
    AwaitRead(usize),
    /// Waiting for a write of this many bytes to complete.
    AwaitWrite(usize),
    /// The source is exhausted.
    Finished,
}

/// What the driver is asked to do next.
#[derive(Debug)]
pub enum CopyAction {
    /// Ask the limiter for up to this many bytes of quota.
    RequestQuota(usize),
    /// No quota was granted: yield to the scheduler, then resume the copy.
    Yield,
    /// Read at most this many bytes from the source.
    Read(usize),
    /// Write all of these bytes to the sink.
    Write(Vec<u8>),
    /// The copy is complete; this many bytes were written.
    Done(u64),
}

/// The mathematical state of a copy.
pub struct CopyView {
    pub chunk: nat,
    pub written: nat,
    pub phase: CopyPhase,
    /// Every byte read from the source so far.
    pub read: Seq<u8>,
    /// Every byte handed to the sink so far.
    pub sent: Seq<u8>,
}

/// A copy from a source stream to a sink stream in chunks of bounded size,
/// each allowed by a rate limiter.
pub struct BoundedCopy {
    chunk: usize,
    written: u64,
    phase: CopyPhase,
    read: Ghost<Seq<u8>>,
    sent: Ghost<Seq<u8>>,
}

impl View for BoundedCopy {
    type V = CopyView;

    closed spec fn view(&self) -> CopyView {
        CopyView {
            chunk: self.chunk as nat,
            written: self.written as nat,
            phase: self.phase,
            read: self.read@,
            sent: self.sent@,
        }
    }
}

impl BoundedCopy {
    #[verifier::type_invariant]
    closed spec fn inv(self) -> bool {
        &&& self.chunk > 0
        &&& self.sent@ == self.read@
        &&& self.sent@.len() <= u64::MAX
        &&& match self.phase {
            CopyPhase::AwaitRead(n) => 0 < n <= self.chunk && self.written == self.sent@.len(),
            CopyPhase::AwaitWrite(k) => self.written + k == self.sent@.len(),
            _ => self.written == self.sent@.len(),
        }
    }

    /// A copy that moves at most `chunk` bytes at a time, together with its
    /// first action: a request for a chunk's worth of quota.
    pub fn new(chunk: usize) -> (r: (BoundedCopy, CopyAction))
        requires
            chunk > 0,
        ensures
            r.0@.chunk == chunk,
            r.0@.written == 0,
            r.0@.phase == CopyPhase::AwaitQuota,
            r.0@.read == Seq::<u8>::empty(),
            r.0@.sent == Seq::<u8>::empty(),
            r.1 == CopyAction::RequestQuota(chunk),
    {
        let copy = BoundedCopy {
            chunk,
            written: 0,
            phase: CopyPhase::AwaitQuota,
            read: Ghost(Seq::empty()),
            sent: Ghost(Seq::empty()),
        };
        (copy, CopyAction::RequestQuota(chunk))
    }

    pub fn chunk(&self) -> (r: usize)
        ensures
            r == self@.chunk,
            r > 0,
    {
        proof {
            use_type_invariant(self);
        }
        self.chunk
    }

    pub fn written(&self) -> (r: u64)
        ensures
            r == self@.written,
    {
        self.written
    }

    pub fn phase(&self) -> (r: CopyPhase)
        ensures
            r == self@.phase,
    {
        self.phase
    }

    /// The limiter granted `granted` bytes: with none, yield; otherwise read
    /// at most the grant, and at most a chunk.
    pub fn on_quota(&mut self, granted: usize) -> (r: CopyAction)
        requires
            old(self)@.phase == CopyPhase::AwaitQuota,
        ensures
            granted == 0 ==> r == CopyAction::Yield && final(self)@ == old(self)@,
            granted > 0 ==> {
                let n = if granted < old(self)@.chunk { granted as nat } else { old(self)@.chunk };
                &&& r == CopyAction::Read(n as usize)
                &&& final(self)@ == (CopyView { phase: CopyPhase::AwaitRead(n as usize), ..old(self)@ })
            },
    {
        proof {
            use_type_invariant(&*self);
        }
        if granted == 0 {
            CopyAction::Yield
        } else {
            let n = if granted < self.chunk { granted } else { self.chunk };
            self.phase = CopyPhase::AwaitRead(n);
            CopyAction::Read(n)
        }
    }

    /// Resumes after a yield by asking for a chunk's worth of quota again.
    pub fn resume(&mut self) -> (r: CopyAction)
        requires
            old(self)@.phase == CopyPhase::AwaitQuota,
        ensures
            r == CopyAction::RequestQuota(old(self)@.chunk as usize),
            final(self)@ == old(self)@,
    {
        CopyAction::RequestQuota(self.chunk)
    }

    /// The read was interrupted before any byte arrived: ask for quota again.
    pub fn on_interrupted(&mut self) -> (r: CopyAction)
        requires
            old(self)@.phase matches CopyPhase::AwaitRead(_),
        ensures
            r == CopyAction::RequestQuota(old(self)@.chunk as usize),
            final(self)@ == (CopyView { phase: CopyPhase::AwaitQuota, ..old(self)@ }),
    {
        proof {
            use_type_invariant(&*self);
        }
        self.phase = CopyPhase::AwaitQuota;
        CopyAction::RequestQuota(self.chunk)
    }

    /// The read returned `data`: nothing means the source is exhausted and the
    /// copy is done, with the total written; otherwise write exactly `data`.
    pub fn on_read(&mut self, data: Vec<u8>) -> (r: CopyAction)
        requires
            old(self)@.phase matches CopyPhase::AwaitRead(n) && data@.len() <= n,
            old(self)@.written + data@.len() <= u64::MAX,
        ensures
            final(self)@.chunk == old(self)@.chunk,
            final(self)@.written == old(self)@.written,
            final(self)@.read == old(self)@.read + data@,
            final(self)@.sent == final(self)@.read,
            data@.len() == 0 ==> {
                &&& final(self)@.phase == CopyPhase::Finished
                &&& r == CopyAction::Done(old(self)@.written as u64)
                &&& old(self)@.written == final(self)@.read.len()
            },
            data@.len() > 0 ==> {
                &&& final(self)@.phase == CopyPhase::AwaitWrite(data@.len() as usize)
                &&& r == CopyAction::Write(data)
            },
    {
        proof {
            use_type_invariant(&*self);
        }
        let len = data.len();
        let read = Ghost(self.read@ + data@);
        if len == 0 {
            assert(read@ == self.read@);
            *self = BoundedCopy {
                chunk: self.chunk,
                written: self.written,
                phase: CopyPhase::Finished,
                read,
                sent: read,
            };
            CopyAction::Done(self.written)
        } else {
            *self = BoundedCopy {
                chunk: self.chunk,
                written: self.written,
                phase: CopyPhase::AwaitWrite(len),
                read,
                sent: read,
            };
            CopyAction::Write(data)
        }
    }

    /// The write completed: count its bytes and ask for quota for the next chunk.
    pub fn on_written(&mut self) -> (r: CopyAction)
        requires
            old(self)@.phase matches CopyPhase::AwaitWrite(_),
        ensures
            old(self)@.phase matches CopyPhase::AwaitWrite(k) && final(self)@ == (CopyView {
                written: (old(self)@.written + k) as nat,
                phase: CopyPhase::AwaitQuota,
                ..old(self)@
            }),
            final(self)@.written == final(self)@.sent.len(),
            r == CopyAction::RequestQuota(old(self)@.chunk as usize),
    {
        proof {
            use_type_invariant(&*self);
        }
        let k = match self.phase {
            CopyPhase::AwaitWrite(k) => k,
            _ => 0,
        };
        *self = BoundedCopy {
            chunk: self.chunk,
            written: self.written + k as u64,
            phase: CopyPhase::AwaitQuota,
            read: self.read,
            sent: self.sent,
        };
        CopyAction::RequestQuota(self.chunk)
    }
}

} // verus!
