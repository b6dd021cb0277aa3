use crate::error::SyncError;
use vstd::prelude::*;

verus! {

/// Total of a sequence of chunk lengths.
pub open spec fn total(lens: Seq<nat>) -> nat
    decreases lens.len(),
{
    if lens.len() == 0 {
        0
    } else {
        total(lens.drop_last()) + lens.last()
    }
}

/// The progress values reported for chunks of the given lengths, in stream order: after
/// each chunk that is not empty, the number of bytes received so far.
pub open spec fn reports(lens: Seq<nat>) -> Seq<nat>
    decreases lens.len(),
{
    if lens.len() == 0 {
        Seq::empty()
    } else if lens.last() == 0 {
        reports(lens.drop_last())
    } else {
        reports(lens.drop_last()).push(total(lens))
    }
}

/// Where one download stands.
#[derive(Debug, Clone, Copy, PartialEq, Eq, Structural)]
pub enum PullPhase {
    Streaming,
    Finished,
    Failed,
}

/// What the byte pipe of a download reported last.
#[derive(Debug, Clone)]
pub enum StreamEvent {
    /// A chunk of this many bytes was read from the store and written to the file.
    Chunk(usize),
    /// The store stream failed.
    StreamFailed(String),
    /// The local file could not be created or written.
    WriteFailed(String),
    /// The store stream ended.
    Ended,
}

/// What the caller of a download does next.
#[derive(Debug, Clone)]
pub enum StreamAction {
    /// Hand this cumulative byte count to the progress observer, then read on.
    Report(u64),
    /// Read the next chunk.
    Continue,
    /// The download is complete, with this many bytes.
    Finish(u64),
    /// The download failed.
    Abort(SyncError),
    /// The download was over already: nothing to do.
    Ignore,
}

/// One download's byte counter: the bytes received so far, and the phase.
pub struct Download {
    pub phase: PullPhase,
    pub received: u64,
    /// Lengths of the chunks received so far.
    pub lens: Ghost<Seq<nat>>,
    /// Progress values reported so far.
    pub reported: Ghost<Seq<nat>>,
}

impl Download {
    pub open spec fn wf(&self) -> bool {
        &&& self.received == total(self.lens@)
        &&& self.reported@ == reports(self.lens@)
    }

    /// A download that has received nothing yet.
    pub fn new() -> (r: Self)
        ensures
            r.wf(),
            r.phase == PullPhase::Streaming,
            r.received == 0,
            r.lens@ == Seq::<nat>::empty(),
    {
        Download {
            phase: PullPhase::Streaming,
            received: 0,
            lens: Ghost(Seq::empty()),
            reported: Ghost(Seq::empty()),
        }
    }

    /// Takes the next event of the byte pipe. A chunk adds its length to the counter and is
    /// reported when it is not empty; the end of the stream finishes with the count; a
    /// failure of the stream is a `RemoteTransport` error, one of the file a `LocalIo` error.
    /// A finished or failed download stays as it is.
    pub fn step(&mut self, event: StreamEvent) -> (action: StreamAction)
        requires
            old(self).wf(),
            event matches StreamEvent::Chunk(n) ==> old(self).received + n <= u64::MAX,
        ensures
            final(self).wf(),
            old(self).phase != PullPhase::Streaming ==> {
                &&& *final(self) == *old(self)
                &&& action is Ignore
            },
            old(self).phase == PullPhase::Streaming ==> match event {
                StreamEvent::Chunk(n) => {
                    &&& final(self).phase == PullPhase::Streaming
                    &&& final(self).lens@ == old(self).lens@.push(n as nat)
                    &&& final(self).received == old(self).received + n
                    &&& n > 0 ==> action == StreamAction::Report(final(self).received)
                    &&& n == 0 ==> action is Continue
                },
                StreamEvent::StreamFailed(m) => {
                    &&& final(self).phase == PullPhase::Failed
                    &&& final(self).lens@ == old(self).lens@
                    &&& action == StreamAction::Abort(SyncError::RemoteTransport(m))
                },
                StreamEvent::WriteFailed(m) => {
                    &&& final(self).phase == PullPhase::Failed
                    &&& final(self).lens@ == old(self).lens@
                    &&& action == StreamAction::Abort(SyncError::LocalIo(m))
                },
                StreamEvent::Ended => {
                    &&& final(self).phase == PullPhase::Finished
                    &&& final(self).lens@ == old(self).lens@
                    &&& action == StreamAction::Finish(old(self).received)
                },
            },
    {
        if self.phase != PullPhase::Streaming {
            return StreamAction::Ignore;
        }
        match event {
            StreamEvent::Chunk(n) => {
                let ghost before = self.lens@;
                self.received = self.received + n as u64;
                self.lens = Ghost(before.push(n as nat));
                assert(self.lens@.drop_last() =~= before);
                if n > 0 {
                    self.reported = Ghost(self.reported@.push(self.received as nat));
                    StreamAction::Report(self.received)
                } else {
                    StreamAction::Continue
                }
            },
            StreamEvent::StreamFailed(m) => {
                self.phase = PullPhase::Failed;
                StreamAction::Abort(SyncError::RemoteTransport(m))
            },
            StreamEvent::WriteFailed(m) => {
                self.phase = PullPhase::Failed;
                StreamAction::Abort(SyncError::LocalIo(m))
            },
            StreamEvent::Ended => {
                self.phase = PullPhase::Finished;
                StreamAction::Finish(self.received)
            },
        }
    }
}

/// Progress of a download is reported in strictly increasing counts, each above zero, and
/// the last one is the number of bytes received in all.
pub proof fn law_progress_strictly_increases(lens: Seq<nat>)
    ensures
        forall|i: int, j: int|
            0 <= i < j < reports(lens).len() ==> #[trigger] reports(lens)[i] < #[trigger] reports(
                lens,
            )[j],
        forall|i: int| 0 <= i < reports(lens).len() ==> #[trigger] reports(lens)[i] > 0,
        reports(lens).len() > 0 ==> reports(lens).last() == total(lens),
        reports(lens).len() == 0 ==> total(lens) == 0,
    decreases lens.len(),
{
    if lens.len() > 0 {
        law_progress_strictly_increases(lens.drop_last());
    }
}

} // verus!
