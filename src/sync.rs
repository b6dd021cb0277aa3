use crate::error::SyncError;
use vstd::prelude::*;
use vstd::string::StringSliceAdditionalSpecFns;

verus! {

/// The suffix that names an archive of bundled files: `.zip`, as UTF-8 bytes.
pub open spec fn archive_suffix() -> Seq<u8> {
    seq![0x2eu8, 0x7au8, 0x69u8, 0x70u8]
}

/// A key names an archive when its UTF-8 bytes end in `.zip`.
pub open spec fn names_archive(bytes: Seq<u8>) -> bool {
    bytes.len() >= 4 && bytes.subrange(bytes.len() - 4, bytes.len() as int) == archive_suffix()
}

/// Whether the object under this key is an archive of bundled files, to unpack on receipt.
pub fn is_archive_key(key: &str) -> (r: bool)
    ensures
        r == names_archive(key.spec_bytes()),
{
    let b = key.as_bytes();
    let n = b.len();
    if n < 4 {
        return false;
    }
    let r = b[n - 4] == 0x2e && b[n - 3] == 0x7a && b[n - 2] == 0x69 && b[n - 1] == 0x70;
    proof {
        let tail = b@.subrange(n - 4, n as int);
        if r {
            assert(tail =~= archive_suffix());
        } else {
            assert(tail != archive_suffix()) by {
                if tail == archive_suffix() {
                    assert(tail[0] == b@[n - 4]);
                    assert(tail[1] == b@[n - 3]);
                    assert(tail[2] == b@[n - 2]);
                    assert(tail[3] == b@[n - 1]);
                }
            }
        }
    }
    r
}

/// Where one send operation stands.
#[derive(Debug, Clone, Copy, PartialEq, Eq, Structural)]
pub enum SendPhase {
    Idle,
    Validating,
    Bundling,
    Uploading,
    Succeeded,
    Failed,
}

/// What the outside reported to a send operation.
#[derive(Debug)]
pub enum SendEvent {
    /// The user asked to send this many local files.
    Begin(usize),
    /// Whether every local file exists and opens.
    Checked(Result<(), SyncError>),
    /// Whether the files were bundled into one archive.
    Bundled(Result<(), SyncError>),
    /// Whether the upload went through, with its elapsed milliseconds.
    Uploaded(Result<u64, SyncError>),
}

/// What the caller of a send operation does next.
#[derive(Debug, Clone)]
pub enum SendAction {
    CheckFiles,
    Bundle,
    Upload,
    Succeed(u64),
    Fail(SyncError),
    /// The event does not apply to the phase: nothing to do.
    Ignore,
}

/// One send operation: its phase and the number of files it sends.
#[derive(Debug, Clone, Copy, PartialEq, Eq, Structural)]
pub struct SendOp {
    pub phase: SendPhase,
    pub files: usize,
}

/// The send transition: `Idle` → `Validating` → (`Bundling` when more than one file) →
/// `Uploading` → `Succeeded`; any failure leads to `Failed`, which, like `Succeeded`, is
/// never left.
pub open spec fn send_next(op: SendOp, ev: SendEvent) -> (SendOp, SendAction) {
    let fail = |e: SyncError| (SendOp { phase: SendPhase::Failed, ..op }, SendAction::Fail(e));
    let ignore = (op, SendAction::Ignore);
    match op.phase {
        SendPhase::Idle => match ev {
            SendEvent::Begin(n) => if n == 0 {
                (SendOp { phase: SendPhase::Failed, files: 0 }, SendAction::Fail(SyncError::NoFiles))
            } else {
                (SendOp { phase: SendPhase::Validating, files: n }, SendAction::CheckFiles)
            },
            _ => ignore,
        },
        SendPhase::Validating => match ev {
            SendEvent::Checked(Ok(())) => if op.files > 1 {
                (SendOp { phase: SendPhase::Bundling, ..op }, SendAction::Bundle)
            } else {
                (SendOp { phase: SendPhase::Uploading, ..op }, SendAction::Upload)
            },
            SendEvent::Checked(Err(e)) => fail(e),
            _ => ignore,
        },
        SendPhase::Bundling => match ev {
            SendEvent::Bundled(Ok(())) => (
                SendOp { phase: SendPhase::Uploading, ..op },
                SendAction::Upload,
            ),
            SendEvent::Bundled(Err(e)) => fail(e),
            _ => ignore,
        },
        SendPhase::Uploading => match ev {
            SendEvent::Uploaded(Ok(ms)) => (
                SendOp { phase: SendPhase::Succeeded, ..op },
                SendAction::Succeed(ms),
            ),
            SendEvent::Uploaded(Err(e)) => fail(e),
            _ => ignore,
        },
        _ => ignore,
    }
}

impl SendOp {
    /// A send operation that has not started.
    pub fn new() -> (r: Self)
        ensures
            r.phase == SendPhase::Idle,
            r.files == 0,
    {
        SendOp { phase: SendPhase::Idle, files: 0 }
    }

    /// Takes the next event and says what to do, as `send_next` gives.
    pub fn step(&mut self, ev: SendEvent) -> (action: SendAction)
        ensures
            (*final(self), action) == send_next(*old(self), ev),
    {
        match self.phase {
            SendPhase::Idle => match ev {
                SendEvent::Begin(n) => {
                    if n == 0 {
                        *self = SendOp { phase: SendPhase::Failed, files: 0 };
                        SendAction::Fail(SyncError::NoFiles)
                    } else {
                        *self = SendOp { phase: SendPhase::Validating, files: n };
                        SendAction::CheckFiles
                    }
                },
                _ => SendAction::Ignore,
            },
            SendPhase::Validating => match ev {
                SendEvent::Checked(Ok(())) => {
                    if self.files > 1 {
                        self.phase = SendPhase::Bundling;
                        SendAction::Bundle
                    } else {
                        self.phase = SendPhase::Uploading;
                        SendAction::Upload
                    }
                },
                SendEvent::Checked(Err(e)) => {
                    self.phase = SendPhase::Failed;
                    SendAction::Fail(e)
                },
                _ => SendAction::Ignore,
            },
            SendPhase::Bundling => match ev {
                SendEvent::Bundled(Ok(())) => {
                    self.phase = SendPhase::Uploading;
                    SendAction::Upload
                },
                SendEvent::Bundled(Err(e)) => {
                    self.phase = SendPhase::Failed;
                    SendAction::Fail(e)
                },
                _ => SendAction::Ignore,
            },
            SendPhase::Uploading => match ev {
                SendEvent::Uploaded(Ok(ms)) => {
                    self.phase = SendPhase::Succeeded;
                    SendAction::Succeed(ms)
                },
                SendEvent::Uploaded(Err(e)) => {
                    self.phase = SendPhase::Failed;
                    SendAction::Fail(e)
                },
                _ => SendAction::Ignore,
            },
            _ => SendAction::Ignore,
        }
    }
}

/// A send only uploads after every local file was found and opened (and, for several files,
/// bundled): a failed check ends the operation with that error, and a failed operation
/// never reaches the store.
pub proof fn law_upload_only_after_checks(op: SendOp, ev: SendEvent)
    ensures
        send_next(op, ev).1 is Upload ==> (op.phase == SendPhase::Validating && ev is Checked
            && ev->Checked_0 is Ok) || (op.phase == SendPhase::Bundling && ev is Bundled
            && ev->Bundled_0 is Ok),
        (op.phase == SendPhase::Validating && ev is Checked && ev->Checked_0 is Err) ==> send_next(
            op,
            ev,
        ) == (SendOp { phase: SendPhase::Failed, ..op }, SendAction::Fail(ev->Checked_0->Err_0)),
        op.phase == SendPhase::Failed ==> send_next(op, ev) == (op, SendAction::Ignore),
{
}

/// Where one receive operation stands.
#[derive(Debug, Clone, Copy, PartialEq, Eq, Structural)]
pub enum ReceivePhase {
    Idle,
    Resolving,
    Downloading,
    Unbundling,
    Succeeded,
    /// Nothing has been shared yet: not an error.
    NothingShared,
    Failed,
}

/// What the outside reported to a receive operation.
#[derive(Debug)]
pub enum ReceiveEvent {
    /// The user asked to receive: `Some(archive)` for an object already chosen (and whether it
    /// is an archive), `None` to fetch the latest one.
    Begin(Option<bool>),
    /// The latest object, if any (and whether it is an archive), or why the catalog failed.
    Resolved(Result<Option<bool>, SyncError>),
    /// Whether the download went through, with its elapsed milliseconds.
    Downloaded(Result<u64, SyncError>),
    /// Whether the downloaded archive was unpacked.
    Unbundled(Result<(), SyncError>),
}

/// What the caller of a receive operation does next.
#[derive(Debug, Clone)]
pub enum ReceiveAction {
    FindLatest,
    Download,
    Unbundle,
    Succeed(u64),
    ReportNothingShared,
    Fail(SyncError),
    /// The event does not apply to the phase: nothing to do.
    Ignore,
}

/// One receive operation: its phase, whether its object is an archive, and the elapsed
/// milliseconds of its download.
#[derive(Debug, Clone, Copy, PartialEq, Eq, Structural)]
pub struct ReceiveOp {
    pub phase: ReceivePhase,
    pub archive: bool,
    pub elapsed: u64,
}

/// The receive transition: `Idle` → (`Resolving` unless the object is given) →
/// `Downloading` → (`Unbundling` for an archive) → `Succeeded`; an empty catalog ends in
/// `NothingShared`, any failure in `Failed`; the last three are never left.
pub open spec fn receive_next(op: ReceiveOp, ev: ReceiveEvent) -> (ReceiveOp, ReceiveAction) {
    let fail = |e: SyncError|
        (ReceiveOp { phase: ReceivePhase::Failed, ..op }, ReceiveAction::Fail(e));
    let ignore = (op, ReceiveAction::Ignore);
    match op.phase {
        ReceivePhase::Idle => match ev {
            ReceiveEvent::Begin(Some(archive)) => (
                ReceiveOp { phase: ReceivePhase::Downloading, archive, elapsed: 0 },
                ReceiveAction::Download,
            ),
            ReceiveEvent::Begin(None) => (
                ReceiveOp { phase: ReceivePhase::Resolving, archive: false, elapsed: 0 },
                ReceiveAction::FindLatest,
            ),
            _ => ignore,
        },
        ReceivePhase::Resolving => match ev {
            ReceiveEvent::Resolved(Ok(Some(archive))) => (
                ReceiveOp { phase: ReceivePhase::Downloading, archive, ..op },
                ReceiveAction::Download,
            ),
            ReceiveEvent::Resolved(Ok(None)) => (
                ReceiveOp { phase: ReceivePhase::NothingShared, ..op },
                ReceiveAction::ReportNothingShared,
            ),
            ReceiveEvent::Resolved(Err(e)) => fail(e),
            _ => ignore,
        },
        ReceivePhase::Downloading => match ev {
            ReceiveEvent::Downloaded(Ok(ms)) => if op.archive {
                (
                    ReceiveOp { phase: ReceivePhase::Unbundling, elapsed: ms, ..op },
                    ReceiveAction::Unbundle,
                )
            } else {
                (
                    ReceiveOp { phase: ReceivePhase::Succeeded, elapsed: ms, ..op },
                    ReceiveAction::Succeed(ms),
                )
            },
            ReceiveEvent::Downloaded(Err(e)) => fail(e),
            _ => ignore,
        },
        ReceivePhase::Unbundling => match ev {
            ReceiveEvent::Unbundled(Ok(())) => (
                ReceiveOp { phase: ReceivePhase::Succeeded, ..op },
                ReceiveAction::Succeed(op.elapsed),
            ),
            ReceiveEvent::Unbundled(Err(e)) => fail(e),
            _ => ignore,
        },
        _ => ignore,
    }
}

impl ReceiveOp {
    /// A receive operation that has not started.
    pub fn new() -> (r: Self)
        ensures
            r.phase == ReceivePhase::Idle,
            !r.archive,
            r.elapsed == 0,
    {
        ReceiveOp { phase: ReceivePhase::Idle, archive: false, elapsed: 0 }
    }

    /// Takes the next event and says what to do, as `receive_next` gives.
    pub fn step(&mut self, ev: ReceiveEvent) -> (action: ReceiveAction)
        ensures
            (*final(self), action) == receive_next(*old(self), ev),
    {
        match self.phase {
            ReceivePhase::Idle => match ev {
                ReceiveEvent::Begin(Some(archive)) => {
                    *self = ReceiveOp { phase: ReceivePhase::Downloading, archive, elapsed: 0 };
                    ReceiveAction::Download
                },
                ReceiveEvent::Begin(None) => {
                    *self = ReceiveOp { phase: ReceivePhase::Resolving, archive: false, elapsed: 0 };
                    ReceiveAction::FindLatest
                },
                _ => ReceiveAction::Ignore,
            },
            ReceivePhase::Resolving => match ev {
                ReceiveEvent::Resolved(Ok(Some(archive))) => {
                    self.phase = ReceivePhase::Downloading;
                    self.archive = archive;
                    ReceiveAction::Download
                },
                ReceiveEvent::Resolved(Ok(None)) => {
                    self.phase = ReceivePhase::NothingShared;
                    ReceiveAction::ReportNothingShared
                },
                ReceiveEvent::Resolved(Err(e)) => {
                    self.phase = ReceivePhase::Failed;
                    ReceiveAction::Fail(e)
                },
                _ => ReceiveAction::Ignore,
            },
            ReceivePhase::Downloading => match ev {
                ReceiveEvent::Downloaded(Ok(ms)) => {
                    self.elapsed = ms;
                    if self.archive {
                        self.phase = ReceivePhase::Unbundling;
                        ReceiveAction::Unbundle
                    } else {
                        self.phase = ReceivePhase::Succeeded;
                        ReceiveAction::Succeed(ms)
                    }
                },
                ReceiveEvent::Downloaded(Err(e)) => {
                    self.phase = ReceivePhase::Failed;
                    ReceiveAction::Fail(e)
                },
                _ => ReceiveAction::Ignore,
            },
            ReceivePhase::Unbundling => match ev {
                ReceiveEvent::Unbundled(Ok(())) => {
                    self.phase = ReceivePhase::Succeeded;
                    ReceiveAction::Succeed(self.elapsed)
                },
                ReceiveEvent::Unbundled(Err(e)) => {
                    self.phase = ReceivePhase::Failed;
                    ReceiveAction::Fail(e)
                },
                _ => ReceiveAction::Ignore,
            },
            _ => ReceiveAction::Ignore,
        }
    }
}

} // verus!
