use vstd::prelude::*;

use crate::error::EngineError;

verus! {

/// Where a transfer session stands.
#[derive(PartialEq, Eq, Structural)]
pub enum TransferPhase {
    /// Body chunks are arriving and being appended to the temporary file.
    Receiving,
    /// The stream ended; the temporary file is being flushed.
    Flushing,
    /// The flushed archive is being installed.
    Extracting,
    /// The package was installed.
    Completed,
    /// The user cancelled the transfer while it was receiving.
    Cancelled,
    /// A transport, filesystem or extraction failure ended the session.
    Failed,
}

/// What happened since the session's last step.
pub enum TransferEvent {
    /// A body chunk of this many bytes arrived.
    ChunkReceived(u64),
    /// The stream yielded a transport error.
    ChunkFailed(String),
    /// Appending to, or flushing, the temporary file failed.
    WriteFailed(String),
    /// The stream ended normally.
    StreamEnded,
    /// The temporary file was flushed.
    Flushed,
    /// The archive was installed.
    ExtractionFinished,
    /// Installing the archive failed.
    ExtractionFailed(String),
    /// The cancellation signal fired.
    CancelRequested,
}

/// What the session asks its driver to do next.
pub enum TransferAction {
    /// Append the chunk to the temporary file, then report progress
    /// `(package_id, transferred)`.
    AppendAndReport { package_id: String, transferred: u64 },
    /// Flush the temporary file.
    Flush,
    /// Install the flushed archive.
    Extract,
    /// Report completion `(package_id, hash)`; the temporary directory is released.
    Complete { package_id: String, hash: String },
    /// Release the temporary directory with its partial file, and fail with this error.
    Abort(EngineError),
    /// Nothing to do: the event does not apply in this phase.
    Ignore,
}

/// One download of one package: its id, the content hash handed on at completion, the
/// bytes received so far, and its phase.
pub struct TransferSession {
    pub package_id: String,
    pub expected_hash: String,
    pub transferred: u64,
    pub phase: TransferPhase,
}

/// The session has ended and ignores every further event.
pub open spec fn is_terminal(p: TransferPhase) -> bool {
    p is Completed || p is Cancelled || p is Failed
}

/// The session after an event.
pub open spec fn next_state(s: TransferSession, e: TransferEvent) -> TransferSession {
    match s.phase {
        TransferPhase::Receiving => match e {
            TransferEvent::ChunkReceived(n) => TransferSession { transferred: (s.transferred + n) as u64, ..s },
            TransferEvent::ChunkFailed(_) => TransferSession { phase: TransferPhase::Failed, ..s },
            TransferEvent::WriteFailed(_) => TransferSession { phase: TransferPhase::Failed, ..s },
            TransferEvent::StreamEnded => TransferSession { phase: TransferPhase::Flushing, ..s },
            TransferEvent::CancelRequested => TransferSession { phase: TransferPhase::Cancelled, ..s },
            _ => s,
        },
        TransferPhase::Flushing => match e {
            TransferEvent::Flushed => TransferSession { phase: TransferPhase::Extracting, ..s },
            TransferEvent::WriteFailed(_) => TransferSession { phase: TransferPhase::Failed, ..s },
            _ => s,
        },
        TransferPhase::Extracting => match e {
            TransferEvent::ExtractionFinished => TransferSession { phase: TransferPhase::Completed, ..s },
            TransferEvent::ExtractionFailed(_) => TransferSession { phase: TransferPhase::Failed, ..s },
            _ => s,
        },
        _ => s,
    }
}

/// The action that an event calls for.
pub open spec fn next_action(s: TransferSession, e: TransferEvent) -> TransferAction {
    match s.phase {
        TransferPhase::Receiving => match e {
            TransferEvent::ChunkReceived(n) => TransferAction::AppendAndReport {
                package_id: s.package_id,
                transferred: (s.transferred + n) as u64,
            },
            TransferEvent::ChunkFailed(m) => TransferAction::Abort(EngineError::Transport(m)),
            TransferEvent::WriteFailed(m) => TransferAction::Abort(EngineError::Filesystem(m)),
            TransferEvent::StreamEnded => TransferAction::Flush,
            TransferEvent::CancelRequested => TransferAction::Abort(EngineError::Cancelled),
            _ => TransferAction::Ignore,
        },
        TransferPhase::Flushing => match e {
            TransferEvent::Flushed => TransferAction::Extract,
            TransferEvent::WriteFailed(m) => TransferAction::Abort(EngineError::Filesystem(m)),
            _ => TransferAction::Ignore,
        },
        TransferPhase::Extracting => match e {
            TransferEvent::ExtractionFinished => TransferAction::Complete {
                package_id: s.package_id,
                hash: s.expected_hash,
            },
            TransferEvent::ExtractionFailed(m) => TransferAction::Abort(EngineError::Filesystem(m)),
            _ => TransferAction::Ignore,
        },
        _ => TransferAction::Ignore,
    }
}

/// The event fits the byte counter: a chunk does not carry it past 64 bits.
pub open spec fn fits(s: TransferSession, e: TransferEvent) -> bool {
    match e {
        TransferEvent::ChunkReceived(n) => s.transferred + n <= u64::MAX,
        _ => true,
    }
}

impl TransferSession {
    /// A session that starts receiving, with nothing transferred yet.
    pub fn new(package_id: String, expected_hash: String) -> (r: TransferSession)
        ensures
            r.package_id == package_id,
            r.expected_hash == expected_hash,
            r.transferred == 0,
            r.phase == TransferPhase::Receiving,
    {
        TransferSession { package_id, expected_hash, transferred: 0, phase: TransferPhase::Receiving }
    }

    /// The name of the temporary archive file: the package id with `.zip` appended.
    pub fn archive_file_name(&self) -> (r: String)
        ensures
            r@ == self.package_id@ + ".zip"@,
    {
        self.package_id.clone().concat(".zip")
    }

    /// Whether the session has ended.
    pub fn is_finished(&self) -> (r: bool)
        ensures
            r == is_terminal(self.phase),
    {
        match self.phase {
            TransferPhase::Completed | TransferPhase::Cancelled | TransferPhase::Failed => true,
            _ => false,
        }
    }

    /// Takes one event: moves to the next phase and says what to do.
    pub fn step(&mut self, event: TransferEvent) -> (r: TransferAction)
        requires
            fits(*old(self), event),
        ensures
            *final(self) == next_state(*old(self), event),
            r == next_action(*old(self), event),
    {
        match self.phase {
            TransferPhase::Receiving => match event {
                TransferEvent::ChunkReceived(n) => {
                    self.transferred = self.transferred + n;
                    TransferAction::AppendAndReport {
                        package_id: self.package_id.clone(),
                        transferred: self.transferred,
                    }
                },
                TransferEvent::ChunkFailed(m) => {
                    self.phase = TransferPhase::Failed;
                    TransferAction::Abort(EngineError::Transport(m))
                },
                TransferEvent::WriteFailed(m) => {
                    self.phase = TransferPhase::Failed;
                    TransferAction::Abort(EngineError::Filesystem(m))
                },
                TransferEvent::StreamEnded => {
                    self.phase = TransferPhase::Flushing;
                    TransferAction::Flush
                },
                TransferEvent::CancelRequested => {
                    self.phase = TransferPhase::Cancelled;
                    TransferAction::Abort(EngineError::Cancelled)
                },
                _ => TransferAction::Ignore,
            },
            TransferPhase::Flushing => match event {
                TransferEvent::Flushed => {
                    self.phase = TransferPhase::Extracting;
                    TransferAction::Extract
                },
                TransferEvent::WriteFailed(m) => {
                    self.phase = TransferPhase::Failed;
                    TransferAction::Abort(EngineError::Filesystem(m))
                },
                _ => TransferAction::Ignore,
            },
            TransferPhase::Extracting => match event {
                TransferEvent::ExtractionFinished => {
                    self.phase = TransferPhase::Completed;
                    TransferAction::Complete {
                        package_id: self.package_id.clone(),
                        hash: self.expected_hash.clone(),
                    }
                },
                TransferEvent::ExtractionFailed(m) => {
                    self.phase = TransferPhase::Failed;
                    TransferAction::Abort(EngineError::Filesystem(m))
                },
                _ => TransferAction::Ignore,
            },
            _ => TransferAction::Ignore,
        }
    }
}

/// The session after a sequence of events, taken in order.
pub open spec fn run_state(s: TransferSession, es: Seq<TransferEvent>) -> TransferSession
    decreases es.len(),
{
    if es.len() == 0 {
        s
    } else {
        run_state(next_state(s, es[0]), es.subrange(1, es.len() as int))
    }
}

/// The actions that a sequence of events calls for, in order.
pub open spec fn run_actions(s: TransferSession, es: Seq<TransferEvent>) -> Seq<TransferAction>
    decreases es.len(),
{
    if es.len() == 0 {
        Seq::empty()
    } else {
        seq![next_action(s, es[0])].add(run_actions(next_state(s, es[0]), es.subrange(1, es.len() as int)))
    }
}

/// Every event is the arrival of a chunk.
pub open spec fn all_chunks(es: Seq<TransferEvent>) -> bool {
    forall|i: int| 0 <= i < es.len() ==> (#[trigger] es[i]) is ChunkReceived
}

/// An action that installs or completes, touching the installation roots.
pub open spec fn touches_roots(a: TransferAction) -> bool {
    a is Extract || a is Complete
}

/// A cancellation that fires after any number of chunks (none included) cancels the
/// transfer: the session ends cancelled, its last action discards the temporary directory
/// with the `Cancelled` error, and no action installs anything.
pub proof fn lemma_cancel_after_chunks(s: TransferSession, es: Seq<TransferEvent>)
    requires
        s.phase == TransferPhase::Receiving,
        all_chunks(es),
    ensures
        run_state(s, es.push(TransferEvent::CancelRequested)).phase == TransferPhase::Cancelled,
        run_actions(s, es.push(TransferEvent::CancelRequested)).len() == es.len() + 1,
        run_actions(s, es.push(TransferEvent::CancelRequested)).last() == TransferAction::Abort(
            EngineError::Cancelled,
        ),
        forall|i: int|
            0 <= i < es.len() + 1 ==> !touches_roots(
                #[trigger] run_actions(s, es.push(TransferEvent::CancelRequested))[i],
            ),
    decreases es.len(),
{
    let all = es.push(TransferEvent::CancelRequested);
    if es.len() == 0 {
        assert(all[0] == TransferEvent::CancelRequested);
        let s1 = next_state(s, all[0]);
        assert(all.subrange(1, 1) =~= Seq::<TransferEvent>::empty());
        assert(run_actions(s1, Seq::<TransferEvent>::empty()) =~= Seq::<TransferAction>::empty());
        assert(run_state(s1, Seq::<TransferEvent>::empty()) == s1);
        assert(run_actions(s, all) =~= seq![TransferAction::Abort(EngineError::Cancelled)]);
    } else {
        let rest = es.subrange(1, es.len() as int);
        assert(es[0] is ChunkReceived);
        let s1 = next_state(s, es[0]);
        assert forall|i: int| 0 <= i < rest.len() implies (#[trigger] rest[i]) is ChunkReceived by {
            assert(rest[i] == es[i + 1]);
        }
        lemma_cancel_after_chunks(s1, rest);
        assert(all.subrange(1, all.len() as int) =~= rest.push(TransferEvent::CancelRequested));
        let tail = run_actions(s1, rest.push(TransferEvent::CancelRequested));
        assert(run_actions(s, all) =~= seq![next_action(s, es[0])].add(tail));
        assert forall|i: int| 0 <= i < es.len() + 1 implies !touches_roots(#[trigger] run_actions(s, all)[i]) by {
            if i > 0 {
                assert(run_actions(s, all)[i] == tail[i - 1]);
            }
        }
    }
}

/// The bytes that an event brings: a chunk's length, else none.
pub open spec fn chunk_len(e: TransferEvent) -> nat {
    match e {
        TransferEvent::ChunkReceived(n) => n as nat,
        _ => 0,
    }
}

/// The bytes that a sequence of events brings.
pub open spec fn chunk_total(es: Seq<TransferEvent>) -> nat
    decreases es.len(),
{
    if es.len() == 0 {
        0
    } else {
        chunk_len(es[0]) + chunk_total(es.subrange(1, es.len() as int))
    }
}

/// The progress report after the first `i + 1` chunks of `es`.
pub open spec fn report_after(s: TransferSession, es: Seq<TransferEvent>, i: int) -> TransferAction {
    TransferAction::AppendAndReport {
        package_id: s.package_id,
        transferred: (s.transferred + chunk_total(es.subrange(0, i + 1))) as u64,
    }
}

/// While receiving, each of `N` chunks followed by a cancellation is answered by one
/// progress report: the `k`-th carries the package id and the bytes of the first `k`
/// chunks. With the cancellation law, these `N` reports are the only actions before the
/// discarding abort.
pub proof fn lemma_progress_reports(s: TransferSession, es: Seq<TransferEvent>)
    requires
        s.phase == TransferPhase::Receiving,
        all_chunks(es),
        s.transferred + chunk_total(es) <= u64::MAX,
    ensures
        forall|i: int|
            0 <= i < es.len() ==> #[trigger] run_actions(s, es.push(TransferEvent::CancelRequested))[i]
                == report_after(s, es, i),
    decreases es.len(),
{
    let all = es.push(TransferEvent::CancelRequested);
    if es.len() > 0 {
        let rest = es.subrange(1, es.len() as int);
        assert(es[0] is ChunkReceived);
        let n0 = chunk_len(es[0]);
        let s1 = next_state(s, es[0]);
        assert(s1.transferred == s.transferred + n0);
        assert(s1.package_id == s.package_id);
        assert forall|i: int| 0 <= i < rest.len() implies (#[trigger] rest[i]) is ChunkReceived by {
            assert(rest[i] == es[i + 1]);
        }
        lemma_progress_reports(s1, rest);
        lemma_cancel_after_chunks(s1, rest);
        assert(all.subrange(1, all.len() as int) =~= rest.push(TransferEvent::CancelRequested));
        assert(all[0] == es[0]);
        let tail = run_actions(s1, rest.push(TransferEvent::CancelRequested));
        assert(run_actions(s, all) =~= seq![next_action(s, es[0])].add(tail));
        assert forall|i: int| 0 <= i < es.len() implies #[trigger] run_actions(s, all)[i] == report_after(s, es, i) by {
            let pre = es.subrange(0, i + 1);
            assert(pre[0] == es[0]);
            assert(pre.subrange(1, pre.len() as int) =~= rest.subrange(0, i));
            assert(chunk_total(pre) == n0 + chunk_total(rest.subrange(0, i)));
            if i == 0 {
                assert(rest.subrange(0, 0) =~= Seq::<TransferEvent>::empty());
                assert(chunk_total(rest.subrange(0, 0)) == 0);
            } else {
                assert(run_actions(s, all)[i] == tail[i - 1]);
            }
        }
    }
}

} // verus!
