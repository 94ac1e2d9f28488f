//! The ownership protocol around a captured CUDA graph: ending a capture,
//! instantiating the graph, uploading it, and tearing each piece down again.
//!
//! The driver calls are made by the caller. A `Protocol` decides, one reply
//! at a time, which call comes next and what becomes of every handle it
//! holds: a handle is destroyed once, after the work that may use it has been
//! fenced, or it is retained for the life of the process when the driver can
//! no longer say whether it is idle.

use vstd::prelude::*;

verus! {

/// The driver's answer to the last call: the id under which the caller keeps
/// the error when the call failed, and the value the call produced (the
/// handle that `EndCapture` or `Instantiate` wrote, 0 for none; 1 when
/// `CaptureStatus` found the stream still capturing, 0 when it did not).
#[derive(Clone, Copy, Debug, PartialEq, Eq, Structural)]
pub struct Reply {
    pub failure: Option<u64>,
    pub value: u64,
}

/// What the caller must do next.
#[derive(Clone, Copy, Debug, PartialEq, Eq, Structural)]
pub enum Call {
    /// Ask whether the capture stream is still capturing.
    CaptureStatus,
    /// Bind the stream's context to the calling thread.
    Bind,
    /// End the capture; the reply's value is the graph written, if any.
    EndCapture,
    /// Instantiate `graph`; the reply's value is the executable written, if any.
    Instantiate { graph: u64 },
    /// Upload `executable` on `stream`.
    Upload { executable: u64, stream: u64 },
    /// Wait for all work queued on `stream`.
    Fence { stream: u64 },
    /// Destroy the executable graph `executable`.
    DestroyExec { executable: u64 },
    /// Destroy the graph `graph`.
    DestroyGraph { graph: u64 },
    /// Record the error kept under `failure` in the context's sticky error state.
    Record { failure: u64 },
    /// Keep these handles, and the context, alive until the process exits,
    /// and mark the shared cleanup state uncertain.
    Retain { graph: u64, executable: u64, pending: Option<u64> },
    /// Mark the shared cleanup state uncertain and keep the context alive.
    Distrust,
    /// Drop the preparation's data: no stream still uses it.
    ReleaseData,
    /// Leak the preparation's data, its streams and these handles, and hold
    /// one more capture-exclusion slot.
    LeakData { graph: u64, executable: u64, pending: Option<u64> },
    /// The protocol is over.
    Done,
}

/// Which of the protocols runs.
#[derive(Clone, Copy, Debug, PartialEq, Eq, Structural)]
pub enum Task {
    /// End a capture and instantiate its graph.
    Finish,
    /// Upload an instantiated graph and fence the upload.
    Upload,
    /// Tear down a graph owner.
    Owner,
    /// Close a capture session that may still be capturing.
    Session,
    /// Release a preparation's data once its streams are fenced.
    Flight,
}

/// What follows the teardown of a graph owner.
#[derive(Clone, Copy, Debug, PartialEq, Eq, Structural)]
pub enum After {
    Stop,
    Session,
    Flight,
}

/// What a protocol reports to its caller.
#[derive(Clone, Copy, Debug, PartialEq, Eq, Structural)]
pub enum Outcome {
    /// The protocol has not decided yet.
    Pending,
    /// Success; after `Finish`, the protocol hands over its graph and executable.
    Succeeded,
    /// Ending the capture failed.
    EndFailed(u64),
    /// The capture ended without a graph.
    NullGraph,
    /// Instantiation failed.
    InstantiateFailed(u64),
    /// Instantiation succeeded without an executable.
    NullExecutable,
    /// The upload, or the fence after it, failed.
    UploadFailed(u64),
}

/// The message of each Outcome.
pub open spec fn outcome_message(x: Outcome) -> Seq<char> {
    match x {
        Outcome::Pending => "static_graph: pending"@,
        Outcome::Succeeded => "static_graph: ok"@,
        Outcome::EndFailed(_) => "static_capture_end: CUDA error"@,
        Outcome::NullGraph => "static_capture_end: CUDA error: null graph"@,
        Outcome::InstantiateFailed(_) => "static_graph_instantiate: CUDA error"@,
        Outcome::NullExecutable => "static_graph_instantiate: CUDA error: null executable"@,
        Outcome::UploadFailed(_) => "static_graph_upload: CUDA error"@,
    }
}

impl Outcome {
    /// The operation and reason that the outcome reports; the caller adds
    /// the driver's own words for the failure it kept.
    pub fn message(&self) -> (m: &'static str)
        ensures
            m@ == outcome_message(*self),
    {
        match self {
            Outcome::Pending => "static_graph: pending",
            Outcome::Succeeded => "static_graph: ok",
            Outcome::EndFailed(_) => "static_capture_end: CUDA error",
            Outcome::NullGraph => "static_capture_end: CUDA error: null graph",
            Outcome::InstantiateFailed(_) => "static_graph_instantiate: CUDA error",
            Outcome::NullExecutable => "static_graph_instantiate: CUDA error: null executable",
            Outcome::UploadFailed(_) => "static_graph_upload: CUDA error",
        }
    }
}

/// Where a protocol stands: each stage waits for the reply to one call.
#[derive(Clone, Copy, Debug, PartialEq, Eq, Structural)]
pub enum Stage {
    FinishEnd,
    FinishInstantiate,
    UploadSent,
    UploadFenced,
    UploadRecorded,
    OwnerFence,
    OwnerFenceRecorded,
    OwnerBind,
    OwnerBindRecorded,
    OwnerExec,
    OwnerExecRecorded,
    OwnerGraph,
    OwnerGraphRecorded,
    OwnerRetained,
    SessionStatus,
    SessionBind,
    SessionGiveUp,
    SessionDistrusted,
    SessionEnd,
    SessionEndRecorded,
    SessionRecheck,
    SessionRecheckRecorded,
    SessionDestroy,
    SessionDestroyRecorded,
    SessionRetained,
    FlightFence,
    FlightRetry,
    FlightFirstRecorded,
    FlightRetryRecorded,
    FlightSettled,
    Finished,
}

/// A running protocol and the handles it holds (0 is the null handle).
pub struct Protocol {
    pub task: Task,
    pub stage: Stage,
    pub after: After,
    /// The graph held.
    pub graph: u64,
    /// The executable graph held.
    pub executable: u64,
    /// The stream of an upload that may still be running.
    pub pending: Option<u64>,
    /// Whether the capture session may still be capturing.
    pub active: bool,
    /// The shared cleanup state's uncertainty, as far as this protocol knows.
    pub uncertain: bool,
    /// A failure kept for later: the upload's, or a fence's before its retry.
    pub held: Option<u64>,
    /// The failure of a fence retry, to be recorded.
    pub retry: Option<u64>,
    pub outcome: Outcome,
    /// The upload's stream.
    pub stream: u64,
    /// The streams a preparation fences before its data goes.
    pub streams: Vec<u64>,
    /// The stream being fenced.
    pub next_stream: usize,
    /// Whether every fence so far completed.
    pub complete: bool,
    /// Whether a preparation owns a graph (torn down once its streams are fenced).
    pub has_owner: bool,
}

// ---------------------------------------------------------------------------
// The transition function

pub open spec fn finished(p: Protocol) -> (Protocol, Call) {
    (Protocol { stage: Stage::Finished, ..p }, Call::Done)
}

/// Teardown of a graph owner: fence a pending upload first.
pub open spec fn owner_start(p: Protocol) -> (Protocol, Call) {
    match p.pending {
        Some(s) => (Protocol { stage: Stage::OwnerFence, ..p }, Call::Fence { stream: s }),
        None => (Protocol { stage: Stage::OwnerBind, ..p }, Call::Bind),
    }
}

/// After the bind: destroy the executable, then the graph.
pub open spec fn owner_destroy_exec(p: Protocol) -> (Protocol, Call) {
    if p.executable != 0 {
        (Protocol { stage: Stage::OwnerExec, ..p }, Call::DestroyExec { executable: p.executable })
    } else {
        owner_destroy_graph(p)
    }
}

pub open spec fn owner_destroy_graph(p: Protocol) -> (Protocol, Call) {
    if p.graph != 0 {
        (Protocol { stage: Stage::OwnerGraph, ..p }, Call::DestroyGraph { graph: p.graph })
    } else {
        owner_settle(p)
    }
}

/// What could not be destroyed, or may still be in use, is retained.
pub open spec fn owner_settle(p: Protocol) -> (Protocol, Call) {
    if p.graph != 0 || p.executable != 0 || p.pending is Some {
        (
            Protocol { stage: Stage::OwnerRetained, graph: 0, executable: 0, pending: None, uncertain: true, ..p },
            Call::Retain { graph: p.graph, executable: p.executable, pending: p.pending },
        )
    } else {
        resume(p)
    }
}

/// What follows a finished owner teardown.
pub open spec fn resume(p: Protocol) -> (Protocol, Call) {
    match p.after {
        After::Stop => finished(p),
        After::Session => session_start(p),
        After::Flight => flight_end(p),
    }
}

/// Closing a session: only a session that may still capture does anything.
pub open spec fn session_start(p: Protocol) -> (Protocol, Call) {
    if p.active {
        (Protocol { stage: Stage::SessionStatus, ..p }, Call::CaptureStatus)
    } else {
        finished(p)
    }
}

pub open spec fn session_destroy(p: Protocol) -> (Protocol, Call) {
    if p.graph != 0 {
        (Protocol { stage: Stage::SessionDestroy, ..p }, Call::DestroyGraph { graph: p.graph })
    } else {
        finished(p)
    }
}

pub open spec fn session_retain(p: Protocol) -> (Protocol, Call) {
    (
        Protocol { stage: Stage::SessionRetained, graph: 0, uncertain: true, ..p },
        Call::Retain { graph: p.graph, executable: 0, pending: None },
    )
}

/// The stream being fenced, or the null stream past the end.
pub open spec fn current_stream(p: Protocol) -> u64 {
    if p.next_stream < p.streams@.len() {
        p.streams@[p.next_stream as int]
    } else {
        0
    }
}

/// Moves to the next stream.
pub open spec fn next_stream(p: Protocol) -> Protocol {
    if p.next_stream < p.streams@.len() {
        Protocol { next_stream: (p.next_stream + 1) as usize, ..p }
    } else {
        p
    }
}

pub open spec fn flight_fence(p: Protocol) -> (Protocol, Call) {
    if p.next_stream < p.streams@.len() {
        (Protocol { stage: Stage::FlightFence, ..p }, Call::Fence { stream: p.streams@[p.next_stream as int] })
    } else if p.complete && p.has_owner {
        owner_start(Protocol { after: After::Flight, ..p })
    } else {
        flight_end(p)
    }
}

pub open spec fn flight_retried(p: Protocol) -> (Protocol, Call) {
    match p.retry {
        Some(id) => (Protocol { stage: Stage::FlightRetryRecorded, ..p }, Call::Record { failure: id }),
        None => flight_fence(next_stream(p)),
    }
}

/// The data goes only when every stream was fenced and no cleanup is in doubt.
pub open spec fn flight_end(p: Protocol) -> (Protocol, Call) {
    if p.complete && !p.uncertain {
        (Protocol { stage: Stage::FlightSettled, ..p }, Call::ReleaseData)
    } else {
        (
            Protocol { stage: Stage::FlightSettled, graph: 0, executable: 0, pending: None, ..p },
            Call::LeakData { graph: p.graph, executable: p.executable, pending: p.pending },
        )
    }
}

/// The next state and call, given the reply to the call the state waits for.
pub open spec fn advance(p: Protocol, r: Reply) -> (Protocol, Call) {
    match p.stage {
        Stage::FinishEnd => {
            let q = Protocol { graph: r.value, active: r.failure is Some, ..p };
            match r.failure {
                Some(id) => owner_start(Protocol { outcome: Outcome::EndFailed(id), after: After::Session, ..q }),
                None => if r.value == 0 {
                    owner_start(Protocol { outcome: Outcome::NullGraph, after: After::Session, ..q })
                } else {
                    (Protocol { stage: Stage::FinishInstantiate, ..q }, Call::Instantiate { graph: r.value })
                },
            }
        },
        Stage::FinishInstantiate => {
            let q = Protocol { executable: r.value, ..p };
            match r.failure {
                Some(id) => owner_start(Protocol { outcome: Outcome::InstantiateFailed(id), after: After::Session, ..q }),
                None => if r.value == 0 {
                    owner_start(Protocol { outcome: Outcome::NullExecutable, after: After::Session, ..q })
                } else {
                    finished(Protocol { outcome: Outcome::Succeeded, ..q })
                },
            }
        },
        Stage::UploadSent => (Protocol { stage: Stage::UploadFenced, held: r.failure, ..p }, Call::Fence { stream: p.stream }),
        Stage::UploadFenced => {
            let q = Protocol {
                pending: if r.failure is None { None } else { p.pending },
                outcome: match p.held {
                    Some(u) => Outcome::UploadFailed(u),
                    None => match r.failure {
                        Some(f) => Outcome::UploadFailed(f),
                        None => Outcome::Succeeded,
                    },
                },
                ..p
            };
            match (p.held, r.failure) {
                (Some(_), Some(f)) => (Protocol { stage: Stage::UploadRecorded, ..q }, Call::Record { failure: f }),
                _ => finished(q),
            }
        },
        Stage::UploadRecorded => finished(p),
        Stage::OwnerFence => match r.failure {
            Some(id) => (Protocol { stage: Stage::OwnerFenceRecorded, ..p }, Call::Record { failure: id }),
            None => (Protocol { stage: Stage::OwnerBind, pending: None, ..p }, Call::Bind),
        },
        Stage::OwnerFenceRecorded => owner_settle(p),
        Stage::OwnerBind => match r.failure {
            Some(id) => (Protocol { stage: Stage::OwnerBindRecorded, ..p }, Call::Record { failure: id }),
            None => owner_destroy_exec(p),
        },
        Stage::OwnerBindRecorded => owner_destroy_exec(p),
        Stage::OwnerExec => match r.failure {
            Some(id) => (Protocol { stage: Stage::OwnerExecRecorded, ..p }, Call::Record { failure: id }),
            None => owner_destroy_graph(Protocol { executable: 0, ..p }),
        },
        Stage::OwnerExecRecorded => owner_destroy_graph(p),
        Stage::OwnerGraph => match r.failure {
            Some(id) => (Protocol { stage: Stage::OwnerGraphRecorded, ..p }, Call::Record { failure: id }),
            None => owner_settle(Protocol { graph: 0, ..p }),
        },
        Stage::OwnerGraphRecorded => owner_settle(p),
        Stage::OwnerRetained => resume(p),
        Stage::SessionStatus => match r.failure {
            Some(id) => (Protocol { stage: Stage::SessionGiveUp, ..p }, Call::Record { failure: id }),
            None => if r.value != 0 {
                (Protocol { stage: Stage::SessionBind, ..p }, Call::Bind)
            } else {
                finished(p)
            },
        },
        Stage::SessionBind => match r.failure {
            Some(id) => (Protocol { stage: Stage::SessionGiveUp, ..p }, Call::Record { failure: id }),
            None => (Protocol { stage: Stage::SessionEnd, ..p }, Call::EndCapture),
        },
        Stage::SessionGiveUp => (Protocol { stage: Stage::SessionDistrusted, uncertain: true, ..p }, Call::Distrust),
        Stage::SessionDistrusted => finished(p),
        Stage::SessionEnd => {
            let q = Protocol { graph: r.value, ..p };
            match r.failure {
                Some(id) => (Protocol { stage: Stage::SessionEndRecorded, ..q }, Call::Record { failure: id }),
                None => session_destroy(q),
            }
        },
        Stage::SessionEndRecorded => (Protocol { stage: Stage::SessionRecheck, ..p }, Call::CaptureStatus),
        Stage::SessionRecheck => match r.failure {
            Some(id) => (Protocol { stage: Stage::SessionRecheckRecorded, ..p }, Call::Record { failure: id }),
            None => if r.value != 0 {
                session_retain(p)
            } else {
                session_destroy(p)
            },
        },
        Stage::SessionRecheckRecorded => session_retain(p),
        Stage::SessionDestroy => match r.failure {
            Some(id) => (Protocol { stage: Stage::SessionDestroyRecorded, ..p }, Call::Record { failure: id }),
            None => finished(Protocol { graph: 0, ..p }),
        },
        Stage::SessionDestroyRecorded => session_retain(p),
        Stage::SessionRetained => finished(p),
        Stage::FlightFence => match r.failure {
            Some(id) => (Protocol { stage: Stage::FlightRetry, held: Some(id), ..p }, Call::Fence { stream: current_stream(p) }),
            None => flight_fence(next_stream(p)),
        },
        Stage::FlightRetry => {
            let q = Protocol { retry: r.failure, complete: p.complete && r.failure is None, ..p };
            match p.held {
                Some(id) => (Protocol { stage: Stage::FlightFirstRecorded, ..q }, Call::Record { failure: id }),
                None => flight_retried(q),
            }
        },
        Stage::FlightFirstRecorded => flight_retried(p),
        Stage::FlightRetryRecorded => flight_fence(next_stream(p)),
        Stage::FlightSettled => finished(p),
        Stage::Finished => (p, Call::Done),
    }
}

// ---------------------------------------------------------------------------
// Starting a protocol

/// A protocol at rest, before its first call.
pub open spec fn initial(
    task: Task,
    after: After,
    graph: u64,
    executable: u64,
    pending: Option<u64>,
    active: bool,
    uncertain: bool,
    stream: u64,
    streams: Vec<u64>,
    has_owner: bool,
) -> Protocol {
    Protocol {
        task,
        stage: Stage::Finished,
        after,
        graph,
        executable,
        pending,
        active,
        uncertain,
        held: None,
        retry: None,
        outcome: Outcome::Pending,
        stream,
        streams,
        next_stream: 0,
        complete: true,
        has_owner,
    }
}

/// Ending a capture that is active.
pub open spec fn finish_start(streams: Vec<u64>, uncertain: bool) -> (Protocol, Call) {
    (
        Protocol { stage: Stage::FinishEnd, ..initial(Task::Finish, After::Session, 0, 0, None, true, uncertain, 0, streams, false) },
        Call::EndCapture,
    )
}

/// Uploading `executable` on `stream`: the upload is pending until a fence completes.
pub open spec fn upload_start(streams: Vec<u64>, graph: u64, executable: u64, stream: u64, uncertain: bool) -> (Protocol, Call) {
    (
        Protocol {
            stage: Stage::UploadSent,
            ..initial(Task::Upload, After::Stop, graph, executable, Some(stream), false, uncertain, stream, streams, false)
        },
        Call::Upload { executable, stream },
    )
}

pub open spec fn owner_teardown_start(streams: Vec<u64>, graph: u64, executable: u64, pending: Option<u64>, uncertain: bool) -> (Protocol, Call) {
    owner_start(initial(Task::Owner, After::Stop, graph, executable, pending, false, uncertain, 0, streams, false))
}

pub open spec fn session_teardown_start(streams: Vec<u64>, active: bool, uncertain: bool) -> (Protocol, Call) {
    session_start(initial(Task::Session, After::Stop, 0, 0, None, active, uncertain, 0, streams, false))
}

/// A preparation with no data has nothing to fence or release.
pub open spec fn flight_start(
    has_data: bool,
    streams: Vec<u64>,
    owner: Option<(u64, u64, Option<u64>)>,
    uncertain: bool,
) -> (Protocol, Call) {
    let p = match owner {
        Some(o) => initial(Task::Flight, After::Flight, o.0, o.1, o.2, false, uncertain, 0, streams, true),
        None => initial(Task::Flight, After::Flight, 0, 0, None, false, uncertain, 0, streams, false),
    };
    if has_data {
        flight_fence(p)
    } else if p.has_owner {
        owner_start(Protocol { after: After::Stop, ..p })
    } else {
        finished(p)
    }
}

// ---------------------------------------------------------------------------
// Laws

/// The protocol holds no handle.
pub open spec fn holds_nothing(p: Protocol) -> bool {
    p.graph == 0 && p.executable == 0 && p.pending is None
}

/// What holds of a protocol that was started by one of the constructors and
/// advanced by `step`.
pub open spec fn wf(p: Protocol) -> bool {
    p.streams@.len() <= usize::MAX && stage_ok(p)
}

/// What holds at each stage.
pub open spec fn stage_ok(p: Protocol) -> bool {
    match p.stage {
        Stage::FinishEnd => holds_nothing(p) && p.task == Task::Finish,
        Stage::FinishInstantiate => p.graph != 0 && p.executable == 0 && p.pending is None && p.task == Task::Finish,
        Stage::UploadSent | Stage::UploadFenced | Stage::UploadRecorded => p.task == Task::Upload,
        Stage::OwnerFence => p.pending is Some,
        Stage::OwnerFenceRecorded => true,
        Stage::OwnerBind | Stage::OwnerBindRecorded | Stage::OwnerExecRecorded | Stage::OwnerGraphRecorded => p.pending
            is None,
        Stage::OwnerExec => p.pending is None && p.executable != 0,
        Stage::OwnerGraph => p.pending is None && p.graph != 0,
        Stage::OwnerRetained => holds_nothing(p),
        Stage::SessionStatus | Stage::SessionBind | Stage::SessionGiveUp | Stage::SessionDistrusted | Stage::SessionEnd
        | Stage::SessionRetained => holds_nothing(p),
        Stage::SessionEndRecorded | Stage::SessionRecheck | Stage::SessionRecheckRecorded
        | Stage::SessionDestroyRecorded => p.executable == 0 && p.pending is None,
        Stage::SessionDestroy => p.executable == 0 && p.pending is None && p.graph != 0,
        Stage::FlightFence | Stage::FlightRetry | Stage::FlightFirstRecorded | Stage::FlightRetryRecorded => p.has_owner
            || holds_nothing(p),
        Stage::FlightSettled => holds_nothing(p),
        Stage::Finished => holds_nothing(p) || p.task == Task::Upload || (p.task == Task::Finish && p.outcome
            == Outcome::Succeeded && p.graph != 0 && p.executable != 0),
    }
}

/// A bound on the calls a protocol still makes.
pub open spec fn rank(p: Protocol) -> nat {
    let left: nat = if p.next_stream < p.streams@.len() {
        (p.streams@.len() - p.next_stream) as nat
    } else {
        0
    };
    match p.stage {
        Stage::Finished => 0,
        Stage::FlightSettled => 1,
        Stage::UploadRecorded => 1,
        Stage::UploadFenced => 2,
        Stage::UploadSent => 3,
        Stage::SessionDistrusted => 1,
        Stage::SessionGiveUp => 2,
        Stage::SessionRetained => 3,
        Stage::SessionDestroyRecorded => 4,
        Stage::SessionDestroy => 5,
        Stage::SessionRecheckRecorded => 6,
        Stage::SessionRecheck => 7,
        Stage::SessionEndRecorded => 8,
        Stage::SessionEnd => 9,
        Stage::SessionBind => 10,
        Stage::SessionStatus => 11,
        Stage::OwnerRetained => 12,
        Stage::OwnerGraphRecorded => 13,
        Stage::OwnerGraph => 14,
        Stage::OwnerExecRecorded => 15,
        Stage::OwnerExec => 16,
        Stage::OwnerBindRecorded => 17,
        Stage::OwnerBind => 18,
        Stage::OwnerFenceRecorded => 19,
        Stage::OwnerFence => 20,
        Stage::FinishInstantiate => 21,
        Stage::FinishEnd => 22,
        Stage::FlightRetryRecorded => 30 + 4 * left,
        Stage::FlightFirstRecorded => 31 + 4 * left,
        Stage::FlightRetry => 32 + 4 * left,
        Stage::FlightFence => 33 + 4 * left,
    }
}

/// Progress law: every protocol ends. Each reply moves an unfinished
/// protocol to a state of lower rank, and a finished protocol only answers
/// `Done`.
pub proof fn law_protocol_progress(p: Protocol, r: Reply)
    requires
        wf(p),
    ensures
        p.stage != Stage::Finished ==> rank(advance(p, r).0) < rank(p),
        p.stage == Stage::Finished ==> advance(p, r) == (p, Call::Done),
        advance(p, r).1 == Call::Done ==> advance(p, r).0.stage == Stage::Finished,
{
    match p.stage {
        Stage::FinishEnd => {},
        Stage::FinishInstantiate => {},
        Stage::UploadSent => {},
        Stage::UploadFenced => {},
        Stage::UploadRecorded => {},
        Stage::OwnerFence => {},
        Stage::OwnerFenceRecorded => {},
        Stage::OwnerBind => {},
        Stage::OwnerBindRecorded => {},
        Stage::OwnerExec => {},
        Stage::OwnerExecRecorded => {},
        Stage::OwnerGraph => {},
        Stage::OwnerGraphRecorded => {},
        Stage::OwnerRetained => {},
        Stage::SessionStatus => {},
        Stage::SessionBind => {},
        Stage::SessionGiveUp => {},
        Stage::SessionDistrusted => {},
        Stage::SessionEnd => {},
        Stage::SessionEndRecorded => {},
        Stage::SessionRecheck => {},
        Stage::SessionRecheckRecorded => {},
        Stage::SessionDestroy => {},
        Stage::SessionDestroyRecorded => {},
        Stage::SessionRetained => {},
        Stage::FlightFence => {},
        Stage::FlightRetry => {},
        Stage::FlightFirstRecorded => {},
        Stage::FlightRetryRecorded => {},
        Stage::FlightSettled => {},
        Stage::Finished => {},
    }
}

/// Invariant law: every reply keeps the stage invariant of a protocol.
pub proof fn law_protocol_invariant(p: Protocol, r: Reply)
    requires
        wf(p),
    ensures
        wf(advance(p, r).0),
{
    match p.stage {
        Stage::FinishEnd => {},
        Stage::FinishInstantiate => {},
        Stage::UploadSent => {},
        Stage::UploadFenced => {},
        Stage::UploadRecorded => {},
        Stage::OwnerFence => {},
        Stage::OwnerFenceRecorded => {},
        Stage::OwnerBind => {},
        Stage::OwnerBindRecorded => {},
        Stage::OwnerExec => {},
        Stage::OwnerExecRecorded => {},
        Stage::OwnerGraph => {},
        Stage::OwnerGraphRecorded => {},
        Stage::OwnerRetained => {},
        Stage::SessionStatus => {},
        Stage::SessionBind => {},
        Stage::SessionGiveUp => {},
        Stage::SessionDistrusted => {},
        Stage::SessionEnd => {},
        Stage::SessionEndRecorded => {},
        Stage::SessionRecheck => {},
        Stage::SessionRecheckRecorded => {},
        Stage::SessionDestroy => {},
        Stage::SessionDestroyRecorded => {},
        Stage::SessionRetained => {},
        Stage::FlightFence => {},
        Stage::FlightRetry => {},
        Stage::FlightFirstRecorded => {},
        Stage::FlightRetryRecorded => {},
        Stage::FlightSettled => {},
        Stage::Finished => {},
    }
}

/// Handle law: a handle is destroyed only while the protocol holds it and no
/// upload on it may still be running.
pub proof fn law_destroys_only_idle_held_handles(p: Protocol, r: Reply)
    requires
        wf(p),
    ensures
        advance(p, r).1 matches Call::DestroyExec { executable } ==> executable != 0
            && executable == advance(p, r).0.executable && advance(p, r).0.pending is None,
        advance(p, r).1 matches Call::DestroyGraph { graph } ==> graph != 0 && graph == advance(p, r).0.graph
            && advance(p, r).0.pending is None,
{
    match p.stage {
        Stage::FinishEnd => {},
        Stage::FinishInstantiate => {},
        Stage::UploadSent => {},
        Stage::UploadFenced => {},
        Stage::UploadRecorded => {},
        Stage::OwnerFence => {},
        Stage::OwnerFenceRecorded => {},
        Stage::OwnerBind => {},
        Stage::OwnerBindRecorded => {},
        Stage::OwnerExec => {},
        Stage::OwnerExecRecorded => {},
        Stage::OwnerGraph => {},
        Stage::OwnerGraphRecorded => {},
        Stage::OwnerRetained => {},
        Stage::SessionStatus => {},
        Stage::SessionBind => {},
        Stage::SessionGiveUp => {},
        Stage::SessionDistrusted => {},
        Stage::SessionEnd => {},
        Stage::SessionEndRecorded => {},
        Stage::SessionRecheck => {},
        Stage::SessionRecheckRecorded => {},
        Stage::SessionDestroy => {},
        Stage::SessionDestroyRecorded => {},
        Stage::SessionRetained => {},
        Stage::FlightFence => {},
        Stage::FlightRetry => {},
        Stage::FlightFirstRecorded => {},
        Stage::FlightRetryRecorded => {},
        Stage::FlightSettled => {},
        Stage::Finished => {},
    }
}

/// The call that retains what a protocol holds, the upload stream aside.
pub open spec fn retain_of(p: Protocol) -> Call {
    Call::Retain { graph: p.graph, executable: p.executable, pending: None }
}

/// Destroy law: a handle whose destroy succeeded is no longer held; a graph
/// whose destroy failed is recorded and then retained, never destroyed again.
pub proof fn law_failed_destroys_are_retained(p: Protocol, r: Reply, r2: Reply)
    requires
        wf(p),
        p.stage == Stage::OwnerGraph || p.stage == Stage::SessionDestroy,
    ensures
        r.failure is None ==> advance(p, r).0.graph == 0,
        r.failure matches Some(f) ==> advance(p, r).1 == (Call::Record { failure: f }),
        r.failure is Some ==> advance(advance(p, r).0, r2).1 == retain_of(p),
{
}

/// A destroyed executable is no longer held.
pub proof fn law_destroyed_executable_is_dropped(p: Protocol, r: Reply)
    requires
        wf(p),
        p.stage == Stage::OwnerExec,
        r.failure is None,
    ensures
        advance(p, r).0.executable == 0,
{
}

/// Whether the step from `p` on reply `r` let go of the graph `p` held: a
/// destroy that succeeded, or a retain or leak that carries it.
pub open spec fn graph_released(p: Protocol, r: Reply) -> bool {
    let c = advance(p, r).1;
    ||| (p.stage == Stage::OwnerGraph || p.stage == Stage::SessionDestroy) && r.failure is None
    ||| c matches Call::Retain { graph, .. } && graph == p.graph
    ||| c matches Call::LeakData { graph, .. } && graph == p.graph
}

/// Whether the step from `p` on reply `r` let go of the executable `p` held.
pub open spec fn executable_released(p: Protocol, r: Reply) -> bool {
    let c = advance(p, r).1;
    ||| p.stage == Stage::OwnerExec && r.failure is None
    ||| c matches Call::Retain { executable, .. } && executable == p.executable
    ||| c matches Call::LeakData { executable, .. } && executable == p.executable
}

/// Conservation law: no handle is lost. A held handle leaves the protocol
/// only by a destroy that succeeded, a retain or a leak; a handle comes in
/// only as the value of an `EndCapture` or `Instantiate` reply, into an
/// empty slot.
pub proof fn law_handles_are_conserved(p: Protocol, r: Reply)
    requires
        wf(p),
    ensures
        p.graph != 0 && advance(p, r).0.graph != p.graph ==> graph_released(p, r),
        p.executable != 0 && advance(p, r).0.executable != p.executable ==> executable_released(p, r),
        advance(p, r).0.graph != 0 && advance(p, r).0.graph != p.graph ==> p.graph == 0 && advance(p, r).0.graph
            == r.value && (p.stage == Stage::FinishEnd || p.stage == Stage::SessionEnd),
        advance(p, r).0.executable != 0 && advance(p, r).0.executable != p.executable ==> p.executable == 0
            && advance(p, r).0.executable == r.value && p.stage == Stage::FinishInstantiate,
{
    match p.stage {
        Stage::FinishEnd => {},
        Stage::FinishInstantiate => {},
        Stage::UploadSent => {},
        Stage::UploadFenced => {},
        Stage::UploadRecorded => {},
        Stage::OwnerFence => {},
        Stage::OwnerFenceRecorded => {},
        Stage::OwnerBind => {},
        Stage::OwnerBindRecorded => {},
        Stage::OwnerExec => {},
        Stage::OwnerExecRecorded => {},
        Stage::OwnerGraph => {},
        Stage::OwnerGraphRecorded => {},
        Stage::OwnerRetained => {},
        Stage::SessionStatus => {},
        Stage::SessionBind => {},
        Stage::SessionGiveUp => {},
        Stage::SessionDistrusted => {},
        Stage::SessionEnd => {},
        Stage::SessionEndRecorded => {},
        Stage::SessionRecheck => {},
        Stage::SessionRecheckRecorded => {},
        Stage::SessionDestroy => {},
        Stage::SessionDestroyRecorded => {},
        Stage::SessionRetained => {},
        Stage::FlightFence => {},
        Stage::FlightRetry => {},
        Stage::FlightFirstRecorded => {},
        Stage::FlightRetryRecorded => {},
        Stage::FlightSettled => {},
        Stage::Finished => {},
    }
}

/// Teardown law: when a protocol ends it holds no handle, save the graph and
/// executable that a successful `Finish` hands over and the graph that an
/// upload leaves with its owner. Handles it gave up were destroyed, retained
/// or leaked with their data.
pub proof fn law_teardowns_end_holding_nothing(p: Protocol, r: Reply)
    requires
        wf(p),
    ensures
        advance(p, r).1 == Call::Done ==> holds_nothing(advance(p, r).0) || advance(p, r).0.task == Task::Upload || (
        advance(p, r).0.task == Task::Finish && advance(p, r).0.outcome == Outcome::Succeeded && advance(p, r).0.graph
            != 0 && advance(p, r).0.executable != 0),
        advance(p, r).1 matches Call::Retain { .. } ==> holds_nothing(advance(p, r).0) && advance(p, r).0.uncertain,
{
    match p.stage {
        Stage::FinishEnd => {},
        Stage::FinishInstantiate => {},
        Stage::UploadSent => {},
        Stage::UploadFenced => {},
        Stage::UploadRecorded => {},
        Stage::OwnerFence => {},
        Stage::OwnerFenceRecorded => {},
        Stage::OwnerBind => {},
        Stage::OwnerBindRecorded => {},
        Stage::OwnerExec => {},
        Stage::OwnerExecRecorded => {},
        Stage::OwnerGraph => {},
        Stage::OwnerGraphRecorded => {},
        Stage::OwnerRetained => {},
        Stage::SessionStatus => {},
        Stage::SessionBind => {},
        Stage::SessionGiveUp => {},
        Stage::SessionDistrusted => {},
        Stage::SessionEnd => {},
        Stage::SessionEndRecorded => {},
        Stage::SessionRecheck => {},
        Stage::SessionRecheckRecorded => {},
        Stage::SessionDestroy => {},
        Stage::SessionDestroyRecorded => {},
        Stage::SessionRetained => {},
        Stage::FlightFence => {},
        Stage::FlightRetry => {},
        Stage::FlightFirstRecorded => {},
        Stage::FlightRetryRecorded => {},
        Stage::FlightSettled => {},
        Stage::Finished => {},
    }
}

/// Preparation law: a preparation's data is released only when every fence
/// on its streams completed and no cleanup is in doubt; otherwise it is
/// leaked.
pub proof fn law_data_released_only_when_fenced(p: Protocol, r: Reply)
    ensures
        advance(p, r).1 == Call::ReleaseData ==> advance(p, r).0.complete && !advance(p, r).0.uncertain,
        advance(p, r).1 matches Call::LeakData { .. } ==> !advance(p, r).0.complete || advance(p, r).0.uncertain,
        p.stage == Stage::FlightRetry && r.failure is Some ==> !advance(p, r).0.complete,
{
    match p.stage {
        Stage::FinishEnd => {},
        Stage::FinishInstantiate => {},
        Stage::UploadSent => {},
        Stage::UploadFenced => {},
        Stage::UploadRecorded => {},
        Stage::OwnerFence => {},
        Stage::OwnerFenceRecorded => {},
        Stage::OwnerBind => {},
        Stage::OwnerBindRecorded => {},
        Stage::OwnerExec => {},
        Stage::OwnerExecRecorded => {},
        Stage::OwnerGraph => {},
        Stage::OwnerGraphRecorded => {},
        Stage::OwnerRetained => {},
        Stage::SessionStatus => {},
        Stage::SessionBind => {},
        Stage::SessionGiveUp => {},
        Stage::SessionDistrusted => {},
        Stage::SessionEnd => {},
        Stage::SessionEndRecorded => {},
        Stage::SessionRecheck => {},
        Stage::SessionRecheckRecorded => {},
        Stage::SessionDestroy => {},
        Stage::SessionDestroyRecorded => {},
        Stage::SessionRetained => {},
        Stage::FlightFence => {},
        Stage::FlightRetry => {},
        Stage::FlightFirstRecorded => {},
        Stage::FlightRetryRecorded => {},
        Stage::FlightSettled => {},
        Stage::Finished => {},
    }
}

/// Capture law: closing a session ends the capture only after the stream
/// reported that it is still capturing and the context was bound; an
/// unknown capture status never leads to an end.
pub proof fn law_capture_ended_only_when_confirmed(p: Protocol, r: Reply)
    ensures
        advance(p, r).1 == Call::EndCapture ==> p.stage == Stage::SessionBind && r.failure is None,
        advance(p, r).0.stage == Stage::SessionBind ==> p.stage == Stage::SessionStatus && r.failure is None && r.value
            != 0,
        p.stage == Stage::SessionStatus && r.failure is Some ==> advance(p, r).0.stage == Stage::SessionGiveUp,
{
    match p.stage {
        Stage::FinishEnd => {},
        Stage::FinishInstantiate => {},
        Stage::UploadSent => {},
        Stage::UploadFenced => {},
        Stage::UploadRecorded => {},
        Stage::OwnerFence => {},
        Stage::OwnerFenceRecorded => {},
        Stage::OwnerBind => {},
        Stage::OwnerBindRecorded => {},
        Stage::OwnerExec => {},
        Stage::OwnerExecRecorded => {},
        Stage::OwnerGraph => {},
        Stage::OwnerGraphRecorded => {},
        Stage::OwnerRetained => {},
        Stage::SessionStatus => {},
        Stage::SessionBind => {},
        Stage::SessionGiveUp => {},
        Stage::SessionDistrusted => {},
        Stage::SessionEnd => {},
        Stage::SessionEndRecorded => {},
        Stage::SessionRecheck => {},
        Stage::SessionRecheckRecorded => {},
        Stage::SessionDestroy => {},
        Stage::SessionDestroyRecorded => {},
        Stage::SessionRetained => {},
        Stage::FlightFence => {},
        Stage::FlightRetry => {},
        Stage::FlightFirstRecorded => {},
        Stage::FlightRetryRecorded => {},
        Stage::FlightSettled => {},
        Stage::Finished => {},
    }
}

// ---------------------------------------------------------------------------
// Running a protocol

impl Protocol {

    /// Starts ending a capture that is active.
    pub fn finish(uncertain: bool) -> (r: (Protocol, Call))
        ensures
            r == finish_start(r.0.streams, uncertain),
            r.0.streams@.len() == 0,
            wf(r.0),
    {
        let p = Protocol {
            task: Task::Finish,
            stage: Stage::FinishEnd,
            after: After::Session,
            graph: 0,
            executable: 0,
            pending: None,
            active: true,
            uncertain,
            held: None,
            retry: None,
            outcome: Outcome::Pending,
            stream: 0,
            streams: Vec::new(),
            next_stream: 0,
            complete: true,
            has_owner: false,
        };
        (p, Call::EndCapture)
    }

    /// Starts uploading an instantiated graph on `stream`.
    pub fn upload(graph: u64, executable: u64, stream: u64, uncertain: bool) -> (r: (Protocol, Call))
        ensures
            r == upload_start(r.0.streams, graph, executable, stream, uncertain),
            r.0.streams@.len() == 0,
            wf(r.0),
    {
        let p = Protocol {
            task: Task::Upload,
            stage: Stage::UploadSent,
            after: After::Stop,
            graph,
            executable,
            pending: Some(stream),
            active: false,
            uncertain,
            held: None,
            retry: None,
            outcome: Outcome::Pending,
            stream,
            streams: Vec::new(),
            next_stream: 0,
            complete: true,
            has_owner: false,
        };
        (p, Call::Upload { executable, stream })
    }

    /// Starts tearing down a graph owner.
    pub fn drop_owner(graph: u64, executable: u64, pending: Option<u64>, uncertain: bool) -> (r: (Protocol, Call))
        ensures
            r == owner_teardown_start(r.0.streams, graph, executable, pending, uncertain),
            r.0.streams@.len() == 0,
            wf(r.0),
    {
        let mut p = Protocol {
            task: Task::Owner,
            stage: Stage::Finished,
            after: After::Stop,
            graph,
            executable,
            pending,
            active: false,
            uncertain,
            held: None,
            retry: None,
            outcome: Outcome::Pending,
            stream: 0,
            streams: Vec::new(),
            next_stream: 0,
            complete: true,
            has_owner: false,
        };
        let c = p.run_owner_start();
        (p, c)
    }

    /// Starts closing a capture session.
    pub fn drop_session(active: bool, uncertain: bool) -> (r: (Protocol, Call))
        ensures
            r == session_teardown_start(r.0.streams, active, uncertain),
            r.0.streams@.len() == 0,
            wf(r.0),
    {
        let mut p = Protocol {
            task: Task::Session,
            stage: Stage::Finished,
            after: After::Stop,
            graph: 0,
            executable: 0,
            pending: None,
            active,
            uncertain,
            held: None,
            retry: None,
            outcome: Outcome::Pending,
            stream: 0,
            streams: Vec::new(),
            next_stream: 0,
            complete: true,
            has_owner: false,
        };
        let c = p.run_session_start();
        (p, c)
    }

    /// Starts releasing a preparation: its data (if it still has any), the
    /// streams that used it, and the graph owner it may hold.
    pub fn drop_flight(has_data: bool, streams: Vec<u64>, owner: Option<(u64, u64, Option<u64>)>, uncertain: bool) -> (r: (Protocol, Call))
        ensures
            r == flight_start(has_data, streams, owner, uncertain),
            wf(r.0),
    {
        // Reading the length records that it fits in a usize.
        let _stream_count = streams.len();
        let (graph, executable, pending, has_owner) = match owner {
            Some(o) => (o.0, o.1, o.2, true),
            None => (0, 0, None, false),
        };
        let mut p = Protocol {
            task: Task::Flight,
            stage: Stage::Finished,
            after: After::Flight,
            graph,
            executable,
            pending,
            active: false,
            uncertain,
            held: None,
            retry: None,
            outcome: Outcome::Pending,
            stream: 0,
            streams,
            next_stream: 0,
            complete: true,
            has_owner,
        };
        let c = if has_data {
            p.run_flight_fence()
        } else if p.has_owner {
            p.after = After::Stop;
            p.run_owner_start()
        } else {
            p.run_finished()
        };
        (p, c)
    }
    fn run_finished(&mut self) -> (c: Call)
        ensures
            (*final(self), c) == finished(*old(self)),
    {
        self.stage = Stage::Finished;
        Call::Done
    }

    fn run_owner_start(&mut self) -> (c: Call)
        ensures
            (*final(self), c) == owner_start(*old(self)),
    {
        match self.pending {
            Some(s) => {
                self.stage = Stage::OwnerFence;
                Call::Fence { stream: s }
            },
            None => {
                self.stage = Stage::OwnerBind;
                Call::Bind
            },
        }
    }

    fn run_owner_destroy_exec(&mut self) -> (c: Call)
        ensures
            (*final(self), c) == owner_destroy_exec(*old(self)),
    {
        if self.executable != 0 {
            self.stage = Stage::OwnerExec;
            Call::DestroyExec { executable: self.executable }
        } else {
            self.run_owner_destroy_graph()
        }
    }

    fn run_owner_destroy_graph(&mut self) -> (c: Call)
        ensures
            (*final(self), c) == owner_destroy_graph(*old(self)),
    {
        if self.graph != 0 {
            self.stage = Stage::OwnerGraph;
            Call::DestroyGraph { graph: self.graph }
        } else {
            self.run_owner_settle()
        }
    }

    fn run_owner_settle(&mut self) -> (c: Call)
        ensures
            (*final(self), c) == owner_settle(*old(self)),
    {
        if self.graph != 0 || self.executable != 0 || self.pending.is_some() {
            let c = Call::Retain { graph: self.graph, executable: self.executable, pending: self.pending };
            self.stage = Stage::OwnerRetained;
            self.graph = 0;
            self.executable = 0;
            self.pending = None;
            self.uncertain = true;
            c
        } else {
            self.run_resume()
        }
    }

    fn run_resume(&mut self) -> (c: Call)
        ensures
            (*final(self), c) == resume(*old(self)),
    {
        match self.after {
            After::Stop => self.run_finished(),
            After::Session => self.run_session_start(),
            After::Flight => self.run_flight_end(),
        }
    }

    fn run_session_start(&mut self) -> (c: Call)
        ensures
            (*final(self), c) == session_start(*old(self)),
    {
        if self.active {
            self.stage = Stage::SessionStatus;
            Call::CaptureStatus
        } else {
            self.run_finished()
        }
    }

    fn run_session_destroy(&mut self) -> (c: Call)
        ensures
            (*final(self), c) == session_destroy(*old(self)),
    {
        if self.graph != 0 {
            self.stage = Stage::SessionDestroy;
            Call::DestroyGraph { graph: self.graph }
        } else {
            self.run_finished()
        }
    }

    fn run_session_retain(&mut self) -> (c: Call)
        ensures
            (*final(self), c) == session_retain(*old(self)),
    {
        let c = Call::Retain { graph: self.graph, executable: 0, pending: None };
        self.stage = Stage::SessionRetained;
        self.graph = 0;
        self.uncertain = true;
        c
    }

    fn run_current_stream(&self) -> (s: u64)
        ensures
            s == current_stream(*self),
    {
        if self.next_stream < self.streams.len() {
            self.streams[self.next_stream]
        } else {
            0
        }
    }

    fn run_next_stream(&mut self)
        ensures
            *final(self) == next_stream(*old(self)),
    {
        if self.next_stream < self.streams.len() {
            self.next_stream = self.next_stream + 1;
        }
    }

    fn run_flight_fence(&mut self) -> (c: Call)
        ensures
            (*final(self), c) == flight_fence(*old(self)),
    {
        if self.next_stream < self.streams.len() {
            self.stage = Stage::FlightFence;
            Call::Fence { stream: self.streams[self.next_stream] }
        } else if self.complete && self.has_owner {
            self.after = After::Flight;
            self.run_owner_start()
        } else {
            self.run_flight_end()
        }
    }

    fn run_flight_retried(&mut self) -> (c: Call)
        ensures
            (*final(self), c) == flight_retried(*old(self)),
    {
        match self.retry {
            Some(id) => {
                self.stage = Stage::FlightRetryRecorded;
                Call::Record { failure: id }
            },
            None => {
                self.run_next_stream();
                self.run_flight_fence()
            },
        }
    }

    fn run_flight_end(&mut self) -> (c: Call)
        ensures
            (*final(self), c) == flight_end(*old(self)),
    {
        self.stage = Stage::FlightSettled;
        if self.complete && !self.uncertain {
            Call::ReleaseData
        } else {
            let c = Call::LeakData { graph: self.graph, executable: self.executable, pending: self.pending };
            self.graph = 0;
            self.executable = 0;
            self.pending = None;
            c
        }
    }

    /// Takes the reply to the last call and gives the next one.
    pub fn step(&mut self, r: Reply) -> (c: Call)
        ensures
            (*final(self), c) == advance(*old(self), r),
            wf(*old(self)) ==> wf(*final(self)),
            wf(*old(self)) && old(self).stage != Stage::Finished ==> rank(*final(self)) < rank(*old(self)),
    {
        proof {
            if wf(*self) {
                law_protocol_invariant(*self, r);
                law_protocol_progress(*self, r);
            }
        }
        match self.stage {
            Stage::FinishEnd => {
                self.graph = r.value;
                self.active = r.failure.is_some();
                match r.failure {
                    Some(id) => {
                        self.outcome = Outcome::EndFailed(id);
                        self.after = After::Session;
                        self.run_owner_start()
                    },
                    None => if r.value == 0 {
                        self.outcome = Outcome::NullGraph;
                        self.after = After::Session;
                        self.run_owner_start()
                    } else {
                        self.stage = Stage::FinishInstantiate;
                        Call::Instantiate { graph: r.value }
                    },
                }
            },
            Stage::FinishInstantiate => {
                self.executable = r.value;
                match r.failure {
                    Some(id) => {
                        self.outcome = Outcome::InstantiateFailed(id);
                        self.after = After::Session;
                        self.run_owner_start()
                    },
                    None => if r.value == 0 {
                        self.outcome = Outcome::NullExecutable;
                        self.after = After::Session;
                        self.run_owner_start()
                    } else {
                        self.outcome = Outcome::Succeeded;
                        self.run_finished()
                    },
                }
            },
            Stage::UploadSent => {
                self.stage = Stage::UploadFenced;
                self.held = r.failure;
                Call::Fence { stream: self.stream }
            },
            Stage::UploadFenced => {
                if r.failure.is_none() {
                    self.pending = None;
                }
                self.outcome = match self.held {
                    Some(u) => Outcome::UploadFailed(u),
                    None => match r.failure {
                        Some(f) => Outcome::UploadFailed(f),
                        None => Outcome::Succeeded,
                    },
                };
                match (self.held, r.failure) {
                    (Some(_), Some(f)) => {
                        self.stage = Stage::UploadRecorded;
                        Call::Record { failure: f }
                    },
                    _ => self.run_finished(),
                }
            },
            Stage::UploadRecorded => self.run_finished(),
            Stage::OwnerFence => match r.failure {
                Some(id) => {
                    self.stage = Stage::OwnerFenceRecorded;
                    Call::Record { failure: id }
                },
                None => {
                    self.stage = Stage::OwnerBind;
                    self.pending = None;
                    Call::Bind
                },
            },
            Stage::OwnerFenceRecorded => self.run_owner_settle(),
            Stage::OwnerBind => match r.failure {
                Some(id) => {
                    self.stage = Stage::OwnerBindRecorded;
                    Call::Record { failure: id }
                },
                None => self.run_owner_destroy_exec(),
            },
            Stage::OwnerBindRecorded => self.run_owner_destroy_exec(),
            Stage::OwnerExec => match r.failure {
                Some(id) => {
                    self.stage = Stage::OwnerExecRecorded;
                    Call::Record { failure: id }
                },
                None => {
                    self.executable = 0;
                    self.run_owner_destroy_graph()
                },
            },
            Stage::OwnerExecRecorded => self.run_owner_destroy_graph(),
            Stage::OwnerGraph => match r.failure {
                Some(id) => {
                    self.stage = Stage::OwnerGraphRecorded;
                    Call::Record { failure: id }
                },
                None => {
                    self.graph = 0;
                    self.run_owner_settle()
                },
            },
            Stage::OwnerGraphRecorded => self.run_owner_settle(),
            Stage::OwnerRetained => self.run_resume(),
            Stage::SessionStatus => match r.failure {
                Some(id) => {
                    self.stage = Stage::SessionGiveUp;
                    Call::Record { failure: id }
                },
                None => if r.value != 0 {
                    self.stage = Stage::SessionBind;
                    Call::Bind
                } else {
                    self.run_finished()
                },
            },
            Stage::SessionBind => match r.failure {
                Some(id) => {
                    self.stage = Stage::SessionGiveUp;
                    Call::Record { failure: id }
                },
                None => {
                    self.stage = Stage::SessionEnd;
                    Call::EndCapture
                },
            },
            Stage::SessionGiveUp => {
                self.stage = Stage::SessionDistrusted;
                self.uncertain = true;
                Call::Distrust
            },
            Stage::SessionDistrusted => self.run_finished(),
            Stage::SessionEnd => {
                self.graph = r.value;
                match r.failure {
                    Some(id) => {
                        self.stage = Stage::SessionEndRecorded;
                        Call::Record { failure: id }
                    },
                    None => self.run_session_destroy(),
                }
            },
            Stage::SessionEndRecorded => {
                self.stage = Stage::SessionRecheck;
                Call::CaptureStatus
            },
            Stage::SessionRecheck => match r.failure {
                Some(id) => {
                    self.stage = Stage::SessionRecheckRecorded;
                    Call::Record { failure: id }
                },
                None => if r.value != 0 {
                    self.run_session_retain()
                } else {
                    self.run_session_destroy()
                },
            },
            Stage::SessionRecheckRecorded => self.run_session_retain(),
            Stage::SessionDestroy => match r.failure {
                Some(id) => {
                    self.stage = Stage::SessionDestroyRecorded;
                    Call::Record { failure: id }
                },
                None => {
                    self.graph = 0;
                    self.run_finished()
                },
            },
            Stage::SessionDestroyRecorded => self.run_session_retain(),
            Stage::SessionRetained => self.run_finished(),
            Stage::FlightFence => match r.failure {
                Some(id) => {
                    let s = self.run_current_stream();
                    self.stage = Stage::FlightRetry;
                    self.held = Some(id);
                    Call::Fence { stream: s }
                },
                None => {
                    self.run_next_stream();
                    self.run_flight_fence()
                },
            },
            Stage::FlightRetry => {
                let held = self.held;
                self.retry = r.failure;
                self.complete = self.complete && r.failure.is_none();
                match held {
                    Some(id) => {
                        self.stage = Stage::FlightFirstRecorded;
                        Call::Record { failure: id }
                    },
                    None => self.run_flight_retried(),
                }
            },
            Stage::FlightFirstRecorded => self.run_flight_retried(),
            Stage::FlightRetryRecorded => {
                self.run_next_stream();
                self.run_flight_fence()
            },
            Stage::FlightSettled => self.run_finished(),
            Stage::Finished => Call::Done,
        }
    }
}

} // verus!
