use ferro::capture::{Call, Outcome, Protocol, Reply};
use ferro::replay::{ReplayError, ReplayState};

/// A scripted driver: it answers each call as the flags say and logs what
/// the protocol asked for.
#[derive(Default)]
struct Fake {
    events: Vec<&'static str>,
    end_error: bool,
    partial: bool,
    skip: bool,
    active: bool,
    upload_error: bool,
    null_exec: bool,
    instantiate_error: bool,
    null_graph: bool,
    cleanup_error: bool,
    fence_error: bool,
    ended: bool,
    persistent_fence: bool,
    status_error: bool,
    failures: u64,
    users: usize,
    uncertain: bool,
    retained: Vec<(u64, u64, Option<u64>)>,
    leaked: Vec<(u64, u64, Option<u64>)>,
}

impl Fake {
    fn answer(&mut self, failed: bool, value: u64) -> Reply {
        if failed {
            self.failures += 1;
            Reply { failure: Some(self.failures), value }
        } else {
            Reply { failure: None, value }
        }
    }

    fn run(&mut self, start: (Protocol, Call)) -> Protocol {
        let (mut p, mut call) = start;
        let mut steps: u32 = 0;
        loop {
            steps += 1;
            assert!(steps < 1000, "protocol did not end");
            let reply = match call {
                Call::Done => return p,
                Call::Upload { .. } => {
                    self.events.push("upload");
                    self.answer(self.upload_error, 0)
                },
                Call::Fence { .. } => {
                    self.events.push("fence");
                    let failed = self.persistent_fence || std::mem::replace(&mut self.fence_error, false);
                    self.answer(failed, 0)
                },
                Call::CaptureStatus => {
                    let capturing = !self.ended || self.active;
                    self.answer(self.status_error, capturing as u64)
                },
                Call::EndCapture => {
                    self.events.push("end");
                    if std::mem::replace(&mut self.skip, false) {
                        self.active = true;
                        self.answer(true, 0)
                    } else {
                        self.active = false;
                        self.ended = true;
                        let graph: u64 = if (!self.end_error || self.partial) && !self.null_graph { 1 } else { 0 };
                        self.answer(self.end_error, graph)
                    }
                },
                Call::Instantiate { .. } => {
                    self.events.push("instantiate");
                    let exec: u64 = if self.null_exec { 0 } else { 2 };
                    self.answer(self.instantiate_error, exec)
                },
                Call::Bind => {
                    self.events.push("bind");
                    self.answer(self.cleanup_error, 0)
                },
                Call::DestroyExec { executable } => {
                    assert_eq!(executable, 2);
                    self.events.push("exec");
                    self.answer(self.cleanup_error, 0)
                },
                Call::DestroyGraph { graph } => {
                    assert_eq!(graph, 1);
                    self.events.push("graph");
                    self.answer(self.cleanup_error, 0)
                },
                Call::Record { .. } => {
                    self.events.push("error");
                    self.answer(false, 0)
                },
                Call::Retain { graph, executable, pending } => {
                    self.retained.push((graph, executable, pending));
                    self.uncertain = true;
                    self.answer(false, 0)
                },
                Call::Distrust => {
                    self.uncertain = true;
                    self.answer(false, 0)
                },
                Call::ReleaseData => {
                    self.events.push("buffers");
                    self.answer(false, 0)
                },
                Call::LeakData { graph, executable, pending } => {
                    self.leaked.push((graph, executable, pending));
                    self.users += 1;
                    self.answer(false, 0)
                },
            };
            call = p.step(reply);
        }
    }
}

#[test]
fn null_graph_error_is_distinct_from_a_valid_zero_node_graph() {
    let mut calls = Fake::default();
    calls.null_graph = true;
    let p = calls.run(Protocol::finish(false));
    assert_eq!(p.outcome, Outcome::NullGraph);
    let error = p.outcome.message();
    assert!(error.contains("null graph"), "{error}");
}

#[test]
fn unknown_capture_status_does_not_blindly_end_twice() {
    let mut calls = Fake::default();
    calls.end_error = true;
    calls.status_error = true;
    let p = calls.run(Protocol::finish(false));
    assert!(matches!(p.outcome, Outcome::EndFailed(_)));
    assert_eq!(calls.events, ["end", "bind", "error"]);
}

#[test]
fn preparation_fences_before_buffers_and_releases_only_its_exclusion() {
    for fail_once in [false, true] {
        let mut calls = Fake::default();
        calls.fence_error = fail_once;
        calls.users = 3;
        calls.run(Protocol::drop_flight(true, vec![0], None, false));
        assert_eq!(calls.events, if fail_once { vec!["fence", "fence", "error", "buffers"] } else { vec!["fence", "buffers"] });
        assert_eq!(calls.users, 3);
    }
}

#[test]
fn uncertain_preparation_completion_retains_buffers_and_exclusion() {
    let mut calls = Fake::default();
    calls.persistent_fence = true;
    calls.users = 0;
    calls.run(Protocol::drop_flight(true, vec![0], None, false));
    assert!(!calls.events.contains(&"buffers"), "released unfenced addresses");
    assert_eq!(calls.users, 1, "quarantine must continue excluding legacy capture");
}

#[test]
fn persistent_upload_fence_failure_quarantines_handles() {
    let mut calls = Fake::default();
    calls.persistent_fence = true;
    let graph = calls.run(Protocol::finish(false));
    assert_eq!(graph.outcome, Outcome::Succeeded);
    let uploaded = calls.run(Protocol::upload(graph.graph, graph.executable, 0, calls.uncertain));
    assert!(matches!(uploaded.outcome, Outcome::UploadFailed(_)));
    calls.run(Protocol::drop_owner(uploaded.graph, uploaded.executable, uploaded.pending, calls.uncertain));
    assert_eq!(calls.events, ["end", "instantiate", "upload", "fence", "fence", "error"]);
    assert_eq!(calls.retained, [(1, 2, Some(0))]);
}

#[test]
fn failed_upload_completion_is_fenced_again_before_release() {
    let mut calls = Fake::default();
    calls.fence_error = true;
    let graph = calls.run(Protocol::finish(false));
    assert_eq!(graph.outcome, Outcome::Succeeded);
    let uploaded = calls.run(Protocol::upload(graph.graph, graph.executable, 0, calls.uncertain));
    assert!(matches!(uploaded.outcome, Outcome::UploadFailed(_)));
    calls.run(Protocol::drop_owner(uploaded.graph, uploaded.executable, uploaded.pending, calls.uncertain));
    assert_eq!(calls.events, ["end", "instantiate", "upload", "fence", "fence", "bind", "exec", "graph"]);
}

#[test]
fn existing_null_and_partial_failure_ownership_matrix() {
    for partial in [false, true] {
        let mut calls = Fake::default();
        calls.instantiate_error = true;
        calls.null_exec = !partial;
        calls.cleanup_error = true;
        let p = calls.run(Protocol::finish(false));
        assert!(p.outcome.message().contains("static_graph_instantiate"));
        let expected = if partial {
            vec!["end", "instantiate", "bind", "error", "exec", "error", "graph", "error"]
        } else {
            vec!["end", "instantiate", "bind", "error", "graph", "error"]
        };
        assert_eq!(calls.events, expected);
    }
    for end_error in [false, true] {
        let mut calls = Fake::default();
        calls.null_graph = true;
        calls.end_error = end_error;
        let p = calls.run(Protocol::finish(false));
        assert!(p.outcome != Outcome::Succeeded);
        assert_eq!(calls.events, ["end", "bind"]);
    }
}

#[test]
fn successful_instantiate_with_null_exec_is_rejected() {
    let mut calls = Fake::default();
    calls.null_exec = true;
    let result = calls.run(Protocol::finish(false));
    assert!(result.outcome != Outcome::Succeeded, "null exec must not be published");
    assert_eq!(calls.events, ["end", "instantiate", "bind", "graph"]);
}

#[test]
fn upload_error_fences_before_exec_and_graph_destruction() {
    let mut calls = Fake::default();
    calls.upload_error = true;
    let graph = calls.run(Protocol::finish(false));
    assert_eq!(graph.outcome, Outcome::Succeeded);
    let uploaded = calls.run(Protocol::upload(graph.graph, graph.executable, 0, calls.uncertain));
    assert!(matches!(uploaded.outcome, Outcome::UploadFailed(_)));
    calls.run(Protocol::drop_owner(uploaded.graph, uploaded.executable, uploaded.pending, calls.uncertain));
    assert_eq!(calls.events, ["end", "instantiate", "upload", "fence", "bind", "exec", "graph"]);
}

#[test]
fn unwind_end_error_destroys_partial_graph() {
    let mut calls = Fake::default();
    calls.end_error = true;
    calls.partial = true;
    calls.run(Protocol::drop_session(true, false));
    assert_eq!(calls.events, ["bind", "end", "error", "graph"]);
}

#[test]
fn skipped_end_is_closed_on_error_unwind() {
    let mut calls = Fake::default();
    calls.skip = true;
    let p = calls.run(Protocol::finish(false));
    assert!(p.outcome != Outcome::Succeeded);
    assert!(!calls.active, "failed end left capture active");
    assert_eq!(calls.events.iter().filter(|&&e| e == "end").count(), 2);
}

#[test]
fn end_error_owns_partial_graph_without_instantiating() {
    let mut calls = Fake::default();
    calls.end_error = true;
    calls.partial = true;
    let result = calls.run(Protocol::finish(false));
    assert!(matches!(result.outcome, Outcome::EndFailed(_)));
    assert_eq!(calls.events, ["end", "bind", "graph"]);
}

#[test]
fn finished_graph_is_handed_over_and_torn_down_once() {
    let mut calls = Fake::default();
    let p = calls.run(Protocol::finish(false));
    assert_eq!((p.outcome, p.graph, p.executable), (Outcome::Succeeded, 1, 2));
    let uploaded = calls.run(Protocol::upload(p.graph, p.executable, 7, false));
    assert_eq!((uploaded.outcome, uploaded.pending), (Outcome::Succeeded, None));
    let done = calls.run(Protocol::drop_owner(uploaded.graph, uploaded.executable, uploaded.pending, false));
    assert_eq!((done.graph, done.executable, done.pending), (0, 0, None));
    assert_eq!(calls.events, ["end", "instantiate", "upload", "fence", "bind", "exec", "graph"]);
    assert!(calls.retained.is_empty() && !calls.uncertain);
}

#[test]
fn failed_destroys_are_retained_not_retried() {
    let mut calls = Fake::default();
    calls.cleanup_error = true;
    let done = calls.run(Protocol::drop_owner(1, 2, None, false));
    assert_eq!(calls.events, ["bind", "error", "exec", "error", "graph", "error"]);
    assert_eq!(calls.retained, [(1, 2, None)]);
    assert!(calls.uncertain);
    assert_eq!((done.graph, done.executable), (0, 0));
}

#[test]
fn fenced_flight_tears_down_its_graph_before_releasing_data() {
    let mut calls = Fake::default();
    calls.run(Protocol::drop_flight(true, vec![5, 6], Some((1, 2, None)), false));
    assert_eq!(calls.events, ["fence", "fence", "bind", "exec", "graph", "buffers"]);
    assert_eq!(calls.users, 0);
}

#[test]
fn unfenced_flight_leaks_its_graph_with_the_data() {
    let mut calls = Fake::default();
    calls.persistent_fence = true;
    calls.run(Protocol::drop_flight(true, vec![5], Some((1, 2, None)), false));
    assert_eq!(calls.events, ["fence", "fence", "error", "error"]);
    assert_eq!(calls.leaked, [(1, 2, None)]);
    assert_eq!(calls.users, 1);
}

#[test]
fn flight_without_data_only_tears_down_its_graph() {
    let mut calls = Fake::default();
    calls.run(Protocol::drop_flight(false, vec![5], Some((1, 2, None)), false));
    assert_eq!(calls.events, ["bind", "exec", "graph"]);
    assert_eq!(calls.users, 0);
}

#[test]
fn inactive_session_drop_does_nothing() {
    let mut calls = Fake::default();
    let (p, call) = Protocol::drop_session(false, false);
    assert_eq!(call, Call::Done);
    calls.run((p, call));
    assert!(calls.events.is_empty());
}

#[test]
fn status_error_on_close_distrusts_without_ending() {
    let mut calls = Fake::default();
    calls.status_error = true;
    calls.run(Protocol::drop_session(true, false));
    assert_eq!(calls.events, ["error"]);
    assert!(calls.uncertain);
}

#[test]
fn still_capturing_after_failed_end_retains_the_graph() {
    let mut calls = Fake::default();
    calls.skip = true;
    calls.run(Protocol::drop_session(true, false));
    assert_eq!(calls.events, ["bind", "end", "error"]);
    assert_eq!(calls.retained, [(0, 0, None)]);
    assert!(calls.uncertain);
}

#[test]
fn outcome_messages_name_the_failing_operation() {
    assert!(Outcome::EndFailed(1).message().starts_with("static_capture_end"));
    assert!(Outcome::NullExecutable.message().contains("null executable"));
    assert!(Outcome::UploadFailed(3).message().starts_with("static_graph_upload"));
}


#[test]
fn failed_replay_poisons_the_graph() {
    let mut g = ReplayState::new(3);
    assert_eq!((g.kernel_nodes(), g.replay_count()), (3, 0));
    assert_eq!(g.begin_replay(), Ok(()));
    g.finish_replay();
    assert_eq!(g.replay_count(), 1);
    assert_eq!(g.output_ready(), Ok(()));
    assert_eq!(g.begin_replay(), Ok(()));
    // The launch failed: the replay never finishes.
    assert_eq!(g.begin_replay(), Err(ReplayError::Poisoned));
    assert_eq!(g.output_ready(), Err(ReplayError::Poisoned));
    assert_eq!(g.replay_count(), 1);
    assert_eq!(ReplayError::Poisoned.message(), "graph handle is poisoned");
}
