use rtsp_core::controller::ServerController;
use rtsp_core::types::{
    BindOutcome, ControllerError, EngineError, EngineVerdict, InstanceState, PipelineTemplate,
    RegistryError, RunState, SessionError, Sharing,
};

fn tmpl(path: &str, desc: &str, sharing: Sharing) -> PipelineTemplate {
    PipelineTemplate {
        mount_path: path.to_string(),
        description: desc.to_string(),
        sharing,
    }
}

fn running_server() -> ServerController {
    let mut c = ServerController::new();
    let r = c.start(8554, Vec::new(), Vec::new(), BindOutcome::Bound);
    assert!(r.is_ok());
    assert_eq!(c.run_state, RunState::Running);
    c
}

#[test]
fn start_then_stop_is_idle_and_quiescent() {
    let mut c = ServerController::new();
    let r = c.start(
        8554,
        vec![tmpl("/video1", "videotestsrc ! fakesink", Sharing::Shared)],
        vec![EngineVerdict::Accepted],
        BindOutcome::Bound,
    );
    assert!(r.is_ok());
    assert_eq!(c.run_state, RunState::Running);
    assert_eq!(c.listen_port, 8554);
    c.stop();
    assert_eq!(c.run_state, RunState::Idle);
    assert_eq!(c.instances.instantiate_calls(), 0);
    assert_eq!(c.instances.teardown_calls(), 0);
    assert_eq!(c.sessions.active_sessions(), 0);
}

#[test]
fn shared_mount_uses_one_acquire_release_pair() {
    let mut c = running_server();
    let r = c.register(
        tmpl("/video1", "videotestsrc ! fakesink", Sharing::Shared),
        EngineVerdict::Accepted,
    );
    assert!(r.is_ok());
    let h1 = c.open_session("/video1", EngineVerdict::Accepted).unwrap();
    let h2 = c.open_session("/video1", EngineVerdict::Accepted).unwrap();
    let h3 = c.open_session("/video1", EngineVerdict::Accepted).unwrap();
    assert_eq!((h1, h2, h3), (0, 1, 2));
    assert_eq!(c.instances.instantiate_calls(), 1);
    assert_eq!(c.instances.ref_count_of(0), Some(3));
    c.close_session(h1);
    c.close_session(h2);
    assert_eq!(c.instances.ref_count_of(0), Some(1));
    assert_eq!(c.instances.state_of(0), Some(InstanceState::Running));
    assert_eq!(c.instances.teardown_calls(), 0);
    c.close_session(h3);
    assert_eq!(c.instances.ref_count_of(0), Some(0));
    assert_eq!(c.instances.state_of(0), Some(InstanceState::Stopped));
    assert_eq!(c.instances.teardown_calls(), 1);
}

#[test]
fn per_client_mount_gives_each_session_its_own_instance() {
    let mut c = running_server();
    c.register(
        tmpl("/clip", "filesrc ! decodebin ! fakesink", Sharing::PerClient),
        EngineVerdict::Accepted,
    )
    .unwrap();
    let h1 = c.open_session("/clip", EngineVerdict::Accepted).unwrap();
    let h2 = c.open_session("/clip", EngineVerdict::Accepted).unwrap();
    let h3 = c.open_session("/clip", EngineVerdict::Accepted).unwrap();
    assert_eq!(c.instances.instantiate_calls(), 3);
    let n1 = c.sessions.instance_of(h1).unwrap();
    let n2 = c.sessions.instance_of(h2).unwrap();
    let n3 = c.sessions.instance_of(h3).unwrap();
    assert!(n1 != n2 && n2 != n3 && n1 != n3);
    c.close_session(h2);
    assert_eq!(c.instances.state_of(n2), Some(InstanceState::Stopped));
    assert_eq!(c.instances.state_of(n1), Some(InstanceState::Running));
    assert_eq!(c.instances.state_of(n3), Some(InstanceState::Running));
    assert_eq!(c.instances.teardown_calls(), 1);
}

#[test]
fn unregister_fails_while_in_use_and_succeeds_after() {
    let mut c = running_server();
    c.register(
        tmpl("/video1", "videotestsrc ! fakesink", Sharing::Shared),
        EngineVerdict::Accepted,
    )
    .unwrap();
    let h = c.open_session("/video1", EngineVerdict::Accepted).unwrap();
    let r = c.unregister("/video1");
    assert!(matches!(r, Err(RegistryError::MountInUse)));
    assert!(c.resolve("/video1").is_some());
    c.close_session(h);
    let r = c.unregister("/video1");
    assert!(r.is_ok());
    assert!(c.resolve("/video1").is_none());
}

#[test]
fn stop_twice_is_a_noop_without_double_teardown() {
    let mut c = running_server();
    c.register(
        tmpl("/video1", "videotestsrc ! fakesink", Sharing::Shared),
        EngineVerdict::Accepted,
    )
    .unwrap();
    c.open_session("/video1", EngineVerdict::Accepted).unwrap();
    c.stop();
    assert_eq!(c.run_state, RunState::Idle);
    assert_eq!(c.instances.teardown_calls(), 1);
    c.stop();
    assert_eq!(c.run_state, RunState::Idle);
    assert_eq!(c.instances.teardown_calls(), 1);
    assert_eq!(c.sessions.active_sessions(), 0);
}

#[test]
fn scenario_shared_and_per_client_counts() {
    let mut c = running_server();
    c.register(
        tmpl("/video1", "videotestsrc ! fakesink", Sharing::Shared),
        EngineVerdict::Accepted,
    )
    .unwrap();
    c.register(
        tmpl("/video2", "filesrc ! decodebin ! fakesink", Sharing::PerClient),
        EngineVerdict::Accepted,
    )
    .unwrap();
    c.open_session("/video1", EngineVerdict::Accepted).unwrap();
    c.open_session("/video1", EngineVerdict::Accepted).unwrap();
    c.open_session("/video1", EngineVerdict::Accepted).unwrap();
    assert_eq!(c.instances.instantiate_calls(), 1);
    c.open_session("/video2", EngineVerdict::Accepted).unwrap();
    c.open_session("/video2", EngineVerdict::Accepted).unwrap();
    assert_eq!(c.instances.instantiate_calls(), 3);
    c.stop();
    assert_eq!(c.instances.teardown_calls(), 3);
    assert_eq!(c.sessions.active_sessions(), 0);
    assert_eq!(c.run_state, RunState::Idle);
}

#[test]
fn register_rejected_description_leaves_table_unchanged() {
    let mut c = ServerController::new();
    let r = c.register(
        tmpl("/bad", "no_such_element ! nowhere", Sharing::Shared),
        EngineVerdict::Rejected("no such element".to_string()),
    );
    match r {
        Err(RegistryError::ValidationFailed(reason)) => assert_eq!(reason, "no such element"),
        other => panic!("expected ValidationFailed, got {:?}", other),
    }
    assert_eq!(c.registry.entries.len(), 0);
    assert!(c.resolve("/bad").is_none());
}

#[test]
fn register_empty_description_fails_validation() {
    let mut c = ServerController::new();
    let r = c.register(tmpl("/empty", "", Sharing::Shared), EngineVerdict::Accepted);
    assert!(matches!(r, Err(RegistryError::ValidationFailed(_))));
    assert_eq!(c.registry.entries.len(), 0);
}

#[test]
fn open_session_on_unknown_mount_fails() {
    let mut c = running_server();
    let r = c.open_session("/nope", EngineVerdict::Accepted);
    assert!(matches!(r, Err(SessionError::MountNotFound)));
    assert_eq!(c.sessions.active_sessions(), 0);
}

#[test]
fn engine_failure_surfaces_and_creates_no_session() {
    let mut c = running_server();
    c.register(
        tmpl("/video1", "videotestsrc ! missing_codec", Sharing::PerClient),
        EngineVerdict::Accepted,
    )
    .unwrap();
    let r = c.open_session("/video1", EngineVerdict::Rejected("missing codec".to_string()));
    match r {
        Err(SessionError::EngineError(EngineError::InstantiationFailed(reason))) => {
            assert_eq!(reason, "missing codec")
        },
        other => panic!("expected InstantiationFailed, got {:?}", other),
    }
    assert_eq!(c.sessions.active_sessions(), 0);
    assert_eq!(c.instances.instantiate_calls(), 0);
}

#[test]
fn start_while_running_is_refused() {
    let mut c = running_server();
    let r = c.start(9000, Vec::new(), Vec::new(), BindOutcome::Bound);
    assert!(matches!(r, Err(ControllerError::AlreadyRunning)));
    assert_eq!(c.run_state, RunState::Running);
    assert_eq!(c.listen_port, 8554);
}

#[test]
fn start_with_unbindable_port_fails() {
    let mut c = ServerController::new();
    let r = c.start(80, Vec::new(), Vec::new(), BindOutcome::Refused);
    assert!(matches!(r, Err(ControllerError::BindError(80))));
    assert_eq!(c.run_state, RunState::Idle);
}

#[test]
fn start_registration_is_all_or_nothing() {
    let mut c = ServerController::new();
    let r = c.start(
        8554,
        vec![
            tmpl("/good", "videotestsrc ! fakesink", Sharing::Shared),
            tmpl("/bad", "no_such_element", Sharing::Shared),
        ],
        vec![
            EngineVerdict::Accepted,
            EngineVerdict::Rejected("no such element".to_string()),
        ],
        BindOutcome::Bound,
    );
    match r {
        Err(ControllerError::InvalidTemplate(path, reason)) => {
            assert_eq!(path, "/bad");
            assert_eq!(reason, "no such element");
        },
        other => panic!("expected InvalidTemplate, got {:?}", other),
    }
    assert_eq!(c.run_state, RunState::Idle);
    assert_eq!(c.registry.entries.len(), 0);
}

#[test]
fn duplicate_register_replaces_inactive_mount() {
    let mut c = running_server();
    c.register(
        tmpl("/video1", "videotestsrc ! fakesink", Sharing::Shared),
        EngineVerdict::Accepted,
    )
    .unwrap();
    c.register(
        tmpl("/video1", "audiotestsrc ! fakesink", Sharing::PerClient),
        EngineVerdict::Accepted,
    )
    .unwrap();
    assert_eq!(c.registry.entries.len(), 1);
    let t = c.resolve("/video1").unwrap();
    assert_eq!(t.description, "audiotestsrc ! fakesink");
    assert_eq!(t.sharing, Sharing::PerClient);
}

#[test]
fn duplicate_register_fails_while_mount_in_use() {
    let mut c = running_server();
    c.register(
        tmpl("/video1", "videotestsrc ! fakesink", Sharing::Shared),
        EngineVerdict::Accepted,
    )
    .unwrap();
    c.open_session("/video1", EngineVerdict::Accepted).unwrap();
    let r = c.register(
        tmpl("/video1", "audiotestsrc ! fakesink", Sharing::Shared),
        EngineVerdict::Accepted,
    );
    assert!(matches!(r, Err(RegistryError::DuplicateMount)));
    let t = c.resolve("/video1").unwrap();
    assert_eq!(t.description, "videotestsrc ! fakesink");
}

#[test]
fn close_session_is_idempotent() {
    let mut c = running_server();
    c.register(
        tmpl("/video1", "videotestsrc ! fakesink", Sharing::Shared),
        EngineVerdict::Accepted,
    )
    .unwrap();
    let h1 = c.open_session("/video1", EngineVerdict::Accepted).unwrap();
    let h2 = c.open_session("/video1", EngineVerdict::Accepted).unwrap();
    c.close_session(h1);
    c.close_session(h1);
    assert_eq!(c.instances.ref_count_of(0), Some(1));
    assert_eq!(c.instances.state_of(0), Some(InstanceState::Running));
    c.close_session(h2);
    assert_eq!(c.instances.state_of(0), Some(InstanceState::Stopped));
    assert_eq!(c.instances.teardown_calls(), 1);
    c.close_session(99);
    assert_eq!(c.instances.teardown_calls(), 1);
}

#[test]
fn stopped_shared_instance_is_not_reused() {
    let mut c = running_server();
    c.register(
        tmpl("/video1", "videotestsrc ! fakesink", Sharing::Shared),
        EngineVerdict::Accepted,
    )
    .unwrap();
    let h = c.open_session("/video1", EngineVerdict::Accepted).unwrap();
    c.close_session(h);
    assert_eq!(c.instances.state_of(0), Some(InstanceState::Stopped));
    let h2 = c.open_session("/video1", EngineVerdict::Accepted).unwrap();
    assert_eq!(c.instances.instantiate_calls(), 2);
    assert_eq!(c.sessions.instance_of(h2), Some(1));
    assert_eq!(c.instances.state_of(1), Some(InstanceState::Running));
}

#[test]
fn force_stop_invalidates_sessions_and_tears_down_once() {
    let mut c = running_server();
    c.register(
        tmpl("/video1", "videotestsrc ! fakesink", Sharing::Shared),
        EngineVerdict::Accepted,
    )
    .unwrap();
    let h1 = c.open_session("/video1", EngineVerdict::Accepted).unwrap();
    let h2 = c.open_session("/video1", EngineVerdict::Accepted).unwrap();
    let n = c.sessions.instance_of(h1).unwrap();
    c.force_stop(n);
    assert!(!c.sessions.is_active(h1));
    assert!(!c.sessions.is_active(h2));
    assert_eq!(c.instances.state_of(n), Some(InstanceState::Stopped));
    assert_eq!(c.instances.ref_count_of(n), Some(0));
    assert_eq!(c.instances.teardown_calls(), 1);
    c.force_stop(n);
    assert_eq!(c.instances.teardown_calls(), 1);
    c.force_stop(42);
    assert_eq!(c.instances.teardown_calls(), 1);
}

#[test]
fn restart_swaps_the_template_set_and_closes_sessions() {
    let mut c = running_server();
    c.register(
        tmpl("/old", "videotestsrc ! fakesink", Sharing::Shared),
        EngineVerdict::Accepted,
    )
    .unwrap();
    let h = c.open_session("/old", EngineVerdict::Accepted).unwrap();
    let r = c.restart(
        8555,
        vec![tmpl("/new", "audiotestsrc ! fakesink", Sharing::PerClient)],
        vec![EngineVerdict::Accepted],
        BindOutcome::Bound,
    );
    assert!(r.is_ok());
    assert_eq!(c.run_state, RunState::Running);
    assert_eq!(c.listen_port, 8555);
    assert!(!c.sessions.is_active(h));
    assert_eq!(c.instances.teardown_calls(), 1);
    assert!(c.resolve("/old").is_none());
    assert!(c.resolve("/new").is_some());
}

#[test]
fn restart_from_idle_starts_the_server() {
    let mut c = ServerController::new();
    let r = c.restart(
        8554,
        vec![tmpl("/video1", "videotestsrc ! fakesink", Sharing::Shared)],
        vec![EngineVerdict::Accepted],
        BindOutcome::Bound,
    );
    assert!(r.is_ok());
    assert_eq!(c.run_state, RunState::Running);
    assert!(c.resolve("/video1").is_some());
}

#[test]
fn start_loads_later_duplicate_over_earlier() {
    let mut c = ServerController::new();
    let r = c.start(
        8554,
        vec![
            tmpl("/video1", "videotestsrc ! fakesink", Sharing::Shared),
            tmpl("/video1", "audiotestsrc ! fakesink", Sharing::Shared),
        ],
        vec![EngineVerdict::Accepted, EngineVerdict::Accepted],
        BindOutcome::Bound,
    );
    assert!(r.is_ok());
    assert_eq!(c.registry.entries.len(), 1);
    assert_eq!(c.resolve("/video1").unwrap().description, "audiotestsrc ! fakesink");
}
