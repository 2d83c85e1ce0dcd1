use ncc::crew::{example_manifest, AssignModelError, CrewId, CrewManifest, ModelAssignment};
use ncc::orchestrator::{
    format_assignment_error, handle_command, start_warp_core, BridgeEvent, Command, DispatchError,
};

#[test]
fn publishes_independent_leader_model_changes() {
    let mut manifest = example_manifest();
    let (events, online) = start_warp_core(&manifest);
    assert!(online);
    assert!(matches!(events.as_slice(), [BridgeEvent::Online(_)]));

    let (event, running) = handle_command(
        &mut manifest,
        Command::AssignLeaderModel {
            leader_id: CrewId::new("la-forge"),
            model: ModelAssignment::new("local", "code-specialist"),
        },
    );
    assert!(running);
    let BridgeEvent::CrewUpdated(published) = event else {
        panic!("expected a crew update");
    };
    assert_eq!(
        published.leader(&CrewId::new("la-forge")).unwrap().model.label(),
        "local / code-specialist"
    );
    assert_ne!(
        published.leader(&CrewId::new("data")).unwrap().model.label(),
        "local / code-specialist"
    );
    assert_eq!(published, manifest);
}

#[test]
fn an_invalid_manifest_is_rejected_and_goes_offline() {
    let mut manifest = example_manifest();
    manifest.leaders[2].department = " ".to_string();
    let (events, online) = start_warp_core(&manifest);
    assert!(!online);
    assert_eq!(events.len(), 2);
    match &events[0] {
        BridgeEvent::CommandRejected(text) => assert_eq!(text, "la-forge has an empty department"),
        other => panic!("unexpected event {other:?}"),
    }
    assert!(matches!(events[1], BridgeEvent::Offline));
}

#[test]
fn refused_assignments_are_reported_and_keep_running() {
    let mut manifest = example_manifest();
    let before = manifest.clone();
    let (event, running) = handle_command(
        &mut manifest,
        Command::AssignLeaderModel {
            leader_id: CrewId::new("nobody"),
            model: ModelAssignment::new("local", "m"),
        },
    );
    assert!(running);
    match event {
        BridgeEvent::CommandRejected(text) => {
            assert_eq!(text, "model assignment rejected: unknown team leader: nobody")
        }
        other => panic!("unexpected event {other:?}"),
    }
    assert_eq!(manifest, before);
}

#[test]
fn snapshots_and_shutdown() {
    let mut manifest = example_manifest();
    let (event, running) = handle_command(&mut manifest, Command::RequestSnapshot);
    assert!(running);
    match event {
        BridgeEvent::CrewUpdated(m) => assert_eq!(m, example_manifest()),
        other => panic!("unexpected event {other:?}"),
    }
    let (event, running) = handle_command(&mut manifest, Command::ShutDown);
    assert!(!running);
    assert!(matches!(event, BridgeEvent::Offline));
    assert_eq!(manifest, example_manifest());
}

#[test]
fn error_reports() {
    assert_eq!(
        format_assignment_error(AssignModelError::InvalidModel),
        "model assignment rejected: provider and model must not be empty"
    );
    assert_eq!(DispatchError::Busy.message(), "the command queue is at capacity");
    assert_eq!(DispatchError::Offline.message(), "the Warp Core is offline");
    let (events, online) = start_warp_core(&CrewManifest::default());
    assert!(online);
    assert!(matches!(events.as_slice(), [BridgeEvent::Online(m)] if m.leaders.is_empty()));
}

#[test]
fn a_command_session_answers_each_command_until_shutdown() {
    let mut manifest = example_manifest();
    let (_, online) = start_warp_core(&manifest);
    assert!(online);
    let commands = vec![
        Command::AssignLeaderModel {
            leader_id: CrewId::new("data"),
            model: ModelAssignment::new("local", "reasoner"),
        },
        Command::AssignLeaderModel {
            leader_id: CrewId::new("nobody"),
            model: ModelAssignment::new("local", "reasoner"),
        },
        Command::RequestSnapshot,
        Command::ShutDown,
        Command::RequestSnapshot,
    ];
    let mut events = Vec::new();
    for command in commands {
        let (event, running) = handle_command(&mut manifest, command);
        events.push(event);
        if !running {
            break;
        }
    }
    assert_eq!(events.len(), 4);
    assert!(matches!(events[0], BridgeEvent::CrewUpdated(_)));
    assert!(matches!(
        &events[1],
        BridgeEvent::CommandRejected(text) if text == "model assignment rejected: unknown team leader: nobody"
    ));
    assert!(matches!(&events[2], BridgeEvent::CrewUpdated(m) if m.validate().is_ok()));
    assert!(matches!(events[3], BridgeEvent::Offline));
    assert!(manifest.validate().is_ok());
    assert_eq!(manifest.leader(&CrewId::new("data")).unwrap().model.label(), "local / reasoner");
}
