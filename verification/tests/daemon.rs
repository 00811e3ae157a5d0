use fprint::authorizer::{
    claim_verdict, polkit_verdict, ActionSet, AuthDecision, Authorizer, PolkitAction,
};
use fprint::daemon::{
    actor_event, actor_step, is_streaming, next_source, ActorAction, ActorCommand, ActorEvent,
    ActorReply, ActorSource, ActorState, Daemon, PrioCommand,
};
use fprint::error::{daemon_error_from, CoreError, DaemonError};
use fprint::names::{
    finger_dbus_name, finger_file_char, finger_from_dbus_name, finger_from_file_name,
    scan_type_dbus_str, Finger, ScanType,
};
use fprint::requests::{
    claim_opened_step, claim_step, delete_all_step, enroll_start_step, orphaned_prints, vanish_step,
    verify_start_gate, verify_start_step, SensorPrint,
};
use fprint::device::VerifyChoice;
use fprint::session::{
    begin_op, claim_session, end_session, ensure_idle, finish_claim, no_action_message, num_enroll_stages,
    real_finger, release_session, require_claimed, resolve_user, stop_active, ActiveOp, OpKind,
    OpenReply, Session, UserChoice,
};
use fprint::status::{
    enroll_error, enroll_progress, enroll_retry, verify_error, verify_match, verify_retry,
    EnrollProgress, RetryReason,
};
use fprint::storage::{component, store_root_from, Store};
use std::sync::Arc;

const ACTIONS: [PolkitAction; 3] = [
    PolkitAction::Verify,
    PolkitAction::Enroll,
    PolkitAction::SetUsername,
];

#[test]
fn action_ids_match_the_fprintd_policy() {
    assert_eq!(PolkitAction::Verify.id(), "net.reactivated.fprint.device.verify");
    assert_eq!(PolkitAction::Enroll.id(), "net.reactivated.fprint.device.enroll");
    assert_eq!(
        PolkitAction::SetUsername.id(),
        "net.reactivated.fprint.device.setusername"
    );
}

#[test]
fn none_grants_nothing_and_all_grants_everything() {
    for action in ACTIONS {
        assert!(!ActionSet::none().contains(action), "NONE granted {action:?}");
        assert!(ActionSet::all().contains(action), "ALL refused {action:?}");
    }
}

#[test]
fn each_action_has_its_own_bit() {
    for granted in ACTIONS {
        let set = ActionSet::bit(granted);
        for action in ACTIONS {
            assert_eq!(
                set.contains(action),
                action == granted,
                "{granted:?} alone: contains({action:?})"
            );
        }
    }
}

#[test]
fn bitor_unions_and_all_is_the_union_of_every_action() {
    let union = ACTIONS
        .into_iter()
        .fold(ActionSet::none(), |acc, a| acc | ActionSet::bit(a));
    assert_eq!(union, ActionSet::all(), "ALL must be exactly every action");
    let two = ActionSet::verify() | ActionSet::enroll();
    assert!(two.contains(PolkitAction::Verify) && two.contains(PolkitAction::Enroll));
    assert!(!two.contains(PolkitAction::SetUsername));
    assert_eq!(ActionSet::none() | ActionSet::all(), ActionSet::all());
}

#[test]
fn the_default_set_grants_nothing() {
    assert_eq!(ActionSet::default(), ActionSet::none());
}

#[test]
fn a_fixed_authorizer_grants_its_set_and_names_the_refused_action() {
    let authz = Authorizer::Fixed(ActionSet::verify());
    assert!(matches!(authz.decide(PolkitAction::Verify), AuthDecision::Granted));
    match authz.decide(PolkitAction::Enroll) {
        AuthDecision::Denied(DaemonError::PermissionDenied(m)) => {
            assert_eq!(m, "Not Authorized: net.reactivated.fprint.device.enroll")
        }
        other => panic!("expected a refusal, got {other:?}"),
    }
    assert!(matches!(
        Authorizer::Polkit.decide(PolkitAction::Verify),
        AuthDecision::AskPolkit
    ));
    assert!(polkit_verdict(true, PolkitAction::Verify).is_ok());
    assert!(matches!(
        polkit_verdict(false, PolkitAction::SetUsername),
        Err(DaemonError::PermissionDenied(_))
    ));
}

const FINGERS: [Finger; 11] = [
    Finger::Unknown,
    Finger::LeftThumb,
    Finger::LeftIndex,
    Finger::LeftMiddle,
    Finger::LeftRing,
    Finger::LeftLittle,
    Finger::RightThumb,
    Finger::RightIndex,
    Finger::RightMiddle,
    Finger::RightRing,
    Finger::RightLittle,
];

#[test]
fn finger_names_round_trip() {
    for f in FINGERS {
        assert_eq!(finger_from_dbus_name(finger_dbus_name(f)), Some(f));
    }
    assert_eq!(finger_dbus_name(Finger::Unknown), "any");
    assert_eq!(finger_from_dbus_name("any"), Some(Finger::Unknown));
    assert_eq!(finger_from_dbus_name("not-a-finger"), None);
}

#[test]
fn scan_type_strings() {
    assert_eq!(scan_type_dbus_str(ScanType::Swipe), "swipe");
    assert_eq!(scan_type_dbus_str(ScanType::Press), "press");
}

#[test]
fn finger_file_names_are_one_hex_digit() {
    assert_eq!(finger_file_char(Finger::RightIndex), '7');
    assert_eq!(finger_file_char(Finger::RightLittle), 'a');
    for f in FINGERS.into_iter().skip(1) {
        let name = finger_file_char(f).to_string();
        assert_eq!(finger_from_file_name(&name), Some(f));
    }
    assert_eq!(finger_from_file_name("0"), None);
    assert_eq!(finger_from_file_name("b"), None);
    assert_eq!(finger_from_file_name(".7.tmp"), None);
    assert_eq!(finger_from_file_name("77"), None);
}

#[test]
fn verify_and_enroll_status_strings() {
    assert_eq!(verify_match(true), ("verify-match", true));
    assert_eq!(verify_match(false), ("verify-no-match", true));
    assert_eq!(verify_retry(RetryReason::TooShort), ("verify-swipe-too-short", false));
    assert_eq!(verify_retry(RetryReason::General), ("verify-retry-scan", false));
    assert_eq!(verify_error(&CoreError::Transport), ("verify-disconnected", true));
    assert_eq!(verify_error(&CoreError::DataNotFound), ("verify-no-match", true));
    assert_eq!(verify_error(&CoreError::Busy), ("verify-unknown-error", true));
    assert_eq!(enroll_retry(RetryReason::TooFast), "enroll-too-fast");
    assert_eq!(enroll_error(&CoreError::DataFull), "enroll-data-full");
    assert_eq!(enroll_error(&CoreError::Cancelled), "enroll-failed");
    let passed = EnrollProgress {
        completed_stages: 1,
        total_stages: 5,
        retry: None,
    };
    assert_eq!(enroll_progress(&passed), Some("enroll-stage-passed"));
    let last = EnrollProgress {
        completed_stages: 5,
        total_stages: 5,
        retry: None,
    };
    assert_eq!(enroll_progress(&last), None);
    let retry = EnrollProgress {
        completed_stages: 5,
        total_stages: 5,
        retry: Some(RetryReason::NotCentered),
    };
    assert_eq!(enroll_progress(&retry), Some("enroll-finger-not-centered"));
}

const HOSTILE: &[&str] = &[
    "/tmp/pwned",
    "../../../../tmp/pwned",
    "a/../../b",
    "..",
    ".",
    "",
    "a/b",
    "al\0ice",
];

#[test]
fn a_hostile_username_cannot_escape_the_store_root() {
    let store = Store::with_root("/var/lib/fprint".to_string());
    for hostile in HOSTILE {
        let r = store.dir_components(hostile, "virtual_image", "virtual_image");
        assert!(
            matches!(r, Err(DaemonError::Internal(_))),
            "username {hostile:?} must be refused"
        );
    }
}

#[test]
fn a_hostile_driver_or_device_id_cannot_escape_the_store_root() {
    let store = Store::with_root("/var/lib/fprint".to_string());
    for hostile in HOSTILE {
        assert!(
            store.dir_components("alice", hostile, "virtual_image").is_err(),
            "driver {hostile:?} must be refused"
        );
        assert!(
            store.dir_components("alice", "virtual_image", hostile).is_err(),
            "device id {hostile:?} must be refused"
        );
    }
}

#[test]
fn ordinary_components_are_accepted_as_spelled() {
    assert_eq!(component("alice").ok(), Some("alice"));
    assert_eq!(component("...").ok(), Some("..."));
    assert_eq!(component(".hidden").ok(), Some(".hidden"));
    let store = Store::with_root("/srv/prints".to_string());
    assert_eq!(
        store.dir_components("bob", "synaptics", "0").ok(),
        Some(("bob", "synaptics", "0"))
    );
    assert_eq!(store.root(), "/srv/prints");
    match component("a/b") {
        Err(DaemonError::Internal(m)) => assert_eq!(m, "illegal path component \"a/b\""),
        other => panic!("expected a refusal, got {other:?}"),
    }
}

#[test]
fn the_store_root_follows_the_state_directory() {
    assert_eq!(store_root_from(None), "/var/lib/fprint");
    assert_eq!(store_root_from(Some("")), "/var/lib/fprint");
    assert_eq!(store_root_from(Some("/run/fp")), "/run/fp");
    assert_eq!(store_root_from(Some("/a:/b")), "/a");
    assert_eq!(store_root_from(Some(":/b")), "/var/lib/fprint");
}

fn session(sender: &str, user: &str) -> Option<Session> {
    Some(Session {
        sender: sender.to_string(),
        username: user.to_string(),
    })
}

#[test]
fn only_the_claimer_passes_the_claim_check() {
    assert!(matches!(
        require_claimed(&None, ":1.1"),
        Err(DaemonError::ClaimDevice(_))
    ));
    let claim = session(":1.1", "alice");
    assert_eq!(require_claimed(&claim, ":1.1").unwrap(), "alice");
    assert!(matches!(
        require_claimed(&claim, ":1.2"),
        Err(DaemonError::AlreadyInUse(_))
    ));
}

#[test]
fn a_double_claim_is_refused_and_leaves_the_first_claim_intact() {
    let mut claim = None;
    assert!(claim_session(&mut claim, ":1.1".to_string(), "alice".to_string()).is_ok());
    assert!(matches!(
        claim_session(&mut claim, ":1.2".to_string(), "bob".to_string()),
        Err(DaemonError::AlreadyInUse(_))
    ));
    assert_eq!(require_claimed(&claim, ":1.1").unwrap(), "alice");
    end_session(&mut claim);
    assert!(claim.is_none());
}

#[test]
fn a_second_operation_is_refused_while_one_is_in_flight() {
    let mut active = Some(ActiveOp {
        kind: OpKind::Verify,
        finished: false,
    });
    assert!(matches!(
        ensure_idle(&mut active),
        Err(DaemonError::AlreadyInUse(_))
    ));
    assert!(active.is_some());
    let mut done = Some(ActiveOp {
        kind: OpKind::Enroll,
        finished: true,
    });
    assert!(ensure_idle(&mut done).is_ok());
    assert!(done.is_none());
}

#[test]
fn stopping_follows_the_kind_and_state_of_the_operation() {
    let mut none: Option<ActiveOp> = None;
    match stop_active(&mut none, OpKind::Verify) {
        Err(DaemonError::NoActionInProgress(m)) => assert_eq!(m, "No verification in progress"),
        other => panic!("unexpected {other:?}"),
    }
    assert_eq!(no_action_message(OpKind::Enroll), "No enrollment in progress");
    let running = ActiveOp {
        kind: OpKind::Enroll,
        finished: false,
    };
    let mut a = Some(running);
    assert!(matches!(
        stop_active(&mut a, OpKind::Verify),
        Err(DaemonError::AlreadyInUse(_))
    ));
    assert_eq!(a, Some(running));
    assert_eq!(stop_active(&mut a, OpKind::Enroll).ok(), Some(true));
    assert!(a.is_none());
    let mut f = Some(ActiveOp {
        kind: OpKind::Verify,
        finished: true,
    });
    assert_eq!(stop_active(&mut f, OpKind::Enroll).ok(), Some(false));
    assert!(f.is_none());
}

#[test]
fn only_real_fingers_are_accepted_by_name() {
    assert_eq!(real_finger("right-index-finger").ok(), Some(Finger::RightIndex));
    assert!(matches!(real_finger("any"), Err(DaemonError::InvalidFingername(_))));
    assert!(matches!(real_finger(""), Err(DaemonError::InvalidFingername(_))));
    assert!(matches!(real_finger("left-toe"), Err(DaemonError::InvalidFingername(_))));
}

#[test]
fn acting_for_another_user_requires_setusername() {
    assert!(matches!(
        resolve_user(Some("alice"), ""),
        Ok(UserChoice::Own(u)) if u == "alice"
    ));
    assert!(matches!(
        resolve_user(None, ""),
        Err(DaemonError::Internal(_))
    ));
    assert!(matches!(
        resolve_user(Some("alice"), "alice"),
        Ok(UserChoice::Requested(u)) if u == "alice"
    ));
    assert!(matches!(
        resolve_user(Some("alice"), "bob"),
        Ok(UserChoice::NeedsSetUsername(u)) if u == "bob"
    ));
    assert!(matches!(
        resolve_user(None, "bob"),
        Ok(UserChoice::NeedsSetUsername(_))
    ));
}

#[test]
fn enroll_stages_show_only_once_claimed() {
    assert_eq!(num_enroll_stages(false, 5), -1);
    assert_eq!(num_enroll_stages(true, 5), 5);
    assert_eq!(num_enroll_stages(true, u32::MAX), i32::MAX);
}

#[test]
fn core_errors_lift_to_their_daemon_names() {
    assert!(matches!(
        daemon_error_from(CoreError::NotFound),
        DaemonError::NoSuchDevice(_)
    ));
    assert!(matches!(
        daemon_error_from(CoreError::Busy),
        DaemonError::AlreadyInUse(_)
    ));
    assert!(matches!(
        daemon_error_from(CoreError::ProtoState),
        DaemonError::ClaimDevice(_)
    ));
    assert!(matches!(
        daemon_error_from(CoreError::DataNotFound),
        DaemonError::NoEnrolledPrints(_)
    ));
    assert!(matches!(
        daemon_error_from(CoreError::Protocol),
        DaemonError::Internal(_)
    ));
}

#[test]
fn the_actor_answers_not_ready_without_a_reader() {
    assert_eq!(
        actor_step(false, ActorCommand::Verify, false),
        (ActorAction::ReplyNotReady, false)
    );
    assert_eq!(
        actor_step(false, ActorCommand::Suspend, false),
        (ActorAction::ReplyOk, false)
    );
    assert_eq!(
        actor_step(false, ActorCommand::Open, true),
        (ActorAction::AcquireThenOpen, true)
    );
    assert_eq!(
        actor_step(false, ActorCommand::Open, false),
        (ActorAction::AcquireThenOpen, false)
    );
    assert_eq!(
        actor_step(true, ActorCommand::Open, false),
        (ActorAction::OpenHeld, true)
    );
    assert_eq!(
        actor_step(true, ActorCommand::Close, false),
        (ActorAction::CloseHeld, false)
    );
    assert_eq!(
        actor_step(true, ActorCommand::ListPrints, false),
        (ActorAction::RunOnReader, true)
    );
    assert!(is_streaming(ActorCommand::Identify));
    assert!(!is_streaming(ActorCommand::ClearStorage));
}

#[test]
fn a_daemon_roots_its_store_from_the_state_directory() {
    let d = Daemon::new(|| (), Arc::new(Authorizer::Fixed(ActionSet::all())), Some("/x:/y"));
    assert_eq!(d.store().root(), "/x");
    let s = Daemon::with_store(
        || (),
        Arc::new(Authorizer::Fixed(ActionSet::none())),
        Store::with_root("/tmp/store".to_string()),
    );
    assert_eq!(s.store().root(), "/tmp/store");
}

#[test]
fn a_release_by_a_non_owner_changes_nothing() {
    let mut claim = Some(Session { sender: ":1.7".to_string(), username: "alice".to_string() });
    let mut active = Some(ActiveOp { kind: OpKind::Verify, finished: false });
    assert!(matches!(
        release_session(&mut claim, &mut active, ":1.9"),
        Err(DaemonError::AlreadyInUse(_))
    ));
    assert_eq!(claim.as_ref().map(|s| s.sender.as_str()), Some(":1.7"));
    assert_eq!(active, Some(ActiveOp { kind: OpKind::Verify, finished: false }));
    // The owner's release stops the running operation and frees the device.
    assert!(matches!(release_session(&mut claim, &mut active, ":1.7"), Ok(true)));
    assert!(claim.is_none() && active.is_none());
    // Nothing claimed: the release is refused.
    assert!(matches!(
        release_session(&mut claim, &mut active, ":1.7"),
        Err(DaemonError::ClaimDevice(_))
    ));
}

#[test]
fn a_failed_open_drops_the_claim() {
    let mut claim = Some(Session { sender: ":1.7".to_string(), username: "alice".to_string() });
    assert!(finish_claim(&mut claim, OpenReply::Opened).is_ok());
    assert!(claim.is_some());
    match finish_claim(&mut claim, OpenReply::Failed("sensor gone".to_string())) {
        Err(DaemonError::Internal(m)) => assert_eq!(m, "Open failed with error: sensor gone"),
        other => panic!("unexpected {:?}", other),
    }
    assert!(claim.is_none());
    let mut claim = Some(Session { sender: ":1.7".to_string(), username: "alice".to_string() });
    match finish_claim(&mut claim, OpenReply::ActorGone) {
        Err(DaemonError::Internal(m)) => assert_eq!(m, "device actor stopped"),
        other => panic!("unexpected {:?}", other),
    }
    assert!(claim.is_none());
}

#[test]
fn claim_authorization_takes_verify_or_enroll() {
    let granted = |set: ActionSet| matches!(Authorizer::Fixed(set).decide_claim(), AuthDecision::Granted);
    assert!(granted(ActionSet::verify()));
    assert!(granted(ActionSet::enroll()));
    assert!(granted(ActionSet::all()));
    match Authorizer::Fixed(ActionSet::set_username()).decide_claim() {
        AuthDecision::Denied(DaemonError::PermissionDenied(m)) => {
            assert_eq!(m, "Not Authorized: net.reactivated.fprint.device.enroll")
        }
        other => panic!("unexpected {:?}", other),
    }
    assert!(matches!(Authorizer::Polkit.decide_claim(), AuthDecision::AskPolkit));
    assert!(claim_verdict(true, false).is_ok());
    assert!(claim_verdict(false, true).is_ok());
    assert!(matches!(claim_verdict(false, false), Err(DaemonError::PermissionDenied(_))));
}

#[test]
fn a_second_start_is_refused_while_the_first_runs() {
    let mut active: Option<ActiveOp> = None;
    assert!(begin_op(&mut active, OpKind::Verify).is_ok());
    assert_eq!(active, Some(ActiveOp { kind: OpKind::Verify, finished: false }));
    assert!(matches!(begin_op(&mut active, OpKind::Verify), Err(DaemonError::AlreadyInUse(_))));
    assert!(matches!(begin_op(&mut active, OpKind::Enroll), Err(DaemonError::AlreadyInUse(_))));
    active = Some(ActiveOp { kind: OpKind::Verify, finished: true });
    assert!(begin_op(&mut active, OpKind::Enroll).is_ok());
    assert_eq!(active, Some(ActiveOp { kind: OpKind::Enroll, finished: false }));
}

#[test]
fn a_suspend_preempts_a_parked_verify() {
    let idle = ActorState { held: true, in_flight: None };
    let (parked, out) = actor_event(idle, ActorEvent::Command(ActorCommand::Verify, false));
    assert_eq!(parked, ActorState { held: true, in_flight: Some(ActorCommand::Verify) });
    assert_eq!(out, vec![ActorReply::Start(ActorCommand::Verify)]);
    let (after, out) = actor_event(parked, ActorEvent::Prio(PrioCommand::Suspend));
    assert_eq!(after, idle);
    assert_eq!(
        out,
        vec![
            ActorReply::Cancel(ActorCommand::Verify),
            ActorReply::RunPrio(PrioCommand::Suspend, ActorAction::RunOnReader),
        ]
    );
}

#[test]
fn a_queued_command_waits_behind_a_running_operation() {
    let parked = ActorState { held: true, in_flight: Some(ActorCommand::Enroll) };
    let (st, out) = actor_event(parked, ActorEvent::Command(ActorCommand::ListPrints, false));
    assert_eq!(st, parked);
    assert!(out.is_empty());
    let (st, out) = actor_event(parked, ActorEvent::OpFinished);
    assert_eq!(st, ActorState { held: true, in_flight: None });
    assert_eq!(out, vec![ActorReply::Answer(ActorCommand::Enroll)]);
    let (_, out) = actor_event(parked, ActorEvent::OpCancelled);
    assert_eq!(out, vec![ActorReply::Cancel(ActorCommand::Enroll)]);
}

#[test]
fn without_a_reader_a_resume_is_a_no_op_and_a_verify_is_not_ready() {
    let empty = ActorState { held: false, in_flight: None };
    let (st, out) = actor_event(empty, ActorEvent::Prio(PrioCommand::Resume));
    assert_eq!(st, empty);
    assert_eq!(out, vec![ActorReply::RunPrio(PrioCommand::Resume, ActorAction::ReplyOk)]);
    let (st, out) = actor_event(empty, ActorEvent::Command(ActorCommand::Verify, false));
    assert_eq!(st, empty);
    assert_eq!(out, vec![ActorReply::Act(ActorCommand::Verify, ActorAction::ReplyNotReady)]);
    let (st, _) = actor_event(empty, ActorEvent::Command(ActorCommand::Open, true));
    assert!(st.held);
}

#[test]
fn the_idle_loop_takes_priority_commands_first() {
    assert_eq!(next_source(true, true), Some(ActorSource::Prio));
    assert_eq!(next_source(false, true), Some(ActorSource::Queue));
    assert_eq!(next_source(false, false), None);
}

fn session_of(sender: &str, user: &str) -> Option<Session> {
    Some(Session { sender: sender.to_string(), username: user.to_string() })
}

#[test]
fn an_unclaimed_unauthorized_caller_is_told_to_claim_first_step() {
    let nobody = Authorizer::Fixed(ActionSet::none());
    let mut active: Option<ActiveOp> = None;
    let r = verify_start_step(&None, &mut active, ":1.5", &nobody, false, "any", false, &[], false);
    assert_eq!(r.unwrap_err().name(), "net.reactivated.Fprint.Error.ClaimDevice");
    let r = enroll_start_step(&None, &mut active, ":1.5", &nobody, false, "right-index-finger");
    assert_eq!(r.unwrap_err().name(), "net.reactivated.Fprint.Error.ClaimDevice");
}

#[test]
fn verify_start_checks_authorization_then_idleness_then_the_name() {
    let claim = session_of(":1.5", "alice");
    let nobody = Authorizer::Fixed(ActionSet::none());
    let verifier = Authorizer::Fixed(ActionSet::verify());
    let busy = Some(ActiveOp { kind: OpKind::Enroll, finished: false });
    let mut active = busy;
    let r = verify_start_gate(&claim, &mut active, ":1.5", &nobody, true, "bogus");
    assert_eq!(r.unwrap_err().name(), "net.reactivated.Fprint.Error.PermissionDenied");
    let r = verify_start_gate(&claim, &mut active, ":1.5", &verifier, false, "bogus");
    assert_eq!(r.unwrap_err().name(), "net.reactivated.Fprint.Error.AlreadyInUse");
    assert_eq!(active, busy);
    let mut active = Some(ActiveOp { kind: OpKind::Enroll, finished: true });
    let r = verify_start_gate(&claim, &mut active, ":1.5", &verifier, false, "bogus");
    assert_eq!(r.unwrap_err().name(), "net.reactivated.Fprint.Error.InvalidFingername");
    assert_eq!(active, None);
    let (user, finger) =
        verify_start_gate(&claim, &mut active, ":1.5", &verifier, false, "left-thumb").unwrap();
    assert_eq!((user.as_str(), finger), ("alice", Finger::LeftThumb));
    let polkit = Authorizer::Polkit;
    let r = verify_start_step(
        &claim,
        &mut active,
        ":1.5",
        &polkit,
        true,
        "any",
        false,
        &[Finger::LeftThumb, Finger::RightIndex],
        true,
    );
    match r {
        Ok(VerifyChoice::Identify(g)) => assert_eq!(g, vec![Finger::LeftThumb, Finger::RightIndex]),
        other => panic!("unexpected {other:?}"),
    }
    let r = verify_start_step(&claim, &mut active, ":1.6", &polkit, true, "any", false, &[], true);
    assert_eq!(r.unwrap_err().name(), "net.reactivated.Fprint.Error.AlreadyInUse");
}

#[test]
fn claim_for_another_user_also_needs_setusername() {
    let both = Authorizer::Fixed(ActionSet::verify().union(ActionSet::enroll()));
    let mut claim: Option<Session> = None;
    let r = claim_step(&mut claim, ":1.5", &both, false, false, Some("alice"), "someone-else", false);
    assert_eq!(r.unwrap_err().name(), "net.reactivated.Fprint.Error.PermissionDenied");
    assert!(claim.is_none());
    claim_step(&mut claim, ":1.5", &both, false, false, Some("alice"), "", false).unwrap();
    let s = claim.as_ref().unwrap();
    assert_eq!((s.sender.as_str(), s.username.as_str()), (":1.5", "alice"));
    let r = claim_step(&mut claim, ":1.6", &both, false, false, Some("bob"), "", false);
    assert_eq!(r.unwrap_err().name(), "net.reactivated.Fprint.Error.AlreadyInUse");
}

#[test]
fn claim_needs_verify_or_enroll_step() {
    for (set, ok) in [
        (ActionSet::none(), false),
        (ActionSet::verify(), true),
        (ActionSet::enroll(), true),
        (ActionSet::set_username(), false),
    ] {
        let mut claim: Option<Session> = None;
        let r = claim_step(&mut claim, ":1.5", &Authorizer::Fixed(set), false, false, Some("a"), "", true);
        assert_eq!(r.is_ok(), ok);
        assert_eq!(claim.is_some(), ok);
    }
    let mut claim: Option<Session> = None;
    let r = claim_step(&mut claim, ":1.5", &Authorizer::Polkit, false, true, Some("a"), "", false);
    assert!(r.is_ok());
}

fn sensor(finger: Finger, owner: Option<&str>) -> SensorPrint {
    SensorPrint { finger, owner: owner.map(str::to_string) }
}

#[test]
fn claim_reconciliation_frees_only_the_claimants_orphans() {
    let prints = [
        sensor(Finger::RightIndex, Some("alice")),
        sensor(Finger::LeftThumb, Some("alice")),
        sensor(Finger::RightIndex, Some("bob")),
        sensor(Finger::LeftIndex, None),
    ];
    // alice's host record keeps her left thumb only: her right index is orphaned.
    assert_eq!(orphaned_prints(&prints, "alice", &[Finger::LeftThumb], true), vec![0]);
    // bob has no host record at all: only his own print goes.
    assert_eq!(orphaned_prints(&prints, "bob", &[], true), vec![2]);
    // A reader that cannot delete from its storage frees nothing.
    assert!(orphaned_prints(&prints, "alice", &[], false).is_empty());
}

#[test]
fn an_opened_claim_reconciles_and_a_failed_one_is_dropped() {
    let prints = [sensor(Finger::RightIndex, Some("alice"))];
    let mut claim = session_of(":1.5", "alice");
    let freed = claim_opened_step(&mut claim, OpenReply::Opened, &prints, &[], true).unwrap();
    assert_eq!(freed, vec![0]);
    assert!(claim.is_some());
    let mut claim = session_of(":1.5", "bob");
    let freed = claim_opened_step(&mut claim, OpenReply::Opened, &prints, &[], true).unwrap();
    assert!(freed.is_empty());
    let mut claim = session_of(":1.5", "alice");
    let r = claim_opened_step(&mut claim, OpenReply::ActorGone, &prints, &[], true);
    assert_eq!(r.unwrap_err().name(), "net.reactivated.Fprint.Error.Internal");
    assert!(claim.is_none());
}

#[test]
fn a_vanished_claimer_is_released_and_others_leaving_change_nothing() {
    let mut claim = session_of(":1.5", "alice");
    let mut active = Some(ActiveOp { kind: OpKind::Verify, finished: false });
    assert!(!vanish_step(&mut claim, &mut active, ":1.9"));
    assert!(claim.is_some() && active.is_some());
    assert!(vanish_step(&mut claim, &mut active, ":1.5"));
    assert!(claim.is_none() && active.is_none());
    // The device is then free for the next claimer.
    let all = Authorizer::Fixed(ActionSet::all());
    claim_step(&mut claim, ":1.6", &all, false, false, Some("bob"), "", false).unwrap();
}

#[test]
fn delete_all_deletes_each_recorded_print_never_wiping_the_reader() {
    let claim = session_of(":1.5", "alice");
    let enroller = Authorizer::Fixed(ActionSet::enroll());
    let plan = delete_all_step(&claim, ":1.5", &enroller, false, &[Finger::RightIndex], true).unwrap();
    assert_eq!(plan.fingers, vec![Finger::RightIndex]);
    assert!(plan.from_sensor);
    let plan = delete_all_step(&claim, ":1.5", &enroller, false, &[Finger::LeftThumb], false).unwrap();
    assert!(!plan.from_sensor);
    let r = delete_all_step(&claim, ":1.5", &enroller, false, &[], true);
    assert_eq!(r.unwrap_err().name(), "net.reactivated.Fprint.Error.NoEnrolledPrints");
    let r = delete_all_step(&None, ":1.5", &enroller, false, &[Finger::LeftThumb], true);
    assert_eq!(r.unwrap_err().name(), "net.reactivated.Fprint.Error.ClaimDevice");
    let verifier = Authorizer::Fixed(ActionSet::verify());
    let r = delete_all_step(&claim, ":1.5", &verifier, true, &[Finger::LeftThumb], true);
    assert_eq!(r.unwrap_err().name(), "net.reactivated.Fprint.Error.PermissionDenied");
}
