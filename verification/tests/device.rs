use fprint::device::{
    check_any_enrolled, check_finger_enrolled, choose_verify_op, complete_keys,
    enroll_final_status, enrolled_finger_names, finger_num_str, holds_finger,
    selected_finger_name, verify_pump_step, EnrollReply, PrintKeys, VerifyChoice, VerifyReply,
    VerifySignal,
};
use fprint::error::{CoreError, DaemonError};
use fprint::names::Finger;
use fprint::status::RetryReason;

fn no_prints_message(r: Result<VerifyChoice, DaemonError>) -> String {
    match r {
        Err(DaemonError::NoEnrolledPrints(m)) => m,
        other => panic!("unexpected {:?}", other),
    }
}

#[test]
fn finger_numbers_are_spelled_in_decimal() {
    assert_eq!(finger_num_str(Finger::Unknown), "0");
    assert_eq!(finger_num_str(Finger::LeftThumb), "1");
    assert_eq!(finger_num_str(Finger::RightLittle), "10");
}

#[test]
fn a_requested_finger_is_matched_one_to_one() {
    let r = choose_verify_op(Finger::RightIndex, true, &[Finger::LeftThumb], true);
    assert!(matches!(r, Ok(VerifyChoice::Single(Finger::RightIndex))));
}

#[test]
fn a_requested_finger_without_a_print_is_refused() {
    let r = choose_verify_op(Finger::RightIndex, false, &[Finger::LeftThumb], true);
    assert_eq!(no_prints_message(r), "No such print 7");
}

#[test]
fn any_finger_with_nothing_enrolled_is_refused() {
    let r = choose_verify_op(Finger::Unknown, false, &[], true);
    assert_eq!(no_prints_message(r), "No fingerprints enrolled");
}

#[test]
fn any_finger_with_one_print_is_matched_one_to_one() {
    let r = choose_verify_op(Finger::Unknown, false, &[Finger::LeftRing], true);
    assert!(matches!(r, Ok(VerifyChoice::Single(Finger::LeftRing))));
}

#[test]
fn any_finger_with_several_prints_is_identified_when_the_reader_can() {
    let gallery = [Finger::LeftRing, Finger::RightThumb];
    match choose_verify_op(Finger::Unknown, false, &gallery, true) {
        Ok(VerifyChoice::Identify(g)) => assert_eq!(g, gallery.to_vec()),
        other => panic!("unexpected {:?}", other),
    }
    let r = choose_verify_op(Finger::Unknown, false, &gallery, false);
    assert!(matches!(r, Ok(VerifyChoice::Single(Finger::LeftRing))));
}

#[test]
fn the_selected_finger_is_named_or_any() {
    assert_eq!(
        selected_finger_name(&VerifyChoice::Single(Finger::LeftIndex)),
        "left-index-finger"
    );
    assert_eq!(
        selected_finger_name(&VerifyChoice::Identify(vec![Finger::LeftIndex, Finger::RightThumb])),
        "any"
    );
}

#[test]
fn a_single_match_announces_the_finger_before_the_status() {
    let choice = VerifyChoice::Single(Finger::RightThumb);
    let (signals, again) = verify_pump_step(&choice, VerifyReply::Verified(true));
    assert!(!again);
    assert_eq!(
        signals,
        vec![
            VerifySignal::FingerMatched("right-thumb"),
            VerifySignal::Status("verify-match", true)
        ]
    );
}

#[test]
fn an_identification_announces_the_gallery_entry_it_matched() {
    let choice = VerifyChoice::Identify(vec![Finger::LeftThumb, Finger::RightMiddle]);
    let (signals, again) = verify_pump_step(&choice, VerifyReply::Identified(Some(1)));
    assert!(!again);
    assert_eq!(
        signals,
        vec![
            VerifySignal::FingerMatched("right-middle-finger"),
            VerifySignal::Status("verify-match", true)
        ]
    );
    let (signals, _) = verify_pump_step(&choice, VerifyReply::Identified(Some(5)));
    assert_eq!(signals, vec![VerifySignal::Status("verify-no-match", true)]);
}

#[test]
fn a_miss_reports_no_match_and_ends() {
    let choice = VerifyChoice::Single(Finger::RightThumb);
    let (signals, again) = verify_pump_step(&choice, VerifyReply::Verified(false));
    assert!(!again);
    assert_eq!(signals, vec![VerifySignal::Status("verify-no-match", true)]);
    let choice = VerifyChoice::Identify(vec![Finger::LeftThumb]);
    let (signals, _) = verify_pump_step(&choice, VerifyReply::Identified(None));
    assert_eq!(signals, vec![VerifySignal::Status("verify-no-match", true)]);
}

#[test]
fn a_retry_reports_its_status_and_goes_again() {
    let choice = VerifyChoice::Single(Finger::RightThumb);
    let (signals, again) = verify_pump_step(&choice, VerifyReply::Retry(RetryReason::TooShort));
    assert!(again);
    assert_eq!(signals, vec![VerifySignal::Status("verify-swipe-too-short", false)]);
}

#[test]
fn a_failure_reports_its_status_and_ends() {
    let choice = VerifyChoice::Single(Finger::RightThumb);
    let (signals, again) = verify_pump_step(&choice, VerifyReply::Failed(CoreError::Transport));
    assert!(!again);
    assert_eq!(signals, vec![VerifySignal::Status("verify-disconnected", true)]);
    let (signals, again) = verify_pump_step(&choice, VerifyReply::ActorGone);
    assert!(!again);
    assert!(signals.is_empty());
}

#[test]
fn the_final_enroll_status_follows_the_outcome() {
    assert_eq!(enroll_final_status(EnrollReply::Enrolled { saved: true }), Some("enroll-completed"));
    assert_eq!(enroll_final_status(EnrollReply::Enrolled { saved: false }), Some("enroll-failed"));
    assert_eq!(
        enroll_final_status(EnrollReply::Failed(CoreError::DataFull)),
        Some("enroll-data-full")
    );
    assert_eq!(enroll_final_status(EnrollReply::ActorGone), None);
}

#[test]
fn missing_keys_are_filled_and_present_ones_kept() {
    let mut keys = PrintKeys {
        username: None,
        finger: Some(Finger::LeftLittle),
        driver: Some(String::from("virtual_image")),
        device_id: None,
    };
    complete_keys(&mut keys, "alice", Finger::RightThumb, "other", "dev0");
    assert_eq!(keys.username.as_deref(), Some("alice"));
    assert_eq!(keys.finger, Some(Finger::LeftLittle));
    assert_eq!(keys.driver.as_deref(), Some("virtual_image"));
    assert_eq!(keys.device_id.as_deref(), Some("dev0"));
}

#[test]
fn listing_names_the_enrolled_fingers_in_order() {
    let names = enrolled_finger_names(&[Finger::RightIndex, Finger::LeftThumb]).unwrap();
    assert_eq!(names, vec!["right-index-finger", "left-thumb"]);
    match enrolled_finger_names(&[]) {
        Err(DaemonError::NoEnrolledPrints(m)) => assert_eq!(m, "Failed to discover prints"),
        other => panic!("unexpected {:?}", other),
    }
}

#[test]
fn deleting_checks_the_finger_is_enrolled() {
    let fingers = [Finger::RightIndex, Finger::LeftThumb];
    assert!(holds_finger(&fingers, Finger::LeftThumb));
    assert!(!holds_finger(&fingers, Finger::LeftRing));
    assert!(check_finger_enrolled(&fingers, Finger::LeftThumb, "left-thumb").is_ok());
    match check_finger_enrolled(&fingers, Finger::LeftRing, "left-ring-finger") {
        Err(DaemonError::NoEnrolledPrints(m)) => {
            assert_eq!(m, "Fingerprint for finger left-ring-finger is not enrolled")
        }
        other => panic!("unexpected {:?}", other),
    }
    assert!(check_any_enrolled(&fingers).is_ok());
    match check_any_enrolled(&[]) {
        Err(DaemonError::NoEnrolledPrints(m)) => assert_eq!(m, "No fingerprint enrolled"),
        other => panic!("unexpected {:?}", other),
    }
}
