use fprint::sleep::{inhibitor_request, sleep_step, SleepAction};
use fprint::error::DaemonError;
use fprint::manager::{device_object_path, device_object_paths, manager_path, Manager};
use fprint::text::decimal_string;

#[test]
fn numbers_are_spelled_in_decimal() {
    assert_eq!(decimal_string(0), "0");
    assert_eq!(decimal_string(9), "9");
    assert_eq!(decimal_string(10), "10");
    assert_eq!(decimal_string(907), "907");
    assert_eq!(decimal_string(usize::MAX), usize::MAX.to_string());
}

#[test]
fn readers_are_numbered_under_the_device_prefix() {
    assert_eq!(manager_path(), "/net/reactivated/Fprint/Manager");
    assert_eq!(device_object_path(0), "/net/reactivated/Fprint/Device/0");
    assert_eq!(device_object_path(12), "/net/reactivated/Fprint/Device/12");
    assert_eq!(
        device_object_paths(2),
        vec![
            "/net/reactivated/Fprint/Device/0".to_string(),
            "/net/reactivated/Fprint/Device/1".to_string()
        ]
    );
    assert!(device_object_paths(0).is_empty());
}

#[test]
fn the_default_device_is_the_last_discovered() {
    let m = Manager::new(device_object_paths(3));
    assert_eq!(m.get_devices().len(), 3);
    assert_eq!(m.get_default_device().unwrap(), "/net/reactivated/Fprint/Device/2");
}

#[test]
fn no_default_device_without_readers() {
    let m = Manager::new(Vec::new());
    assert!(m.get_devices().is_empty());
    match m.get_default_device() {
        Err(DaemonError::NoSuchDevice(msg)) => assert_eq!(msg, "No devices available"),
        other => panic!("unexpected {:?}", other),
    }
}

#[test]
fn sleep_releases_the_inhibitor_only_after_suspending_and_rearms_on_resume() {
    assert_eq!(sleep_step(true, true), (SleepAction::SuspendThenRelease, false));
    assert_eq!(sleep_step(false, true), (SleepAction::ResumeThenRearm, true));
    assert_eq!(sleep_step(false, false), (SleepAction::ResumeThenRearm, false));
    assert_eq!(
        inhibitor_request(),
        ("sleep", "net.reactivated.Fprint", "Suspend fingerprint readers", "delay")
    );
}
