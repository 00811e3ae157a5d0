use fprint::device::PrintKeys;
use fprint::error::DaemonError;
use fprint::names::Finger;
use fprint::storage::{
    debug_quoted, fingers_from_names, finger_file_name, join_component, load_accepts, save_keys,
    temp_file_name, Store,
};

fn internal(r: Result<impl std::fmt::Debug, DaemonError>) -> String {
    match r {
        Err(DaemonError::Internal(m)) => m,
        other => panic!("unexpected {:?}", other),
    }
}

#[test]
fn a_join_adds_one_separator() {
    assert_eq!(join_component("/var/lib/fprint", "alice"), "/var/lib/fprint/alice");
    assert_eq!(join_component("/var/lib/fprint/", "alice"), "/var/lib/fprint/alice");
    assert_eq!(join_component("", "alice"), "alice");
}

#[test]
fn prints_live_under_user_driver_and_reader() {
    let store = Store::with_root("/var/lib/fprint".to_string());
    assert_eq!(
        store.dir("alice", "virtual_image", "dev0").unwrap(),
        "/var/lib/fprint/alice/virtual_image/dev0"
    );
    assert_eq!(
        store.print_path("alice", "virtual_image", "dev0", Finger::RightIndex).unwrap(),
        "/var/lib/fprint/alice/virtual_image/dev0/7"
    );
    assert_eq!(
        store.print_path("alice", "virtual_image", "dev0", Finger::RightLittle).unwrap(),
        "/var/lib/fprint/alice/virtual_image/dev0/a"
    );
    assert_eq!(finger_file_name(Finger::LeftThumb), "1");
}

#[test]
fn hostile_components_never_become_paths() {
    let store = Store::with_root("/var/lib/fprint".to_string());
    for bad in ["/tmp/pwned", "../../../../tmp/pwned", "a/../../b", "..", ".", "", "a/b", "al\0ice"] {
        let msg = internal(store.dir(bad, "virtual_image", "dev0"));
        assert_eq!(msg, format!("illegal path component {:?}", bad));
        assert!(store.print_path("alice", bad, "dev0", Finger::LeftThumb).is_err());
        assert!(store.prune_dirs("alice", "virtual_image", bad).is_err());
    }
}

#[test]
fn pruning_stops_below_the_root() {
    let store = Store::with_root("/var/lib/fprint".to_string());
    assert_eq!(
        store.prune_dirs("tester", "virtual_image", "virtual_image").unwrap(),
        vec![
            "/var/lib/fprint/tester/virtual_image/virtual_image".to_string(),
            "/var/lib/fprint/tester/virtual_image".to_string(),
            "/var/lib/fprint/tester".to_string(),
        ]
    );
}

#[test]
fn a_stale_temp_name_is_not_a_finger() {
    let tmp = temp_file_name("7");
    assert_eq!(tmp, ".7.tmp");
    let names = ["7", tmp.as_str(), "0", "b", "3", "12", "x"];
    assert_eq!(fingers_from_names(&names), vec![Finger::RightIndex, Finger::LeftMiddle]);
}

#[test]
fn a_print_needs_every_storage_key() {
    let mut keys = PrintKeys {
        username: Some("alice".to_string()),
        finger: Some(Finger::RightIndex),
        driver: Some("virtual_image".to_string()),
        device_id: Some("dev0".to_string()),
    };
    assert_eq!(
        save_keys(&keys).unwrap(),
        ("alice", "virtual_image", "dev0", Finger::RightIndex)
    );
    keys.finger = None;
    assert_eq!(internal(save_keys(&keys)), "print has no finger");
    keys.device_id = None;
    assert_eq!(internal(save_keys(&keys)), "print has no device id");
    keys.driver = None;
    assert_eq!(internal(save_keys(&keys)), "print has no driver");
    keys.username = None;
    assert_eq!(internal(save_keys(&keys)), "print has no username");
}

#[test]
fn a_loaded_print_must_match_finger_user_and_driver() {
    let ok = load_accepts(Some(Finger::RightIndex), Some("alice"), true, Finger::RightIndex, "alice");
    assert!(ok);
    assert!(!load_accepts(Some(Finger::LeftThumb), Some("alice"), true, Finger::RightIndex, "alice"));
    assert!(!load_accepts(Some(Finger::RightIndex), Some("mallory"), true, Finger::RightIndex, "alice"));
    assert!(!load_accepts(Some(Finger::RightIndex), None, true, Finger::RightIndex, "alice"));
    assert!(!load_accepts(Some(Finger::RightIndex), Some("alice"), false, Finger::RightIndex, "alice"));
    assert!(!load_accepts(None, Some("alice"), true, Finger::RightIndex, "alice"));
}

#[test]
fn components_are_quoted_as_their_debug_form() {
    for s in ["plain", "tab\there", "nul\0", "quote\"", "back\\slash", "bell\u{7}", "esc\u{1b}", "del\u{7f}", "crlf\r\n", "caf\u{e9}"] {
        assert_eq!(debug_quoted(s), format!("{:?}", s));
    }
}
