use device_history::state::{
    clear_events, copy_events, copy_snapshots, forget_device, get_prefs, get_snapshot, set_nickname,
    set_tab, set_theme, AppState,
};
use device_history::tracker::startup_failure;
use device_history::types::{DeviceEvent, DeviceSnapshot, KnownDevice, StorageInfo};

fn known(id: &str) -> KnownDevice {
    KnownDevice {
        device_id: id.to_string(),
        name: "n".to_string(),
        vid_pid: String::new(),
        class: String::new(),
        manufacturer: String::new(),
        description: String::new(),
        first_seen: "a".to_string(),
        last_seen: "b".to_string(),
        times_seen: 2,
        currently_connected: true,
        nickname: Some("old".to_string()),
        storage_info: None,
    }
}

fn event(kind: &str) -> DeviceEvent {
    DeviceEvent {
        timestamp: "t".to_string(),
        kind: kind.to_string(),
        name: "n".to_string(),
        vid_pid: None,
        manufacturer: None,
        class: "c".to_string(),
        device_id: "id".to_string(),
    }
}

fn info() -> StorageInfo {
    StorageInfo {
        model: "m".to_string(),
        serial_number: String::new(),
        total_bytes: 0,
        interface_type: String::new(),
        media_type: String::new(),
        firmware: String::new(),
        partition_count: 0,
        status: String::new(),
        volumes: vec![],
    }
}

fn filled() -> AppState {
    let mut s = AppState::new("neon".to_string(), "monitor".to_string());
    s.known_devices.insert("a".to_string(), known("a"));
    s.known_devices.insert("b".to_string(), known("b"));
    s.storage_info.insert("a".to_string(), info());
    s.events.push(event("connect"));
    s.events.push(event("disconnect"));
    s.devices.push(DeviceSnapshot {
        device_id: "a".to_string(),
        name: "A".to_string(),
        vid_pid: None,
        manufacturer: None,
        class: "c".to_string(),
    });
    s
}

#[test]
fn new_state_is_empty() {
    let s = AppState::new("light".to_string(), "known".to_string());
    assert!(s.devices.is_empty());
    assert!(s.events.is_empty());
    assert_eq!(s.known_devices.len(), 0);
    assert_eq!(s.storage_info.len(), 0);
    assert_eq!(s.error, None);
    assert_eq!(s.prefs_theme, "light");
    assert_eq!(s.prefs_tab, "known");
}

#[test]
fn snapshot_copies_what_observers_may_see() {
    let mut s = filled();
    startup_failure(&mut s, "Failed to query USB devices".to_string());
    let snap = get_snapshot(&s);
    assert_eq!(snap.devices.len(), 1);
    assert_eq!(snap.devices[0].name, "A");
    assert_eq!(snap.events.len(), 2);
    assert_eq!(snap.events[1].kind, "disconnect");
    assert_eq!(snap.known_devices.len(), 2);
    assert_eq!(snap.known_devices.get("b").unwrap().times_seen, 2);
    assert_eq!(snap.storage_info.get("a").unwrap().model, "m");
    assert_eq!(snap.error, Some("Failed to query USB devices".to_string()));
    let again = s.snapshot();
    assert_eq!(again.events.len(), 2);
    assert_eq!(copy_events(&s.events).len(), 2);
    assert_eq!(copy_snapshots(&s.devices)[0].device_id, "a");
}

#[test]
fn clear_events_empties_the_log_only() {
    let mut s = filled();
    clear_events(&mut s);
    assert!(s.events.is_empty());
    assert_eq!(s.known_devices.len(), 2);
    assert_eq!(s.devices.len(), 1);
    assert_eq!(s.storage_info.len(), 1);
}

#[test]
fn set_nickname_trims_and_reports_known_devices() {
    let mut s = filled();
    assert!(set_nickname(&mut s, "a", "  My 4TB Seagate  "));
    assert_eq!(s.known_devices.get("a").unwrap().nickname, Some("My 4TB Seagate".to_string()));
    assert_eq!(s.known_devices.get("b").unwrap().nickname, Some("old".to_string()));
    assert!(set_nickname(&mut s, "a", " \t "));
    assert_eq!(s.known_devices.get("a").unwrap().nickname, None);
    assert!(!set_nickname(&mut s, "unknown", "x"));
    assert_eq!(s.known_devices.len(), 2);
}

#[test]
fn forget_device_removes_entry_and_live_data() {
    let mut s = filled();
    forget_device(&mut s, "a");
    assert!(!s.known_devices.contains_key("a"));
    assert!(!s.storage_info.contains_key("a"));
    assert!(s.known_devices.contains_key("b"));
    forget_device(&mut s, "a");
    assert_eq!(s.known_devices.len(), 1);
    assert_eq!(s.events.len(), 2);
}

#[test]
fn cache_document_holds_the_ledger_copy() {
    let s = filled();
    let doc = s.cache_document();
    assert_eq!(doc.version, 2);
    assert_eq!(doc.devices.len(), 2);
    assert_eq!(doc.devices.key_at(0), "a");
    assert_eq!(doc.devices.get("a").unwrap().nickname, Some("old".to_string()));
}

#[test]
fn preferences_are_read_and_set() {
    let mut s = filled();
    let p = get_prefs(&s);
    assert_eq!(p.theme, "neon");
    assert_eq!(p.active_tab, "monitor");
    let p = set_theme(&mut s, "light".to_string());
    assert_eq!(p.theme, "light");
    assert_eq!(p.active_tab, "monitor");
    assert_eq!(s.prefs_theme, "light");
    let p = set_tab(&mut s, "known".to_string());
    assert_eq!(p.theme, "light");
    assert_eq!(p.active_tab, "known");
    assert_eq!(s.prefs_tab, "known");
}
