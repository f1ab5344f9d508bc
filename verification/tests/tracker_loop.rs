use device_history::device_map::DeviceMap;
use device_history::inventory::inventory_from_records;
use device_history::ledger::KnownDeviceCache;
use device_history::state::AppState;
use device_history::tracker::{
    startup_failure, LoopAction, LoopEvent, Phase, StepResult, Tracker, POLL_INTERVAL_MILLIS,
};
use device_history::types::{KnownDevice, StorageInfo, UsbDevice};

const SEC: u64 = 1_000_000_000;

fn device(id: &str, name: &str, class: &str) -> UsbDevice {
    UsbDevice {
        Name: Some(name.to_string()),
        DeviceID: Some(id.to_string()),
        Description: None,
        Manufacturer: None,
        PNPClass: Some(class.to_string()),
    }
}

fn snapshot(devices: Vec<UsbDevice>) -> DeviceMap<UsbDevice> {
    inventory_from_records(&devices)
}

fn info(model: &str) -> StorageInfo {
    StorageInfo {
        model: model.to_string(),
        serial_number: String::new(),
        total_bytes: 0,
        interface_type: String::new(),
        media_type: String::new(),
        firmware: String::new(),
        partition_count: 0,
        status: String::new(),
        volumes: vec![],
    }
}

fn polled(inventory: Option<DeviceMap<UsbDevice>>, now: u64, external: &DeviceMap<KnownDevice>) -> LoopEvent {
    LoopEvent::Polled {
        inventory,
        time_of_day: "12:00:00".to_string(),
        date_time: "2024-05-01 12:00:00".to_string(),
        now,
        external: external.duplicate(),
    }
}

fn lookup_id(r: &StepResult) -> String {
    match &r.action {
        LoopAction::Lookup { device_id } => device_id.clone(),
        other => panic!("expected a lookup, got {:?}", other),
    }
}

fn apply(tracker: &Tracker, state: &mut AppState, r: StepResult) {
    if r.publish {
        tracker.monitor.publish(state, r.events);
    }
}

#[test]
fn poll_interval_is_half_a_second() {
    assert_eq!(POLL_INTERVAL_MILLIS, 500);
}

#[test]
fn start_without_storage_devices_publishes_and_sleeps() {
    let (t, r) = Tracker::start(KnownDeviceCache::new(), snapshot(vec![device("m", "Mouse", "HIDClass")]), "d");
    assert_eq!(t.phase, Phase::Sleeping);
    assert!(matches!(r.action, LoopAction::Sleep));
    assert!(r.persist);
    assert!(r.publish);
    assert!(r.events.is_empty());
    assert!(matches!(t.awaited(), LoopAction::Sleep));
}

#[test]
fn start_looks_up_storage_devices_before_publishing() {
    let (mut t, r) = Tracker::start(
        KnownDeviceCache::new(),
        snapshot(vec![
            device("d1", "Disk one", "DiskDrive"),
            device("m", "Mouse", "HIDClass"),
            device("d2", "Disk two", "DiskDrive"),
        ]),
        "d",
    );
    assert_eq!(t.phase, Phase::StartupLookup);
    assert_eq!(lookup_id(&r), "d1");
    assert!(r.persist);
    assert!(!r.publish);

    let r = t.step(LoopEvent::Looked { info: Some(info("WD")) });
    assert_eq!(t.phase, Phase::StartupLookup);
    assert_eq!(lookup_id(&r), "d2");
    assert!(r.persist);
    assert!(!r.publish);
    assert_eq!(t.monitor.live.get("d1").unwrap().model, "WD");
    assert_eq!(t.monitor.ledger.devices.get("d1").unwrap().storage_info.as_ref().unwrap().model, "WD");

    let r = t.step(LoopEvent::Looked { info: None });
    assert_eq!(t.phase, Phase::Sleeping);
    assert!(matches!(r.action, LoopAction::Sleep));
    assert!(!r.persist);
    assert!(r.publish);
    assert!(!t.monitor.live.contains_key("d2"));
}

#[test]
fn a_tick_drains_due_lookups_before_it_polls() {
    let mut cache = KnownDeviceCache::new();
    for id in ["d1", "d2"] {
        cache.devices.insert(
            id.to_string(),
            KnownDevice {
                device_id: id.to_string(),
                name: String::new(),
                vid_pid: String::new(),
                class: String::new(),
                manufacturer: String::new(),
                description: String::new(),
                first_seen: "a".to_string(),
                last_seen: "a".to_string(),
                times_seen: 1,
                currently_connected: false,
                nickname: None,
                storage_info: None,
            },
        );
    }
    let (mut t, r) = Tracker::start(cache, snapshot(vec![]), "d");
    let mut state = AppState::new(String::new(), String::new());
    apply(&t, &mut state, r);

    // Tick 1: both disks connect.
    let r = t.step(LoopEvent::Woke { now: SEC });
    assert_eq!(t.phase, Phase::Polling);
    assert!(matches!(r.action, LoopAction::Poll));
    let both = vec![device("d1", "Disk one", "DiskDrive"), device("d2", "Disk two", "DiskDrive")];
    let r = t.step(polled(Some(snapshot(both.clone())), SEC, &state.known_devices));
    assert_eq!(t.phase, Phase::Sleeping);
    assert!(matches!(r.action, LoopAction::Sleep));
    assert_eq!(r.events.len(), 2);
    assert!(r.persist && r.publish);
    apply(&t, &mut state, r);
    assert_eq!(state.events.len(), 2);

    // Tick 2, inside the grace period: straight to the poll.
    let r = t.step(LoopEvent::Woke { now: 2 * SEC });
    assert!(matches!(r.action, LoopAction::Poll));
    let r = t.step(polled(Some(snapshot(both.clone())), 2 * SEC, &state.known_devices));
    assert!(!r.publish && !r.persist);

    // Tick 3, past the grace period: lookups first, in queue order.
    let r = t.step(LoopEvent::Woke { now: 3 * SEC });
    assert_eq!(t.phase, Phase::TickLookup);
    assert_eq!(lookup_id(&r), "d1");
    let r = t.step(LoopEvent::Looked { info: None });
    assert_eq!(lookup_id(&r), "d2");
    assert!(!r.persist);
    let r = t.step(LoopEvent::Looked { info: Some(info("Samsung")) });
    assert_eq!(t.phase, Phase::Polling);
    assert!(matches!(r.action, LoopAction::Poll));
    assert!(r.persist);
    assert!(!r.publish);
    let r = t.step(polled(Some(snapshot(both)), 3 * SEC, &state.known_devices));
    assert!(r.events.is_empty());
    assert!(r.publish);
    apply(&t, &mut state, r);
    assert!(state.known_devices.get("d1").unwrap().storage_info.is_none());
    assert_eq!(state.known_devices.get("d2").unwrap().storage_info.as_ref().unwrap().model, "Samsung");
    assert_eq!(state.storage_info.get("d2").unwrap().model, "Samsung");
    assert_eq!(state.events.len(), 2);
}

#[test]
fn a_failed_poll_skips_the_tick() {
    let (mut t, r) = Tracker::start(KnownDeviceCache::new(), snapshot(vec![device("m", "Mouse", "HIDClass")]), "d");
    let mut state = AppState::new(String::new(), String::new());
    apply(&t, &mut state, r);
    t.step(LoopEvent::Woke { now: SEC });
    let r = t.step(polled(None, SEC, &state.known_devices));
    assert_eq!(t.phase, Phase::Sleeping);
    assert!(matches!(r.action, LoopAction::Sleep));
    assert!(!r.persist && !r.publish && r.events.is_empty());
    assert!(t.monitor.prev.contains_key("m"));
    assert!(t.monitor.ledger.devices.get("m").unwrap().currently_connected);
    // The next tick still sees the device as attached before: no event.
    t.step(LoopEvent::Woke { now: 2 * SEC });
    let r = t.step(polled(Some(snapshot(vec![device("m", "Mouse", "HIDClass")])), 2 * SEC, &state.known_devices));
    assert!(r.events.is_empty());
}

#[test]
fn an_answer_that_is_not_awaited_changes_nothing() {
    let (mut t, _) = Tracker::start(KnownDeviceCache::new(), snapshot(vec![device("d", "Disk", "DiskDrive")]), "d");
    assert_eq!(t.phase, Phase::StartupLookup);
    let r = t.step(LoopEvent::Woke { now: 5 });
    assert_eq!(t.phase, Phase::StartupLookup);
    assert_eq!(lookup_id(&r), "d");
    assert!(!r.persist && !r.publish);
    let external: DeviceMap<KnownDevice> = DeviceMap::new();
    let r = t.step(polled(Some(snapshot(vec![])), 5, &external));
    assert_eq!(t.phase, Phase::StartupLookup);
    assert_eq!(lookup_id(&r), "d");
    assert!(t.monitor.prev.contains_key("d"));
    t.step(LoopEvent::Looked { info: None });
    assert_eq!(t.phase, Phase::Sleeping);
    let r = t.step(LoopEvent::Looked { info: Some(info("X")) });
    assert_eq!(t.phase, Phase::Sleeping);
    assert!(matches!(r.action, LoopAction::Sleep));
    assert!(t.monitor.live.len() == 0);
}

#[test]
fn a_missing_first_snapshot_is_fatal() {
    let mut state = AppState::new("neon".to_string(), "monitor".to_string());
    let launched = Tracker::launch(KnownDeviceCache::new(), None, "d", &mut state);
    assert!(launched.is_none());
    assert_eq!(state.error, Some("Failed to query USB devices".to_string()));
    assert_eq!(state.known_devices.len(), 0);
    assert!(state.devices.is_empty());
    assert!(state.events.is_empty());
    assert_eq!(state.prefs_theme, "neon");
}

#[test]
fn a_first_snapshot_starts_the_loop() {
    let mut state = AppState::new(String::new(), String::new());
    let launched = Tracker::launch(
        KnownDeviceCache::new(),
        Some(snapshot(vec![device("m", "Mouse", "HIDClass")])),
        "2024-05-01 10:00:00",
        &mut state,
    );
    let (tracker, result) = launched.unwrap();
    assert_eq!(state.error, None);
    assert_eq!(tracker.phase, Phase::Sleeping);
    assert!(result.persist && result.publish);
    assert_eq!(tracker.monitor.ledger.devices.get("m").unwrap().first_seen, "2024-05-01 10:00:00");
}

#[test]
fn a_startup_failure_shows_its_message_and_changes_nothing_else() {
    let mut state = AppState::new("light".to_string(), "known".to_string());
    startup_failure(&mut state, "COM init failed: access denied".to_string());
    assert_eq!(state.error, Some("COM init failed: access denied".to_string()));
    assert_eq!(state.known_devices.len(), 0);
    assert_eq!(state.prefs_theme, "light");
    assert_eq!(state.prefs_tab, "known");
}

#[test]
fn a_device_new_to_the_ledger_stays_over_the_loop() {
    let (mut t, r) = Tracker::start(KnownDeviceCache::new(), snapshot(vec![]), "d");
    let mut state = AppState::new(String::new(), String::new());
    apply(&t, &mut state, r);
    t.step(LoopEvent::Woke { now: SEC });
    let r = t.step(polled(Some(snapshot(vec![device("n", "New disk", "DiskDrive")])), SEC, &state.known_devices));
    assert!(r.persist && r.publish);
    apply(&t, &mut state, r);
    assert_eq!(state.known_devices.get("n").unwrap().times_seen, 1);
    assert!(state.known_devices.get("n").unwrap().storage_info.is_none());
    let r = t.step(LoopEvent::Woke { now: 3 * SEC });
    assert_eq!(lookup_id(&r), "n");
    t.step(LoopEvent::Looked { info: Some(info("WD Elements")) });
    let r = t.step(polled(Some(snapshot(vec![device("n", "New disk", "DiskDrive")])), 3 * SEC, &state.known_devices));
    assert!(r.publish);
    apply(&t, &mut state, r);
    assert_eq!(state.known_devices.get("n").unwrap().storage_info.as_ref().unwrap().model, "WD Elements");
    assert_eq!(state.storage_info.get("n").unwrap().model, "WD Elements");
}
