use device_history::device::is_storage_device;
use device_history::device_map::DeviceMap;
use device_history::inventory::inventory_from_records;
use device_history::ledger::KnownDeviceCache;
use device_history::monitor::Monitor;
use device_history::state::{forget_device, set_nickname, AppState};
use device_history::types::{KnownDevice, StorageInfo, UsbDevice};
use std::collections::{BTreeMap, HashMap};

// A plain model of the tracker over hash maps, against which the library
// is run step by step on generated histories.

struct Model {
    prev: HashMap<String, UsbDevice>,
    known: HashMap<String, KnownDevice>,
    live: HashMap<String, StorageInfo>,
    pending: Vec<(String, u64)>,
    enriched: bool,
}

struct Rng(u64);

impl Rng {
    fn next(&mut self, bound: u64) -> u64 {
        self.0 ^= self.0 << 13;
        self.0 ^= self.0 >> 7;
        self.0 ^= self.0 << 17;
        (self.0 >> 11) % bound
    }
}

const GRACE: u64 = 2_000_000_000;

fn device(id: &str, flavour: u64) -> UsbDevice {
    let class = ["USB", "DiskDrive", "HIDClass", "SCSIAdapter"][(flavour % 4) as usize];
    let name = ["Mouse", "USB Mass Storage Device", "Storage hub", "Keyboard"][((flavour / 4) % 4) as usize];
    UsbDevice {
        Name: if flavour % 7 == 0 { None } else { Some(format!("{} {}", name, flavour % 3)) },
        DeviceID: Some(id.to_string()),
        Description: if flavour % 5 == 0 { None } else { Some("described".to_string()) },
        Manufacturer: if flavour % 2 == 0 { None } else { Some("Maker".to_string()) },
        PNPClass: if flavour % 11 == 0 { None } else { Some(class.to_string()) },
    }
}

fn info(tag: u64) -> StorageInfo {
    StorageInfo {
        model: format!("model {}", tag),
        serial_number: String::new(),
        total_bytes: tag,
        interface_type: String::new(),
        media_type: String::new(),
        firmware: String::new(),
        partition_count: 0,
        status: String::new(),
        volumes: vec![],
    }
}

fn fresh(id: &str, dev: &UsbDevice, now: &str, times_seen: u32) -> KnownDevice {
    KnownDevice {
        device_id: id.to_string(),
        name: dev.display_name().to_string(),
        vid_pid: dev.vid_pid().unwrap_or_default(),
        class: dev.class().to_string(),
        manufacturer: dev.Manufacturer.clone().unwrap_or_default(),
        description: dev.Description.clone().unwrap_or_default(),
        first_seen: now.to_string(),
        last_seen: now.to_string(),
        times_seen,
        currently_connected: true,
        nickname: None,
        storage_info: None,
    }
}

fn refresh(entry: &mut KnownDevice, dev: &UsbDevice) {
    entry.name = dev.display_name().to_string();
    entry.vid_pid = dev.vid_pid().unwrap_or_default();
    entry.class = dev.class().to_string();
    entry.manufacturer = dev.Manufacturer.clone().unwrap_or_default();
    entry.description = dev.Description.clone().unwrap_or_default();
}

impl Model {
    fn start(cache: HashMap<String, KnownDevice>, first: HashMap<String, UsbDevice>, now: &str) -> Model {
        let mut known = cache;
        for dev in known.values_mut() {
            dev.currently_connected = false;
        }
        for (id, dev) in &first {
            let is_new = !known.contains_key(id);
            let entry = known.entry(id.clone()).or_insert_with(|| fresh(id, dev, now, 1));
            if !is_new {
                entry.last_seen = now.to_string();
                entry.currently_connected = true;
                refresh(entry, dev);
            }
        }
        Model { prev: first, known, live: HashMap::new(), pending: Vec::new(), enriched: false }
    }

    fn begin_tick(&mut self, now: u64) -> Vec<String> {
        self.enriched = false;
        let ready: Vec<String> = self
            .pending
            .iter()
            .filter(|(_, at)| now.saturating_sub(*at) >= GRACE)
            .map(|(id, _)| id.clone())
            .collect();
        self.pending.retain(|(_, at)| now.saturating_sub(*at) < GRACE);
        ready
    }

    fn record(&mut self, id: &str, found: StorageInfo) {
        self.live.insert(id.to_string(), found.clone());
        if let Some(kd) = self.known.get_mut(id) {
            kd.storage_info = Some(found);
        }
        self.enriched = true;
    }

    // Returns (disconnected ids, connected ids, persist, publish).
    fn tick(
        &mut self,
        current: HashMap<String, UsbDevice>,
        date_time: &str,
        now: u64,
        external: &HashMap<String, KnownDevice>,
    ) -> (Vec<String>, Vec<String>, bool, bool) {
        let mut gone: Vec<String> = self.prev.keys().filter(|k| !current.contains_key(*k)).cloned().collect();
        let mut come: Vec<String> = current.keys().filter(|k| !self.prev.contains_key(*k)).cloned().collect();
        gone.sort();
        come.sort();
        let mut persist = !gone.is_empty() || !come.is_empty();
        for id in &gone {
            if let Some(entry) = self.known.get_mut(id) {
                entry.last_seen = date_time.to_string();
                entry.currently_connected = false;
            }
            self.live.remove(id);
        }
        // The observers' changes go by what the ledger held before this
        // tick's connects.
        let ours: Vec<String> = self.known.keys().cloned().collect();
        for id in &ours {
            if !external.contains_key(id) {
                self.known.remove(id);
                self.live.remove(id);
                persist = true;
            }
        }
        for (id, theirs) in external {
            if let Some(mine) = self.known.get_mut(id) {
                if mine.nickname != theirs.nickname {
                    mine.nickname = theirs.nickname.clone();
                    persist = true;
                }
            }
        }
        for id in &come {
            let dev = &current[id];
            let is_new = !self.known.contains_key(id);
            let entry = self.known.entry(id.clone()).or_insert_with(|| fresh(id, dev, date_time, 0));
            entry.times_seen += 1;
            entry.last_seen = date_time.to_string();
            entry.currently_connected = true;
            if !is_new {
                refresh(entry, dev);
            }
        }
        for id in &come {
            if is_storage_device(&current[id]) {
                self.pending.push((id.clone(), now));
            }
        }
        let publish = !gone.is_empty() || !come.is_empty() || self.enriched || self.prev.len() != current.len();
        self.prev = current;
        (gone, come, persist, publish)
    }
}

fn facts(d: &KnownDevice) -> String {
    format!(
        "{}|{}|{}|{}|{}|{}|{}|{}|{}|{}|{:?}|{:?}",
        d.device_id,
        d.name,
        d.vid_pid,
        d.class,
        d.manufacturer,
        d.description,
        d.first_seen,
        d.last_seen,
        d.times_seen,
        d.currently_connected,
        d.nickname,
        d.storage_info.as_ref().map(|s| s.model.clone())
    )
}

fn ledger_facts(m: &DeviceMap<KnownDevice>) -> BTreeMap<String, String> {
    (0..m.len()).map(|i| (m.key_at(i).clone(), facts(m.value_at(i)))).collect()
}

fn model_facts(m: &HashMap<String, KnownDevice>) -> BTreeMap<String, String> {
    m.iter().map(|(k, d)| (k.clone(), facts(d))).collect()
}

fn live_facts(m: &DeviceMap<StorageInfo>) -> BTreeMap<String, String> {
    (0..m.len()).map(|i| (m.key_at(i).clone(), m.value_at(i).model.clone())).collect()
}

fn as_hash(m: &DeviceMap<KnownDevice>) -> HashMap<String, KnownDevice> {
    (0..m.len()).map(|i| (m.key_at(i).clone(), m.value_at(i).clone())).collect()
}

fn pick_inventory(rng: &mut Rng, round: u64) -> Vec<UsbDevice> {
    let mut out = Vec::new();
    for k in 0..6u64 {
        if rng.next(3) != 0 {
            out.push(device(&format!("USB\\VID_000{}&PID_00{}A\\{}", k, k, k), k * 5 + round % 2));
        }
    }
    out
}

fn run_history(seed: u64) {
    let mut rng = Rng(seed | 1);
    let mut cache = KnownDeviceCache::new();
    let mut stored: HashMap<String, KnownDevice> = HashMap::new();
    for k in 0..3u64 {
        if rng.next(2) == 0 {
            let id = format!("USB\\VID_000{}&PID_00{}A\\{}", k, k, k);
            let mut d = fresh(&id, &device(&id, k), "2023-12-31 00:00:00", 1 + k as u32);
            d.currently_connected = rng.next(2) == 0;
            cache.devices.insert(id.clone(), d.clone());
            stored.insert(id, d);
        }
    }
    let first = pick_inventory(&mut rng, 0);
    let first_map: HashMap<String, UsbDevice> =
        first.iter().map(|d| (d.DeviceID.clone().unwrap(), d.clone())).collect();
    let mut model = Model::start(stored, first_map, "2024-01-01 00:00:00");
    let mut lib = Monitor::start(cache, inventory_from_records(&first), "2024-01-01 00:00:00");
    assert_eq!(ledger_facts(&lib.ledger.devices), model_facts(&model.known), "seed {} at start", seed);
    let mut state = AppState::new(String::new(), String::new());
    lib.publish(&mut state, vec![]);

    let mut now: u64 = 0;
    for round in 1..40u64 {
        now += 500_000_000 + rng.next(3) * 250_000_000;
        // Observers act now and then.
        match rng.next(6) {
            0 => {
                let id = format!("USB\\VID_000{}&PID_00{}A\\{}", round % 6, round % 6, round % 6);
                set_nickname(&mut state, &id, ["  pet name ", "", "x"][(round % 3) as usize]);
            }
            1 => {
                let id = format!("USB\\VID_000{}&PID_00{}A\\{}", round % 6, round % 6, round % 6);
                forget_device(&mut state, &id);
            }
            _ => {}
        }
        let mut ready = lib.begin_tick(now);
        let mut model_ready = model.begin_tick(now);
        ready.sort();
        model_ready.sort();
        assert_eq!(ready, model_ready, "seed {} round {} due lookups", seed, round);
        for id in &ready {
            if rng.next(2) == 0 {
                lib.record_enrichment(id, info(round));
                model.record(id, info(round));
            }
        }
        if rng.next(8) == 0 {
            // The inventory query fails: the tick is skipped.
            continue;
        }
        let current = pick_inventory(&mut rng, round);
        let current_map: HashMap<String, UsbDevice> =
            current.iter().map(|d| (d.DeviceID.clone().unwrap(), d.clone())).collect();
        let external = as_hash(&state.known_devices);
        let stamp = format!("2024-01-01 00:{:02}:{:02}", round / 60, round % 60);
        let inventory = inventory_from_records(&current);
        assert!(lib.can_tick(&inventory, &state.known_devices));
        let out = lib.tick(inventory, "tod", &stamp, now, &state.known_devices);
        let (gone, come, persist, publish) = model.tick(current_map, &stamp, now, &external);

        let mut lib_gone: Vec<String> =
            out.events.iter().filter(|e| e.kind == "disconnect").map(|e| e.device_id.clone()).collect();
        let mut lib_come: Vec<String> =
            out.events.iter().filter(|e| e.kind == "connect").map(|e| e.device_id.clone()).collect();
        let first_connect = out.events.iter().position(|e| e.kind == "connect").unwrap_or(out.events.len());
        assert!(out.events[first_connect..].iter().all(|e| e.kind == "connect"));
        lib_gone.sort();
        lib_come.sort();
        assert_eq!(lib_gone, gone, "seed {} round {} disconnects", seed, round);
        assert_eq!(lib_come, come, "seed {} round {} connects", seed, round);
        assert_eq!(out.persist, persist, "seed {} round {} persist", seed, round);
        assert_eq!(out.publish, publish, "seed {} round {} publish", seed, round);
        assert_eq!(ledger_facts(&lib.ledger.devices), model_facts(&model.known), "seed {} round {} ledger", seed, round);
        let model_live: BTreeMap<String, String> =
            model.live.iter().map(|(k, v)| (k.clone(), v.model.clone())).collect();
        assert_eq!(live_facts(&lib.live), model_live, "seed {} round {} live", seed, round);
        let mut lib_pending: Vec<(String, u64)> =
            lib.pending.iter().map(|p| (p.device_id.clone(), p.scheduled_at)).collect();
        let mut model_pending = model.pending.clone();
        lib_pending.sort();
        model_pending.sort();
        assert_eq!(lib_pending, model_pending, "seed {} round {} queue", seed, round);
        if out.publish {
            lib.publish(&mut state, out.events);
        }
    }
}

#[test]
fn tracker_agrees_with_a_plain_model_on_generated_histories() {
    for seed in 1..200u64 {
        run_history(seed * 7919);
    }
}
