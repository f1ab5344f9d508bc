use device_history::inventory::inventory_from_records;
use device_history::listing::{list_devices, sort_by_name};
use device_history::types::{DeviceSnapshot, UsbDevice};

fn entry(id: &str, name: &str) -> DeviceSnapshot {
    DeviceSnapshot {
        device_id: id.to_string(),
        name: name.to_string(),
        vid_pid: None,
        manufacturer: None,
        class: "c".to_string(),
    }
}

fn ids(list: &Vec<DeviceSnapshot>) -> Vec<&str> {
    list.iter().map(|e| e.device_id.as_str()).collect()
}

#[test]
fn sort_ignores_case() {
    let list = vec![entry("1", "zebra"), entry("2", "Apple"), entry("3", "mango"), entry("4", "BANANA")];
    assert_eq!(ids(&sort_by_name(&list)), vec!["2", "4", "3", "1"]);
}

#[test]
fn sort_is_stable() {
    let list = vec![entry("1", "hub"), entry("2", "HUB"), entry("3", "Hub"), entry("4", "a"), entry("5", "hUb")];
    assert_eq!(ids(&sort_by_name(&list)), vec!["4", "1", "2", "3", "5"]);
}

#[test]
fn sort_agrees_with_the_standard_stable_sort() {
    let names = [
        "USB Composite Device", "usb composite device", "Generic USB Hub", "", "\u{c9}cran",
        "ecran", "Zip", "zip", "USB Root Hub (USB 3.0)", "HID-compliant mouse", "hid-compliant mouse",
        "\u{130}stanbul", "I", "i",
    ];
    let mut seed: u64 = 12345;
    for round in 0..50 {
        let mut list = Vec::new();
        for k in 0..(round % 13) {
            seed = seed.wrapping_mul(6364136223846793005).wrapping_add(1442695040888963407);
            let name = names[(seed >> 33) as usize % names.len()];
            list.push(entry(&format!("{}", k), name));
        }
        let mut expected: Vec<DeviceSnapshot> = list.iter().map(|e| entry(&e.device_id, &e.name)).collect();
        expected.sort_by(|a, b| a.name.to_lowercase().cmp(&b.name.to_lowercase()));
        assert_eq!(ids(&sort_by_name(&list)), ids(&expected));
    }
}

#[test]
fn device_list_is_sorted_by_display_name() {
    let inv = inventory_from_records(&vec![
        UsbDevice {
            Name: Some("webcam".to_string()),
            DeviceID: Some("USB\\VID_0001&PID_0002\\1".to_string()),
            Description: None,
            Manufacturer: Some("Cam Corp".to_string()),
            PNPClass: Some("Camera".to_string()),
        },
        UsbDevice {
            Name: None,
            DeviceID: Some("USB\\2".to_string()),
            Description: Some("Audio Device".to_string()),
            Manufacturer: None,
            PNPClass: None,
        },
        UsbDevice {
            Name: None,
            DeviceID: Some("USB\\3".to_string()),
            Description: None,
            Manufacturer: None,
            PNPClass: None,
        },
    ]);
    let list = list_devices(&inv);
    assert_eq!(ids(&list), vec!["USB\\2", "USB\\3", "USB\\VID_0001&PID_0002\\1"]);
    assert_eq!(list[0].name, "Audio Device");
    assert_eq!(list[1].name, "Unknown Device");
    assert_eq!(list[1].class, "?");
    assert_eq!(list[2].vid_pid, Some("0001:0002".to_string()));
    assert_eq!(list[2].manufacturer, Some("Cam Corp".to_string()));
}

#[test]
fn records_without_identifier_are_left_out_and_the_last_record_wins() {
    let inv = inventory_from_records(&vec![
        UsbDevice { Name: Some("first".to_string()), DeviceID: Some("x".to_string()), Description: None, Manufacturer: None, PNPClass: None },
        UsbDevice { Name: Some("nameless".to_string()), DeviceID: None, Description: None, Manufacturer: None, PNPClass: None },
        UsbDevice { Name: Some("y".to_string()), DeviceID: Some("y".to_string()), Description: None, Manufacturer: None, PNPClass: None },
        UsbDevice { Name: Some("second".to_string()), DeviceID: Some("x".to_string()), Description: None, Manufacturer: None, PNPClass: None },
    ]);
    assert_eq!(inv.len(), 2);
    assert_eq!(inv.key_at(0), "x");
    assert_eq!(inv.key_at(1), "y");
    assert_eq!(inv.get("x").unwrap().display_name(), "second");
}
