use device_history::device::{event_for, is_storage_device, usb_to_snapshot};
use device_history::types::UsbDevice;

fn device(name: Option<&str>, id: Option<&str>, class: Option<&str>) -> UsbDevice {
    UsbDevice {
        Name: name.map(|s| s.to_string()),
        DeviceID: id.map(|s| s.to_string()),
        Description: None,
        Manufacturer: None,
        PNPClass: class.map(|s| s.to_string()),
    }
}

fn vid_pid_by_bytes(id: &str) -> Option<String> {
    let vid_start = id.find("VID_").map(|i| i + 4)?;
    let vid = id.get(vid_start..vid_start + 4)?;
    let pid_start = id.find("PID_").map(|i| i + 4)?;
    let pid = id.get(pid_start..pid_start + 4)?;
    Some(format!("{}:{}", vid, pid))
}

#[test]
fn display_name_prefers_name_then_description() {
    let mut d = device(Some("Mouse"), None, None);
    d.Description = Some("HID device".to_string());
    assert_eq!(d.display_name(), "Mouse");
    d.Name = None;
    assert_eq!(d.display_name(), "HID device");
    d.Description = None;
    assert_eq!(d.display_name(), "Unknown Device");
}

#[test]
fn class_defaults_to_a_question_mark() {
    assert_eq!(device(None, None, Some("USB")).class(), "USB");
    assert_eq!(device(None, None, None).class(), "?");
}

#[test]
fn vid_pid_reads_both_codes() {
    let d = device(None, Some("USB\\VID_046D&PID_C52B\\5&2A1B"), None);
    assert_eq!(d.vid_pid(), Some("046D:C52B".to_string()));
}

#[test]
fn vid_pid_is_absent_without_markers() {
    assert_eq!(device(None, None, None).vid_pid(), None);
    assert_eq!(device(None, Some("USB\\ROOT_HUB30\\4&1"), None).vid_pid(), None);
    assert_eq!(device(None, Some("USB\\VID_046D\\1"), None).vid_pid(), None);
    assert_eq!(device(None, Some("USB\\PID_046D\\1"), None).vid_pid(), None);
    assert_eq!(device(None, Some("USB\\VID_04&PID_C52B"), None).vid_pid(), Some("04&P:C52B".to_string()));
    assert_eq!(device(None, Some("USB\\VID_046D&PID_C5"), None).vid_pid(), None);
}

#[test]
fn vid_pid_agrees_with_byte_ranges() {
    let ids = [
        "USB\\VID_046D&PID_C52B\\5&2A1B",
        "VID_12\u{e9}4&PID_ABCD",
        "VID_123\u{e9}&PID_ABCD",
        "PID_0001VID_0002",
        "VID_VID_PID_PID_",
        "\u{20ac}VID_\u{20ac}1PID_1234",
        "VID_1234PID_12\u{10348}",
        "VID_1234PID_\u{10348}",
        "",
        "VID_",
        "vid_1234&pid_5678",
    ];
    for id in ids {
        assert_eq!(device(None, Some(id), None).vid_pid(), vid_pid_by_bytes(id), "{:?}", id);
    }
}

#[test]
fn storage_devices_are_told_by_class_and_name() {
    assert!(is_storage_device(&device(Some("Anything"), None, Some("SCSIAdapter"))));
    assert!(is_storage_device(&device(None, None, Some("DiskDrive"))));
    assert!(is_storage_device(&device(Some("USB Storage Thing"), None, Some("USB"))));
    assert!(is_storage_device(&device(Some("USB Mass Storage Device"), None, None)));
    assert!(is_storage_device(&device(Some("Mass Storage"), None, Some("HIDClass"))));
    assert!(!is_storage_device(&device(Some("Storage Thing"), None, Some("HIDClass"))));
    assert!(!is_storage_device(&device(Some("Keyboard"), None, Some("USB"))));
    assert!(!is_storage_device(&device(Some("mass storage"), None, None)));
    assert!(!is_storage_device(&device(None, None, None)));
}

#[test]
fn snapshot_carries_the_display_attributes() {
    let mut d = device(None, Some("ignored"), Some("HIDClass"));
    d.Description = Some("Pointer".to_string());
    d.Manufacturer = Some("Acme".to_string());
    let s = usb_to_snapshot("USB\\VID_0001&PID_0002\\9", &d);
    assert_eq!(s.device_id, "USB\\VID_0001&PID_0002\\9");
    assert_eq!(s.name, "Pointer");
    assert_eq!(s.vid_pid, None);
    assert_eq!(s.manufacturer, Some("Acme".to_string()));
    assert_eq!(s.class, "HIDClass");
}

#[test]
fn event_carries_kind_time_and_attributes() {
    let d = device(Some("Stick"), Some("USB\\VID_0951&PID_1666\\X"), None);
    let e = event_for("connect", "09:15:00", "USB\\VID_0951&PID_1666\\X", &d);
    assert_eq!(e.kind, "connect");
    assert_eq!(e.timestamp, "09:15:00");
    assert_eq!(e.name, "Stick");
    assert_eq!(e.vid_pid, Some("0951:1666".to_string()));
    assert_eq!(e.manufacturer, None);
    assert_eq!(e.class, "?");
    assert_eq!(e.device_id, "USB\\VID_0951&PID_1666\\X");
}
