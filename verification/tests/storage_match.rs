use device_history::storage::{
    disk_index, drive_matches, find_drive, match_drive, storage_info_for, usb_serial_of,
    volume_query, volumes_from_records, PsVolume,
};
use device_history::types::{VolumeInfo, WmiDiskDrive};

fn drive(serial: Option<&str>, pnp: Option<&str>) -> WmiDiskDrive {
    WmiDiskDrive {
        DeviceID: Some("\\\\.\\PHYSICALDRIVE1".to_string()),
        PNPDeviceID: pnp.map(|s| s.to_string()),
        Model: Some("Model X".to_string()),
        SerialNumber: serial.map(|s| s.to_string()),
        Size: Some(64_000_000_000),
        InterfaceType: Some("USB".to_string()),
        MediaType: Some("Removable Media".to_string()),
        Partitions: Some(2),
        FirmwareRevision: Some("1.27".to_string()),
        Status: Some("OK".to_string()),
    }
}

fn matches_by_std(d: &WmiDiskDrive, usb_serial: &str) -> bool {
    if let Some(serial) = &d.SerialNumber {
        let s = serial.trim().replace(' ', "").to_uppercase();
        if !s.is_empty() && (s.contains(usb_serial) || usb_serial.contains(&s)) {
            return true;
        }
    }
    if let Some(pnp) = &d.PNPDeviceID {
        if pnp.to_uppercase().contains(usb_serial) {
            return true;
        }
    }
    false
}

#[test]
fn usb_serial_is_the_upper_cased_suffix() {
    assert_eq!(usb_serial_of("USB\\VID_0951&PID_1666\\60a44c413a8f"), Some("60A44C413A8F".to_string()));
    assert_eq!(usb_serial_of("no-backslash"), Some("NO-BACKSLASH".to_string()));
    assert_eq!(usb_serial_of("USB\\VID_1\\"), None);
    assert_eq!(usb_serial_of(""), None);
    assert_eq!(usb_serial_of("a\\stra\u{df}e"), Some("STRASSE".to_string()));
}

#[test]
fn a_drive_matches_by_serial_in_either_direction() {
    assert!(drive_matches(&drive(Some("  na8pe7ly "), None), "MSFT30NA8PE7LY"));
    assert!(drive_matches(&drive(Some("XX60A44C413A8FYY"), None), "60A44C413A8F"));
    assert!(drive_matches(&drive(Some("60 A4 4C"), None), "60A44C"));
    assert!(!drive_matches(&drive(Some("   "), None), "ABC"));
    assert!(!drive_matches(&drive(Some("OTHER"), None), "ABC"));
    assert!(!drive_matches(&drive(None, None), "ABC"));
}

#[test]
fn a_drive_matches_by_path_as_a_fallback() {
    assert!(drive_matches(
        &drive(Some("OTHER"), Some("USBSTOR\\Disk&Ven_WD\\wxf2d92fuv2s&0")),
        "WXF2D92FUV2S"
    ));
    assert!(!drive_matches(&drive(None, Some("USBSTOR\\DISK\\AB")), "ABC"));
}

#[test]
fn drive_matching_agrees_with_std_strings() {
    let serials = [None, Some(""), Some(" "), Some("abc"), Some(" A B C "), Some("xabcx"), Some("B")];
    let paths = [None, Some(""), Some("usbstor\\abc&0"), Some("ABC")];
    let wanted = ["ABC", "B", "ABCD", "X"];
    for s in serials {
        for p in paths {
            for w in wanted {
                let d = drive(s, p);
                assert_eq!(drive_matches(&d, w), matches_by_std(&d, w), "{:?} {:?} {:?}", s, p, w);
            }
        }
    }
}

#[test]
fn the_first_matching_drive_wins() {
    let drives = vec![
        drive(Some("NOPE"), None),
        drive(Some("ABC123"), None),
        drive(None, Some("USBSTOR\\X\\ABC123&0")),
    ];
    assert_eq!(find_drive(&drives, "ABC123"), Some(1));
    assert_eq!(find_drive(&drives, "ZZZ"), None);
    assert_eq!(find_drive(&vec![], "ABC123"), None);
    assert_eq!(match_drive(&drives, "USB\\VID_1&PID_2\\abc123"), Some(1));
    assert_eq!(match_drive(&drives, "USB\\VID_1&PID_2\\"), None);
    assert_eq!(match_drive(&drives, "USB\\VID_1&PID_2\\unknown"), None);
}

#[test]
fn disk_index_is_read_from_the_device_path() {
    let mut d = drive(None, None);
    assert_eq!(disk_index(&d), Some(1));
    d.DeviceID = Some("\\\\.\\physicaldrive12".to_string());
    assert_eq!(disk_index(&d), Some(12));
    d.DeviceID = Some("\\\\.\\PHYSICALDRIVE".to_string());
    assert_eq!(disk_index(&d), None);
    d.DeviceID = Some("\\\\.\\PHYSICALDRIVE3x".to_string());
    assert_eq!(disk_index(&d), None);
    d.DeviceID = Some("7".to_string());
    assert_eq!(disk_index(&d), Some(7));
    d.DeviceID = Some("CDROM0".to_string());
    assert_eq!(disk_index(&d), None);
    d.DeviceID = None;
    assert_eq!(disk_index(&d), None);
}

#[test]
fn volume_query_names_the_disk() {
    let q = volume_query(3);
    assert!(q.starts_with("$ErrorActionPreference='SilentlyContinue'; Get-Partition -DiskNumber 3 | Where-Object { $_.DriveLetter } | ForEach-Object { $v = $_ | Get-Volume;"));
    assert!(q.ends_with("FileSystem=if($v.FileSystem){$v.FileSystem}else{''} } } | ConvertTo-Json -Compress"));
    assert!(volume_query(4294967295).contains("-DiskNumber 4294967295 |"));
    assert_eq!(volume_query(0).len() + 1, volume_query(10).len());
}

#[test]
fn volumes_without_a_letter_are_left_out() {
    let records = vec![
        PsVolume {
            DriveLetter: Some("E".to_string()),
            Label: Some("BACKUP".to_string()),
            Size: Some(1000),
            FreeSpace: Some(400),
            FileSystem: Some("exFAT".to_string()),
        },
        PsVolume { DriveLetter: None, Label: Some("x".to_string()), Size: None, FreeSpace: None, FileSystem: None },
        PsVolume { DriveLetter: Some(String::new()), Label: None, Size: Some(5), FreeSpace: None, FileSystem: None },
        PsVolume { DriveLetter: Some("F".to_string()), Label: None, Size: None, FreeSpace: None, FileSystem: None },
    ];
    let vols = volumes_from_records(&records);
    assert_eq!(vols.len(), 2);
    assert_eq!(vols[0].drive_letter, "E:");
    assert_eq!(vols[0].volume_name, "BACKUP");
    assert_eq!(vols[0].total_bytes, 1000);
    assert_eq!(vols[0].free_bytes, 400);
    assert_eq!(vols[0].file_system, "exFAT");
    assert_eq!(vols[0].volume_serial, "");
    assert_eq!(vols[1].drive_letter, "F:");
    assert_eq!(vols[1].volume_name, "");
    assert_eq!(vols[1].total_bytes, 0);
    assert_eq!(vols[1].free_bytes, 0);
    assert_eq!(vols[1].file_system, "");
    assert!(volumes_from_records(&vec![]).is_empty());
}

#[test]
fn storage_info_takes_the_fields_of_the_drive() {
    let vol = VolumeInfo {
        drive_letter: "E:".to_string(),
        volume_name: "BACKUP".to_string(),
        total_bytes: 1000,
        free_bytes: 400,
        file_system: "exFAT".to_string(),
        volume_serial: String::new(),
    };
    let info = storage_info_for(&drive(Some("  SER 1  "), None), vec![vol]);
    assert_eq!(info.model, "Model X");
    assert_eq!(info.serial_number, "SER 1");
    assert_eq!(info.total_bytes, 64_000_000_000);
    assert_eq!(info.interface_type, "USB");
    assert_eq!(info.media_type, "Removable Media");
    assert_eq!(info.firmware, "1.27");
    assert_eq!(info.partition_count, 2);
    assert_eq!(info.status, "OK");
    assert_eq!(info.volumes.len(), 1);
    assert_eq!(info.volumes[0].drive_letter, "E:");
    let bare = WmiDiskDrive {
        DeviceID: None,
        PNPDeviceID: None,
        Model: None,
        SerialNumber: None,
        Size: None,
        InterfaceType: None,
        MediaType: None,
        Partitions: None,
        FirmwareRevision: None,
        Status: None,
    };
    let empty = storage_info_for(&bare, vec![]);
    assert_eq!(empty.model, "");
    assert_eq!(empty.serial_number, "");
    assert_eq!(empty.total_bytes, 0);
    assert_eq!(empty.partition_count, 0);
    assert!(empty.volumes.is_empty());
}

#[test]
fn case_mapping_of_the_empty_text_is_empty() {
    // An identifier that ends in a backslash has an empty suffix, in any case.
    assert_eq!(usb_serial_of("\\"), None);
    let mut d = drive(None, Some(""));
    assert!(drive_matches(&d, ""));
    d.PNPDeviceID = None;
    d.SerialNumber = Some(String::new());
    assert!(!drive_matches(&d, ""));
}
