//! What is derived from one inventory record: its display name, its
//! vendor/product tag, its class, and whether it is a storage device.

use crate::text::{
    bytes_prefix, chars_of, contains, contains_text, find, first_occurrence, take_bytes, text_of,
};
use crate::types::{
    copy_opt_text, DeviceEvent, DeviceEventView, DeviceSnapshot, DeviceSnapshotView, UsbDevice,
    UsbDeviceView,
};
use vstd::prelude::*;

verus! {

/// The marker that precedes the vendor code in a device identifier.
pub open spec fn vendor_marker() -> Seq<char> {
    seq!['V', 'I', 'D', '_']
}

/// The marker that precedes the product code in a device identifier.
pub open spec fn product_marker() -> Seq<char> {
    seq!['P', 'I', 'D', '_']
}

/// The four bytes that follow the leftmost occurrence of `marker` in `id`.
pub open spec fn code_after(id: Seq<char>, marker: Seq<char>) -> Option<Seq<char>> {
    match first_occurrence(id, marker) {
        Some(i) => take_bytes(id.skip(i + marker.len()), 4),
        None => None,
    }
}

/// The vendor/product tag of a device identifier: the vendor code, a colon,
/// the product code. There is none unless both codes can be read.
pub open spec fn vid_pid_of(id: Seq<char>) -> Option<Seq<char>> {
    match (code_after(id, vendor_marker()), code_after(id, product_marker())) {
        (Some(v), Some(p)) => Some(v + seq![':'] + p),
        _ => None,
    }
}

impl UsbDeviceView {
    /// The name to show: the name, else the description, else a fixed text.
    pub open spec fn display_name(self) -> Seq<char> {
        match self.name {
            Some(n) => n,
            None => match self.description {
                Some(d) => d,
                None => "Unknown Device"@,
            },
        }
    }

    /// The device class, or a question mark where none is reported.
    pub open spec fn class(self) -> Seq<char> {
        match self.pnp_class {
            Some(c) => c,
            None => "?"@,
        }
    }

    /// The vendor/product tag read from the device identifier.
    pub open spec fn vid_pid(self) -> Option<Seq<char>> {
        match self.device_id {
            Some(id) => vid_pid_of(id),
            None => None,
        }
    }

    /// The class text that classification reads.
    pub open spec fn class_text(self) -> Seq<char> {
        match self.pnp_class {
            Some(c) => c,
            None => Seq::empty(),
        }
    }

    /// The name text that classification reads.
    pub open spec fn name_text(self) -> Seq<char> {
        match self.name {
            Some(n) => n,
            None => Seq::empty(),
        }
    }

    /// A storage device: its class names a SCSI adapter or a disk drive, or
    /// its class names USB and its name storage, or its name says mass storage.
    pub open spec fn is_storage(self) -> bool {
        ||| contains_text(self.class_text(), "SCSIAdapter"@)
        ||| contains_text(self.class_text(), "DiskDrive"@)
        ||| (contains_text(self.class_text(), "USB"@) && contains_text(
            self.name_text(),
            "Storage"@,
        ))
        ||| contains_text(self.name_text(), "Mass Storage"@)
    }
}

/// The four bytes that follow the leftmost occurrence of `marker` in `id`.
fn read_code(id: &Vec<char>, marker: &Vec<char>) -> (r: Option<String>)
    ensures
        r.deep_view() == code_after(id@, marker@),
{
    match find(id, marker) {
        Some(i) => bytes_prefix(id, i + marker.len(), 4),
        None => None,
    }
}

/// The four characters of a marker.
fn marker_chars(first: char) -> (m: Vec<char>)
    ensures
        m@ == seq![first, 'I', 'D', '_'],
{
    let mut m: Vec<char> = Vec::new();
    m.push(first);
    m.push('I');
    m.push('D');
    m.push('_');
    assert(m@ =~= seq![first, 'I', 'D', '_']);
    m
}

impl UsbDevice {
    /// The name to show for this device.
    pub fn display_name(&self) -> (r: &str)
        ensures
            r@ == self@.display_name(),
    {
        match &self.Name {
            Some(n) => n.as_str(),
            None => match &self.Description {
                Some(d) => d.as_str(),
                None => "Unknown Device",
            },
        }
    }

    /// The vendor/product tag read from the device identifier.
    pub fn vid_pid(&self) -> (r: Option<String>)
        ensures
            r.deep_view() == self@.vid_pid(),
    {
        let id: Vec<char> = match &self.DeviceID {
            Some(id) => chars_of(id.as_str()),
            None => {
                return None;
            },
        };
        let vid = match read_code(&id, &marker_chars('V')) {
            Some(v) => v,
            None => {
                return None;
            },
        };
        let pid = match read_code(&id, &marker_chars('P')) {
            Some(p) => p,
            None => {
                return None;
            },
        };
        let mut out: Vec<char> = chars_of(vid.as_str());
        out.push(':');
        let mut tail: Vec<char> = chars_of(pid.as_str());
        out.append(&mut tail);
        assert(out@ =~= vid@ + seq![':'] + pid@);
        Some(text_of(&out))
    }

    /// The device class, or a question mark where none is reported.
    pub fn class(&self) -> (r: &str)
        ensures
            r@ == self@.class(),
    {
        match &self.PNPClass {
            Some(c) => c.as_str(),
            None => "?",
        }
    }
}

/// Whether `dev` is a storage device, by its class and name.
pub fn is_storage_device(dev: &UsbDevice) -> (r: bool)
    ensures
        r == dev@.is_storage(),
{
    let class: Vec<char> = match &dev.PNPClass {
        Some(c) => chars_of(c.as_str()),
        None => Vec::new(),
    };
    let name: Vec<char> = match &dev.Name {
        Some(n) => chars_of(n.as_str()),
        None => Vec::new(),
    };
    contains(&class, &chars_of("SCSIAdapter")) || contains(&class, &chars_of("DiskDrive")) || (
    contains(&class, &chars_of("USB")) && contains(&name, &chars_of("Storage"))) || contains(
        &name,
        &chars_of("Mass Storage"),
    )
}

/// What observers see of the device `dev` known as `id`.
pub open spec fn snapshot_of(id: Seq<char>, dev: UsbDeviceView) -> DeviceSnapshotView {
    DeviceSnapshotView {
        device_id: id,
        name: dev.display_name(),
        vid_pid: dev.vid_pid(),
        manufacturer: dev.manufacturer,
        class: dev.class(),
    }
}

/// What observers see of the device `dev` known as `id`.
pub fn usb_to_snapshot(id: &str, dev: &UsbDevice) -> (r: DeviceSnapshot)
    ensures
        r@ == snapshot_of(id@, dev@),
{
    DeviceSnapshot {
        device_id: id.to_owned(),
        name: dev.display_name().to_owned(),
        vid_pid: dev.vid_pid(),
        manufacturer: copy_opt_text(&dev.Manufacturer),
        class: dev.class().to_owned(),
    }
}

/// The log entry for the device `dev` known as `id`: the kind of the event,
/// its time, and the device's display attributes at that moment.
pub open spec fn event_of(
    kind: Seq<char>,
    timestamp: Seq<char>,
    id: Seq<char>,
    dev: UsbDeviceView,
) -> DeviceEventView {
    DeviceEventView {
        timestamp,
        kind,
        name: dev.display_name(),
        vid_pid: dev.vid_pid(),
        manufacturer: dev.manufacturer,
        class: dev.class(),
        device_id: id,
    }
}

/// The log entry of kind `kind` at `timestamp` for the device `dev` known as `id`.
pub fn event_for(kind: &str, timestamp: &str, id: &str, dev: &UsbDevice) -> (r: DeviceEvent)
    ensures
        r@ == event_of(kind@, timestamp@, id@, dev@),
{
    DeviceEvent {
        timestamp: timestamp.to_owned(),
        kind: kind.to_owned(),
        name: dev.display_name().to_owned(),
        vid_pid: dev.vid_pid(),
        manufacturer: copy_opt_text(&dev.Manufacturer),
        class: dev.class().to_owned(),
        device_id: id.to_owned(),
    }
}

} // verus!
