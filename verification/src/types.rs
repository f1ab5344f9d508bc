//! The records that the tracker keeps and publishes, each with its model.
//!
//! A model holds text as `Seq<char>` and nested records as their own models;
//! contracts throughout the crate are stated over these models.

use crate::device_map::Duplicate;
use vstd::prelude::*;

verus! {

/// A copy of optional text.
pub fn copy_opt_text(s: &Option<String>) -> (r: Option<String>)
    ensures
        r.deep_view() == s.deep_view(),
{
    match s {
        Some(t) => Some(t.clone()),
        None => None,
    }
}

/// One attached device as the inventory source reports it.
#[allow(non_snake_case)]
#[derive(Debug)]
pub struct UsbDevice {
    pub Name: Option<String>,
    pub DeviceID: Option<String>,
    pub Description: Option<String>,
    pub Manufacturer: Option<String>,
    pub PNPClass: Option<String>,
}

/// Model of [`UsbDevice`].
pub struct UsbDeviceView {
    pub name: Option<Seq<char>>,
    pub device_id: Option<Seq<char>>,
    pub description: Option<Seq<char>>,
    pub manufacturer: Option<Seq<char>>,
    pub pnp_class: Option<Seq<char>>,
}

impl DeepView for UsbDevice {
    type V = UsbDeviceView;

    open spec fn deep_view(&self) -> UsbDeviceView {
        UsbDeviceView {
            name: self.Name.deep_view(),
            device_id: self.DeviceID.deep_view(),
            description: self.Description.deep_view(),
            manufacturer: self.Manufacturer.deep_view(),
            pnp_class: self.PNPClass.deep_view(),
        }
    }
}

impl View for UsbDevice {
    type V = UsbDeviceView;

    open spec fn view(&self) -> UsbDeviceView {
        self.deep_view()
    }
}

impl Clone for UsbDevice {
    fn clone(&self) -> (r: Self)
        ensures
            r@ == self@,
    {
        UsbDevice {
            Name: copy_opt_text(&self.Name),
            DeviceID: copy_opt_text(&self.DeviceID),
            Description: copy_opt_text(&self.Description),
            Manufacturer: copy_opt_text(&self.Manufacturer),
            PNPClass: copy_opt_text(&self.PNPClass),
        }
    }
}

/// One disk drive as the disk registry reports it.
#[allow(non_snake_case)]
#[derive(Debug)]
pub struct WmiDiskDrive {
    pub DeviceID: Option<String>,
    pub PNPDeviceID: Option<String>,
    pub Model: Option<String>,
    pub SerialNumber: Option<String>,
    pub Size: Option<u64>,
    pub InterfaceType: Option<String>,
    pub MediaType: Option<String>,
    pub Partitions: Option<u32>,
    pub FirmwareRevision: Option<String>,
    pub Status: Option<String>,
}

/// Model of [`WmiDiskDrive`].
pub struct WmiDiskDriveView {
    pub device_id: Option<Seq<char>>,
    pub pnp_device_id: Option<Seq<char>>,
    pub model: Option<Seq<char>>,
    pub serial_number: Option<Seq<char>>,
    pub size: Option<u64>,
    pub interface_type: Option<Seq<char>>,
    pub media_type: Option<Seq<char>>,
    pub partitions: Option<u32>,
    pub firmware_revision: Option<Seq<char>>,
    pub status: Option<Seq<char>>,
}

impl DeepView for WmiDiskDrive {
    type V = WmiDiskDriveView;

    open spec fn deep_view(&self) -> WmiDiskDriveView {
        WmiDiskDriveView {
            device_id: self.DeviceID.deep_view(),
            pnp_device_id: self.PNPDeviceID.deep_view(),
            model: self.Model.deep_view(),
            serial_number: self.SerialNumber.deep_view(),
            size: self.Size,
            interface_type: self.InterfaceType.deep_view(),
            media_type: self.MediaType.deep_view(),
            partitions: self.Partitions,
            firmware_revision: self.FirmwareRevision.deep_view(),
            status: self.Status.deep_view(),
        }
    }
}

impl View for WmiDiskDrive {
    type V = WmiDiskDriveView;

    open spec fn view(&self) -> WmiDiskDriveView {
        self.deep_view()
    }
}

impl Clone for WmiDiskDrive {
    fn clone(&self) -> (r: Self)
        ensures
            r@ == self@,
    {
        WmiDiskDrive {
            DeviceID: copy_opt_text(&self.DeviceID),
            PNPDeviceID: copy_opt_text(&self.PNPDeviceID),
            Model: copy_opt_text(&self.Model),
            SerialNumber: copy_opt_text(&self.SerialNumber),
            Size: self.Size,
            InterfaceType: copy_opt_text(&self.InterfaceType),
            MediaType: copy_opt_text(&self.MediaType),
            Partitions: self.Partitions,
            FirmwareRevision: copy_opt_text(&self.FirmwareRevision),
            Status: copy_opt_text(&self.Status),
        }
    }
}

/// One mounted volume of a storage device.
#[derive(Debug)]
pub struct VolumeInfo {
    pub drive_letter: String,
    pub volume_name: String,
    pub total_bytes: u64,
    pub free_bytes: u64,
    pub file_system: String,
    pub volume_serial: String,
}

/// Model of [`VolumeInfo`].
pub struct VolumeInfoView {
    pub drive_letter: Seq<char>,
    pub volume_name: Seq<char>,
    pub total_bytes: u64,
    pub free_bytes: u64,
    pub file_system: Seq<char>,
    pub volume_serial: Seq<char>,
}

impl DeepView for VolumeInfo {
    type V = VolumeInfoView;

    open spec fn deep_view(&self) -> VolumeInfoView {
        VolumeInfoView {
            drive_letter: self.drive_letter@,
            volume_name: self.volume_name@,
            total_bytes: self.total_bytes,
            free_bytes: self.free_bytes,
            file_system: self.file_system@,
            volume_serial: self.volume_serial@,
        }
    }
}

impl View for VolumeInfo {
    type V = VolumeInfoView;

    open spec fn view(&self) -> VolumeInfoView {
        self.deep_view()
    }
}

impl Clone for VolumeInfo {
    fn clone(&self) -> (r: Self)
        ensures
            r@ == self@,
    {
        VolumeInfo {
            drive_letter: self.drive_letter.clone(),
            volume_name: self.volume_name.clone(),
            total_bytes: self.total_bytes,
            free_bytes: self.free_bytes,
            file_system: self.file_system.clone(),
            volume_serial: self.volume_serial.clone(),
        }
    }
}

/// A copy of a list of volumes.
pub fn copy_volumes(volumes: &Vec<VolumeInfo>) -> (r: Vec<VolumeInfo>)
    ensures
        r.deep_view() == volumes.deep_view(),
{
    let mut out: Vec<VolumeInfo> = Vec::new();
    let mut i: usize = 0;
    while i < volumes.len()
        invariant
            i <= volumes.len(),
            out.len() == i,
            forall|j: int| 0 <= j < i ==> out@[j]@ == volumes@[j]@,
        decreases volumes.len() - i,
    {
        out.push(volumes[i].clone());
        i = i + 1;
    }
    assert(out.deep_view() =~= volumes.deep_view());
    out
}

/// What the enrichment source knows of a storage device.
#[derive(Debug)]
pub struct StorageInfo {
    pub model: String,
    pub serial_number: String,
    pub total_bytes: u64,
    pub interface_type: String,
    pub media_type: String,
    pub firmware: String,
    pub partition_count: u32,
    pub status: String,
    pub volumes: Vec<VolumeInfo>,
}

/// Model of [`StorageInfo`].
pub struct StorageInfoView {
    pub model: Seq<char>,
    pub serial_number: Seq<char>,
    pub total_bytes: u64,
    pub interface_type: Seq<char>,
    pub media_type: Seq<char>,
    pub firmware: Seq<char>,
    pub partition_count: u32,
    pub status: Seq<char>,
    pub volumes: Seq<VolumeInfoView>,
}

impl DeepView for StorageInfo {
    type V = StorageInfoView;

    open spec fn deep_view(&self) -> StorageInfoView {
        StorageInfoView {
            model: self.model@,
            serial_number: self.serial_number@,
            total_bytes: self.total_bytes,
            interface_type: self.interface_type@,
            media_type: self.media_type@,
            firmware: self.firmware@,
            partition_count: self.partition_count,
            status: self.status@,
            volumes: self.volumes.deep_view(),
        }
    }
}

impl View for StorageInfo {
    type V = StorageInfoView;

    open spec fn view(&self) -> StorageInfoView {
        self.deep_view()
    }
}

impl Clone for StorageInfo {
    fn clone(&self) -> (r: Self)
        ensures
            r@ == self@,
    {
        StorageInfo {
            model: self.model.clone(),
            serial_number: self.serial_number.clone(),
            total_bytes: self.total_bytes,
            interface_type: self.interface_type.clone(),
            media_type: self.media_type.clone(),
            firmware: self.firmware.clone(),
            partition_count: self.partition_count,
            status: self.status.clone(),
            volumes: copy_volumes(&self.volumes),
        }
    }
}

/// A copy of optional storage details.
pub fn copy_opt_storage(s: &Option<StorageInfo>) -> (r: Option<StorageInfo>)
    ensures
        r.deep_view() == s.deep_view(),
{
    match s {
        Some(t) => Some(t.clone()),
        None => None,
    }
}

/// The ledger's record of one device ever seen.
#[derive(Debug)]
pub struct KnownDevice {
    pub device_id: String,
    pub name: String,
    pub vid_pid: String,
    pub class: String,
    pub manufacturer: String,
    pub description: String,
    pub first_seen: String,
    pub last_seen: String,
    pub times_seen: u32,
    pub currently_connected: bool,
    pub nickname: Option<String>,
    pub storage_info: Option<StorageInfo>,
}

/// Model of [`KnownDevice`].
pub struct KnownDeviceView {
    pub device_id: Seq<char>,
    pub name: Seq<char>,
    pub vid_pid: Seq<char>,
    pub class: Seq<char>,
    pub manufacturer: Seq<char>,
    pub description: Seq<char>,
    pub first_seen: Seq<char>,
    pub last_seen: Seq<char>,
    pub times_seen: u32,
    pub currently_connected: bool,
    pub nickname: Option<Seq<char>>,
    pub storage_info: Option<StorageInfoView>,
}

impl DeepView for KnownDevice {
    type V = KnownDeviceView;

    open spec fn deep_view(&self) -> KnownDeviceView {
        KnownDeviceView {
            device_id: self.device_id@,
            name: self.name@,
            vid_pid: self.vid_pid@,
            class: self.class@,
            manufacturer: self.manufacturer@,
            description: self.description@,
            first_seen: self.first_seen@,
            last_seen: self.last_seen@,
            times_seen: self.times_seen,
            currently_connected: self.currently_connected,
            nickname: self.nickname.deep_view(),
            storage_info: self.storage_info.deep_view(),
        }
    }
}

impl View for KnownDevice {
    type V = KnownDeviceView;

    open spec fn view(&self) -> KnownDeviceView {
        self.deep_view()
    }
}

impl Clone for KnownDevice {
    fn clone(&self) -> (r: Self)
        ensures
            r@ == self@,
    {
        KnownDevice {
            device_id: self.device_id.clone(),
            name: self.name.clone(),
            vid_pid: self.vid_pid.clone(),
            class: self.class.clone(),
            manufacturer: self.manufacturer.clone(),
            description: self.description.clone(),
            first_seen: self.first_seen.clone(),
            last_seen: self.last_seen.clone(),
            times_seen: self.times_seen,
            currently_connected: self.currently_connected,
            nickname: copy_opt_text(&self.nickname),
            storage_info: copy_opt_storage(&self.storage_info),
        }
    }
}

/// One entry of the event log: what happened, when, and to which device.
#[derive(Debug)]
pub struct DeviceEvent {
    pub timestamp: String,
    pub kind: String,
    pub name: String,
    pub vid_pid: Option<String>,
    pub manufacturer: Option<String>,
    pub class: String,
    pub device_id: String,
}

/// Model of [`DeviceEvent`].
pub struct DeviceEventView {
    pub timestamp: Seq<char>,
    pub kind: Seq<char>,
    pub name: Seq<char>,
    pub vid_pid: Option<Seq<char>>,
    pub manufacturer: Option<Seq<char>>,
    pub class: Seq<char>,
    pub device_id: Seq<char>,
}

impl DeepView for DeviceEvent {
    type V = DeviceEventView;

    open spec fn deep_view(&self) -> DeviceEventView {
        DeviceEventView {
            timestamp: self.timestamp@,
            kind: self.kind@,
            name: self.name@,
            vid_pid: self.vid_pid.deep_view(),
            manufacturer: self.manufacturer.deep_view(),
            class: self.class@,
            device_id: self.device_id@,
        }
    }
}

impl View for DeviceEvent {
    type V = DeviceEventView;

    open spec fn view(&self) -> DeviceEventView {
        self.deep_view()
    }
}

impl Clone for DeviceEvent {
    fn clone(&self) -> (r: Self)
        ensures
            r@ == self@,
    {
        DeviceEvent {
            timestamp: self.timestamp.clone(),
            kind: self.kind.clone(),
            name: self.name.clone(),
            vid_pid: copy_opt_text(&self.vid_pid),
            manufacturer: copy_opt_text(&self.manufacturer),
            class: self.class.clone(),
            device_id: self.device_id.clone(),
        }
    }
}

/// One connected device as observers see it.
#[derive(Debug)]
pub struct DeviceSnapshot {
    pub device_id: String,
    pub name: String,
    pub vid_pid: Option<String>,
    pub manufacturer: Option<String>,
    pub class: String,
}

/// Model of [`DeviceSnapshot`].
pub struct DeviceSnapshotView {
    pub device_id: Seq<char>,
    pub name: Seq<char>,
    pub vid_pid: Option<Seq<char>>,
    pub manufacturer: Option<Seq<char>>,
    pub class: Seq<char>,
}

impl DeepView for DeviceSnapshot {
    type V = DeviceSnapshotView;

    open spec fn deep_view(&self) -> DeviceSnapshotView {
        DeviceSnapshotView {
            device_id: self.device_id@,
            name: self.name@,
            vid_pid: self.vid_pid.deep_view(),
            manufacturer: self.manufacturer.deep_view(),
            class: self.class@,
        }
    }
}

impl View for DeviceSnapshot {
    type V = DeviceSnapshotView;

    open spec fn view(&self) -> DeviceSnapshotView {
        self.deep_view()
    }
}

impl Clone for DeviceSnapshot {
    fn clone(&self) -> (r: Self)
        ensures
            r@ == self@,
    {
        DeviceSnapshot {
            device_id: self.device_id.clone(),
            name: self.name.clone(),
            vid_pid: copy_opt_text(&self.vid_pid),
            manufacturer: copy_opt_text(&self.manufacturer),
            class: self.class.clone(),
        }
    }
}

/// The user's display preferences.
#[derive(Debug)]
pub struct Prefs {
    pub theme: String,
    pub active_tab: String,
}

/// Model of [`Prefs`].
pub struct PrefsView {
    pub theme: Seq<char>,
    pub active_tab: Seq<char>,
}

impl DeepView for Prefs {
    type V = PrefsView;

    open spec fn deep_view(&self) -> PrefsView {
        PrefsView { theme: self.theme@, active_tab: self.active_tab@ }
    }
}

impl View for Prefs {
    type V = PrefsView;

    open spec fn view(&self) -> PrefsView {
        self.deep_view()
    }
}

impl Clone for Prefs {
    fn clone(&self) -> (r: Self)
        ensures
            r@ == self@,
    {
        Prefs { theme: self.theme.clone(), active_tab: self.active_tab.clone() }
    }
}

impl Default for Prefs {
    fn default() -> (r: Self)
        ensures
            r@ == (PrefsView { theme: "neon"@, active_tab: "monitor"@ }),
    {
        Prefs { theme: "neon".to_owned(), active_tab: "monitor".to_owned() }
    }
}

impl Duplicate for UsbDevice {
    fn duplicate(&self) -> (r: Self) {
        self.clone()
    }
}

impl Duplicate for StorageInfo {
    fn duplicate(&self) -> (r: Self) {
        self.clone()
    }
}

impl Duplicate for DeviceSnapshot {
    fn duplicate(&self) -> (r: Self) {
        self.clone()
    }
}

impl Duplicate for KnownDevice {
    fn duplicate(&self) -> (r: Self) {
        self.clone()
    }
}

} // verus!
