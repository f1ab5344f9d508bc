//! Enrichment of storage devices: which disk drive belongs to a device, and
//! what is kept of the drive and of its volumes.
//!
//! The enrichment source is outside this crate. What it returns comes in as
//! plain records; this module decides which drive matches a device
//! identifier and turns the records into the enrichment payload.

use crate::text::{
    after_last, chars_of, contains, contains_text, decimal, decimal_chars, parse_u32, parse_u32_of,
    remove_char, tail_after_last, text_of, trim, trimmed, uppercase, without_char,
};
use crate::types::{
    copy_opt_text, StorageInfo, StorageInfoView, VolumeInfo, VolumeInfoView, WmiDiskDrive,
    WmiDiskDriveView,
};
use crate::ledger::{owned_or_empty, text_or_empty};
use vstd::prelude::*;

verus! {

/// The serial-like suffix of a device identifier: what follows its last
/// backslash, in upper case. There is none where nothing follows.
pub open spec fn usb_serial(id: Seq<char>) -> Option<Seq<char>> {
    let s = uppercase(after_last(id, seq!['\\']));
    if s.len() == 0 {
        None
    } else {
        Some(s)
    }
}

/// The serial-like suffix of the device identifier `device_id`.
pub fn usb_serial_of(device_id: &str) -> (r: Option<String>)
    ensures
        r.deep_view() == usb_serial(device_id@),
{
    let id = chars_of(device_id);
    let mut sep: Vec<char> = Vec::new();
    sep.push('\\');
    assert(sep@ =~= seq!['\\']);
    let tail = text_of(&tail_after_last(&id, &sep));
    let s = tail.as_str().to_uppercase();
    if s.as_str().is_empty() {
        None
    } else {
        Some(s)
    }
}

/// A drive's serial number as it is compared: without surrounding
/// whitespace, without spaces, in upper case.
pub open spec fn normal_serial(serial: Seq<char>) -> Seq<char> {
    uppercase(without_char(trimmed(serial), ' '))
}

/// The drive's own serial number contains the suffix or is contained in it.
pub open spec fn serial_matches(serial: Option<Seq<char>>, suffix: Seq<char>) -> bool {
    match serial {
        Some(s) => normal_serial(s).len() > 0 && (contains_text(normal_serial(s), suffix)
            || contains_text(suffix, normal_serial(s))),
        None => false,
    }
}

/// The drive's low-level path identifier contains the suffix.
pub open spec fn path_matches(path: Option<Seq<char>>, suffix: Seq<char>) -> bool {
    match path {
        Some(p) => contains_text(uppercase(p), suffix),
        None => false,
    }
}

impl WmiDiskDriveView {
    /// Whether this drive belongs to the device with the serial-like suffix
    /// `suffix`: by its serial number, else by its path identifier.
    pub open spec fn matches(self, suffix: Seq<char>) -> bool {
        serial_matches(self.serial_number, suffix) || path_matches(self.pnp_device_id, suffix)
    }
}

/// Whether `drive` belongs to the device with the serial-like suffix `suffix`.
pub fn drive_matches(drive: &WmiDiskDrive, suffix: &str) -> (r: bool)
    ensures
        r == drive@.matches(suffix@),
{
    let wanted = chars_of(suffix);
    if let Some(serial) = &drive.SerialNumber {
        let t = trim(serial.as_str());
        let stripped = text_of(&remove_char(&chars_of(t.as_str()), ' '));
        let s = chars_of(stripped.as_str().to_uppercase().as_str());
        if s.len() > 0 && (contains(&s, &wanted) || contains(&wanted, &s)) {
            return true;
        }
    }
    if let Some(pnp) = &drive.PNPDeviceID {
        let p = chars_of(pnp.as_str().to_uppercase().as_str());
        if contains(&p, &wanted) {
            return true;
        }
    }
    false
}

/// `i` is the first drive of `drives` that matches `suffix`.
pub open spec fn is_first_match(drives: Seq<WmiDiskDriveView>, suffix: Seq<char>, i: int) -> bool {
    &&& 0 <= i < drives.len()
    &&& drives[i].matches(suffix)
    &&& forall|j: int| 0 <= j < i ==> !(#[trigger] drives[j]).matches(suffix)
}

/// No drive of `drives` matches `suffix`.
pub open spec fn no_match(drives: Seq<WmiDiskDriveView>, suffix: Seq<char>) -> bool {
    forall|j: int| 0 <= j < drives.len() ==> !(#[trigger] drives[j]).matches(suffix)
}

/// The first drive that belongs to the device with the serial-like suffix
/// `suffix`. The first match wins.
pub fn find_drive(drives: &Vec<WmiDiskDrive>, suffix: &str) -> (r: Option<usize>)
    ensures
        match r {
            Some(i) => is_first_match(drives.deep_view(), suffix@, i as int),
            None => no_match(drives.deep_view(), suffix@),
        },
{
    let mut i: usize = 0;
    while i < drives.len()
        invariant
            i <= drives.len(),
            forall|j: int| 0 <= j < i ==> !(#[trigger] drives.deep_view()[j]).matches(suffix@),
        decreases drives.len() - i,
    {
        assert(drives.deep_view()[i as int] == drives@[i as int]@);
        if drive_matches(&drives[i], suffix) {
            return Some(i);
        }
        i = i + 1;
    }
    None
}

/// The drive that belongs to the device `device_id`, among the drives that
/// the disk registry lists: the first that matches the identifier's
/// serial-like suffix. No suffix or no match gives nothing, which is the
/// ordinary outcome while a device is still mounting.
pub fn match_drive(drives: &Vec<WmiDiskDrive>, device_id: &str) -> (r: Option<usize>)
    ensures
        match r {
            Some(i) => usb_serial(device_id@) matches Some(suffix) && is_first_match(
                drives.deep_view(),
                suffix,
                i as int,
            ),
            None => usb_serial(device_id@) matches Some(suffix) ==> no_match(
                drives.deep_view(),
                suffix,
            ),
        },
{
    match usb_serial_of(device_id) {
        Some(suffix) => find_drive(drives, suffix.as_str()),
        None => None,
    }
}

/// The marker that precedes the disk number in a drive's device path.
pub open spec fn drive_marker() -> Seq<char> {
    "PHYSICALDRIVE"@
}

/// The disk number of a drive path: the number written after the last
/// occurrence of the marker in the upper-cased path.
pub open spec fn disk_index_of(path: Seq<char>) -> Option<u32> {
    parse_u32_of(after_last(uppercase(path), drive_marker()))
}

/// The disk number of `drive`, read from its device path.
pub fn disk_index(drive: &WmiDiskDrive) -> (r: Option<u32>)
    ensures
        r == match drive@.device_id {
            Some(path) => disk_index_of(path),
            None => None,
        },
{
    match &drive.DeviceID {
        Some(path) => {
            let upper = chars_of(path.as_str().to_uppercase().as_str());
            let marker = chars_of("PHYSICALDRIVE");
            parse_u32(&tail_after_last(&upper, &marker))
        },
        None => None,
    }
}

/// The text of the volume query up to the disk number.
pub open spec fn volume_query_head() -> Seq<char> {
    "$ErrorActionPreference='SilentlyContinue'; Get-Partition -DiskNumber "@
}

/// The text of the volume query after the disk number.
pub open spec fn volume_query_tail() -> Seq<char> {
    " | Where-Object { $_.DriveLetter } | ForEach-Object { $v = $_ | Get-Volume; [PSCustomObject]@{ DriveLetter=[string]$_.DriveLetter; Label=if($v.FileSystemLabel){$v.FileSystemLabel}else{''}; Size=if($v.Size){$v.Size}else{0}; FreeSpace=if($v.SizeRemaining){$v.SizeRemaining}else{0}; FileSystem=if($v.FileSystem){$v.FileSystem}else{''} } } | ConvertTo-Json -Compress"@
}

/// The query that asks the volume registry for the lettered volumes of the
/// disk numbered `disk_index`.
pub fn volume_query(disk_index: u32) -> (r: String)
    ensures
        r@ == volume_query_head() + decimal(disk_index as nat) + volume_query_tail(),
{
    let mut out = chars_of(
        "$ErrorActionPreference='SilentlyContinue'; Get-Partition -DiskNumber ",
    );
    let mut number = decimal_chars(disk_index as u64);
    let mut tail = chars_of(
        " | Where-Object { $_.DriveLetter } | ForEach-Object { $v = $_ | Get-Volume; [PSCustomObject]@{ DriveLetter=[string]$_.DriveLetter; Label=if($v.FileSystemLabel){$v.FileSystemLabel}else{''}; Size=if($v.Size){$v.Size}else{0}; FreeSpace=if($v.SizeRemaining){$v.SizeRemaining}else{0}; FileSystem=if($v.FileSystem){$v.FileSystem}else{''} } } | ConvertTo-Json -Compress",
    );
    out.append(&mut number);
    out.append(&mut tail);
    text_of(&out)
}

/// One volume as the volume registry reports it.
#[allow(non_snake_case)]
#[derive(Debug)]
pub struct PsVolume {
    pub DriveLetter: Option<String>,
    pub Label: Option<String>,
    pub Size: Option<u64>,
    pub FreeSpace: Option<u64>,
    pub FileSystem: Option<String>,
}

/// Model of [`PsVolume`].
pub struct PsVolumeView {
    pub drive_letter: Option<Seq<char>>,
    pub label: Option<Seq<char>>,
    pub size: Option<u64>,
    pub free_space: Option<u64>,
    pub file_system: Option<Seq<char>>,
}

impl DeepView for PsVolume {
    type V = PsVolumeView;

    open spec fn deep_view(&self) -> PsVolumeView {
        PsVolumeView {
            drive_letter: self.DriveLetter.deep_view(),
            label: self.Label.deep_view(),
            size: self.Size,
            free_space: self.FreeSpace,
            file_system: self.FileSystem.deep_view(),
        }
    }
}

impl View for PsVolume {
    type V = PsVolumeView;

    open spec fn view(&self) -> PsVolumeView {
        self.deep_view()
    }
}

/// The number, or zero where there is none.
pub open spec fn number_or_zero(n: Option<u64>) -> u64 {
    match n {
        Some(x) => x,
        None => 0,
    }
}

impl PsVolumeView {
    /// Whether the volume is kept: it has a drive letter that is not empty.
    pub open spec fn is_lettered(self) -> bool {
        self.drive_letter matches Some(l) && l.len() > 0
    }

    /// What is kept of a lettered volume.
    pub open spec fn volume(self) -> VolumeInfoView {
        VolumeInfoView {
            drive_letter: text_or_empty(self.drive_letter).push(':'),
            volume_name: text_or_empty(self.label),
            total_bytes: number_or_zero(self.size),
            free_bytes: number_or_zero(self.free_space),
            file_system: text_or_empty(self.file_system),
            volume_serial: Seq::empty(),
        }
    }
}

/// The volumes kept of `records`, in their order: the lettered ones.
pub open spec fn lettered_volumes(records: Seq<PsVolumeView>) -> Seq<VolumeInfoView>
    decreases records.len(),
{
    if records.len() == 0 {
        Seq::empty()
    } else {
        let before = lettered_volumes(records.drop_last());
        if records.last().is_lettered() {
            before.push(records.last().volume())
        } else {
            before
        }
    }
}

/// Turns the records of the volume registry into the volumes of a drive.
/// Records without a drive letter are left out.
pub fn volumes_from_records(records: &Vec<PsVolume>) -> (r: Vec<VolumeInfo>)
    ensures
        r.deep_view() == lettered_volumes(records.deep_view()),
{
    let ghost all = records.deep_view();
    let mut out: Vec<VolumeInfo> = Vec::new();
    let mut i: usize = 0;
    assert(all.take(0) =~= Seq::<PsVolumeView>::empty());
    assert(out.deep_view() =~= Seq::<VolumeInfoView>::empty());
    while i < records.len()
        invariant
            all == records.deep_view(),
            i <= records.len(),
            out.deep_view() == lettered_volumes(all.take(i as int)),
        decreases records.len() - i,
    {
        proof {
            assert(all.take(i + 1).drop_last() == all.take(i as int));
            assert(all.take(i + 1).last() == records@[i as int]@);
        }
        let rec = &records[i];
        let ghost before = out.deep_view();
        match &rec.DriveLetter {
            Some(letter) => {
                if !letter.as_str().is_empty() {
                    let mut drive_letter = letter.clone();
                    drive_letter.push(':');
                    let vol = VolumeInfo {
                        drive_letter,
                        volume_name: owned_or_empty(copy_opt_text(&rec.Label)),
                        total_bytes: match rec.Size {
                            Some(x) => x,
                            None => 0,
                        },
                        free_bytes: match rec.FreeSpace {
                            Some(x) => x,
                            None => 0,
                        },
                        file_system: owned_or_empty(copy_opt_text(&rec.FileSystem)),
                        volume_serial: String::new(),
                    };
                    out.push(vol);
                    assert(out.deep_view() =~= before.push(rec@.volume()));
                }
            },
            None => {},
        }
        i = i + 1;
    }
    assert(all.take(records.len() as int) == all);
    out
}

/// The enrichment payload made of a matched drive and its volumes.
pub open spec fn storage_info_of(drive: WmiDiskDriveView, volumes: Seq<VolumeInfoView>) -> StorageInfoView {
    StorageInfoView {
        model: text_or_empty(drive.model),
        serial_number: trimmed(text_or_empty(drive.serial_number)),
        total_bytes: number_or_zero(drive.size),
        interface_type: text_or_empty(drive.interface_type),
        media_type: text_or_empty(drive.media_type),
        firmware: text_or_empty(drive.firmware_revision),
        partition_count: match drive.partitions {
            Some(n) => n,
            None => 0,
        },
        status: text_or_empty(drive.status),
        volumes,
    }
}

/// The enrichment payload for the matched drive `drive` with its `volumes`.
pub fn storage_info_for(drive: &WmiDiskDrive, volumes: Vec<VolumeInfo>) -> (r: StorageInfo)
    ensures
        r@ == storage_info_of(drive@, volumes.deep_view()),
{
    let serial = owned_or_empty(copy_opt_text(&drive.SerialNumber));
    StorageInfo {
        model: owned_or_empty(copy_opt_text(&drive.Model)),
        serial_number: trim(serial.as_str()),
        total_bytes: match drive.Size {
            Some(x) => x,
            None => 0,
        },
        interface_type: owned_or_empty(copy_opt_text(&drive.InterfaceType)),
        media_type: owned_or_empty(copy_opt_text(&drive.MediaType)),
        firmware: owned_or_empty(copy_opt_text(&drive.FirmwareRevision)),
        partition_count: match drive.Partitions {
            Some(n) => n,
            None => 0,
        },
        status: owned_or_empty(copy_opt_text(&drive.Status)),
        volumes,
    }
}

} // verus!
