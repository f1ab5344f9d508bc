//! The state that observers read and the narrow write API that they use.
//!
//! Observers see the list of connected devices, the event log, a copy of the
//! ledger, the live enrichment data and a fatal error, if any. They may
//! rename a device, forget a device and clear the event log; each request
//! changes this copy at once and is folded into the tracker's own ledger at
//! its next tick.

use crate::device_map::{without_key, DeviceMap};
use crate::ledger::{rename, renamed, KnownDeviceCache};
use crate::types::{
    copy_opt_text, DeviceEvent, DeviceSnapshot, KnownDevice, Prefs, PrefsView, StorageInfo,
};
use vstd::prelude::*;

verus! {

/// A copy of a list of list entries.
pub fn copy_snapshots(list: &Vec<DeviceSnapshot>) -> (r: Vec<DeviceSnapshot>)
    ensures
        r.deep_view() == list.deep_view(),
{
    let mut out: Vec<DeviceSnapshot> = Vec::new();
    let mut i: usize = 0;
    while i < list.len()
        invariant
            i <= list.len(),
            out.len() == i,
            forall|j: int| 0 <= j < i ==> out@[j]@ == list@[j]@,
        decreases list.len() - i,
    {
        out.push(list[i].clone());
        i = i + 1;
    }
    assert(out.deep_view() =~= list.deep_view());
    out
}

/// A copy of a list of events.
pub fn copy_events(list: &Vec<DeviceEvent>) -> (r: Vec<DeviceEvent>)
    ensures
        r.deep_view() == list.deep_view(),
{
    let mut out: Vec<DeviceEvent> = Vec::new();
    let mut i: usize = 0;
    while i < list.len()
        invariant
            i <= list.len(),
            out.len() == i,
            forall|j: int| 0 <= j < i ==> out@[j]@ == list@[j]@,
        decreases list.len() - i,
    {
        out.push(list[i].clone());
        i = i + 1;
    }
    assert(out.deep_view() =~= list.deep_view());
    out
}

/// What observers are handed: a consistent copy of the shared state.
pub struct AppSnapshot {
    pub devices: Vec<DeviceSnapshot>,
    pub events: Vec<DeviceEvent>,
    pub known_devices: DeviceMap<KnownDevice>,
    pub storage_info: DeviceMap<StorageInfo>,
    pub error: Option<String>,
}

/// The state that the tracker publishes and that request handlers change.
pub struct AppState {
    pub devices: Vec<DeviceSnapshot>,
    pub events: Vec<DeviceEvent>,
    pub known_devices: DeviceMap<KnownDevice>,
    pub storage_info: DeviceMap<StorageInfo>,
    pub error: Option<String>,
    pub prefs_theme: String,
    pub prefs_tab: String,
}

impl AppState {
    /// Both maps of the state are well-formed.
    pub open spec fn wf(&self) -> bool {
        self.known_devices.wf() && self.storage_info.wf()
    }

    /// The state before anything is known: nothing connected, nothing logged,
    /// an empty ledger, no error, and the given preferences.
    pub fn new(theme: String, tab: String) -> (state: Self)
        ensures
            state.wf(),
            state.devices@.len() == 0,
            state.events@.len() == 0,
            state.known_devices@ == Map::<Seq<char>, crate::types::KnownDeviceView>::empty(),
            state.storage_info@ == Map::<Seq<char>, crate::types::StorageInfoView>::empty(),
            state.known_devices.order() == Seq::<Seq<char>>::empty(),
            state.storage_info.order() == Seq::<Seq<char>>::empty(),
            state.error is None,
            state.prefs_theme@ == theme@,
            state.prefs_tab@ == tab@,
    {
        AppState {
            devices: Vec::new(),
            events: Vec::new(),
            known_devices: DeviceMap::new(),
            storage_info: DeviceMap::new(),
            error: None,
            prefs_theme: theme,
            prefs_tab: tab,
        }
    }

    /// A copy of what observers may see.
    pub fn snapshot(&self) -> (snap: AppSnapshot)
        requires
            self.wf(),
        ensures
            snap.devices.deep_view() == self.devices.deep_view(),
            snap.events.deep_view() == self.events.deep_view(),
            snap.known_devices.wf(),
            snap.known_devices@ == self.known_devices@,
            snap.known_devices.order() == self.known_devices.order(),
            snap.storage_info.wf(),
            snap.storage_info@ == self.storage_info@,
            snap.storage_info.order() == self.storage_info.order(),
            snap.error.deep_view() == self.error.deep_view(),
    {
        AppSnapshot {
            devices: copy_snapshots(&self.devices),
            events: copy_events(&self.events),
            known_devices: self.known_devices.duplicate(),
            storage_info: self.storage_info.duplicate(),
            error: copy_opt_text(&self.error),
        }
    }

    /// The ledger document that holds this state's copy of the ledger.
    pub fn cache_document(&self) -> (cache: KnownDeviceCache)
        requires
            self.wf(),
        ensures
            cache.version == 2,
            cache.devices.wf(),
            cache.devices@ == self.known_devices@,
            cache.devices.order() == self.known_devices.order(),
    {
        KnownDeviceCache { version: 2, devices: self.known_devices.duplicate() }
    }
}

/// What observers are handed on request.
pub fn get_snapshot(state: &AppState) -> (snap: AppSnapshot)
    requires
        state.wf(),
    ensures
        snap.devices.deep_view() == state.devices.deep_view(),
        snap.events.deep_view() == state.events.deep_view(),
        snap.known_devices.wf(),
        snap.known_devices@ == state.known_devices@,
        snap.known_devices.order() == state.known_devices.order(),
        snap.storage_info.wf(),
        snap.storage_info@ == state.storage_info@,
        snap.storage_info.order() == state.storage_info.order(),
        snap.error.deep_view() == state.error.deep_view(),
{
    state.snapshot()
}

/// Empties the event log. Nothing else changes.
pub fn clear_events(state: &mut AppState)
    ensures
        final(state).events@ == Seq::<DeviceEvent>::empty(),
        *final(state) == (AppState { events: final(state).events, ..*old(state) }),
{
    state.events.clear();
}

/// Gives the device `device_id` the nickname that `nickname` asks for: the
/// text without surrounding whitespace, or none where nothing is left.
/// Returns whether the device is known, which is when the ledger is to be
/// persisted; an unknown device changes nothing.
pub fn set_nickname(state: &mut AppState, device_id: &str, nickname: &str) -> (persist: bool)
    requires
        old(state).wf(),
    ensures
        final(state).wf(),
        persist == old(state).known_devices@.contains_key(device_id@),
        final(state).known_devices@ == renamed(
            old(state).known_devices@,
            device_id@,
            nickname@,
        ),
        final(state).known_devices.order() == old(state).known_devices.order(),
        *final(state) == (AppState { known_devices: final(state).known_devices, ..*old(state) }),
{
    rename(&mut state.known_devices, device_id, nickname)
}

/// Forgets the device `device_id`: it leaves the ledger copy and the live
/// enrichment data. The ledger is to be persisted in any case.
pub fn forget_device(state: &mut AppState, device_id: &str)
    requires
        old(state).wf(),
    ensures
        final(state).wf(),
        final(state).known_devices@ == old(state).known_devices@.remove(device_id@),
        final(state).storage_info@ == old(state).storage_info@.remove(device_id@),
        !final(state).known_devices@.contains_key(device_id@),
        !final(state).storage_info@.contains_key(device_id@),
        final(state).known_devices.order() == without_key(
            old(state).known_devices.order(),
            device_id@,
        ),
        final(state).storage_info.order() == without_key(
            old(state).storage_info.order(),
            device_id@,
        ),
        *final(state) == (AppState {
            known_devices: final(state).known_devices,
            storage_info: final(state).storage_info,
            ..*old(state)
        }),
{
    let _known = state.known_devices.remove(device_id);
    let _live = state.storage_info.remove(device_id);
}

/// The preferences that the state holds.
pub fn get_prefs(state: &AppState) -> (prefs: Prefs)
    ensures
        prefs@ == (PrefsView { theme: state.prefs_theme@, active_tab: state.prefs_tab@ }),
{
    Prefs { theme: state.prefs_theme.clone(), active_tab: state.prefs_tab.clone() }
}

/// Sets the theme. Returns the preferences to persist.
pub fn set_theme(state: &mut AppState, theme: String) -> (prefs: Prefs)
    ensures
        final(state).prefs_theme@ == theme@,
        *final(state) == (AppState { prefs_theme: final(state).prefs_theme, ..*old(state) }),
        prefs@ == (PrefsView { theme: theme@, active_tab: old(state).prefs_tab@ }),
{
    state.prefs_theme = theme.clone();
    Prefs { theme, active_tab: state.prefs_tab.clone() }
}

/// Sets the active tab. Returns the preferences to persist.
pub fn set_tab(state: &mut AppState, tab: String) -> (prefs: Prefs)
    ensures
        final(state).prefs_tab@ == tab@,
        *final(state) == (AppState { prefs_tab: final(state).prefs_tab, ..*old(state) }),
        prefs@ == (PrefsView { theme: old(state).prefs_theme@, active_tab: tab@ }),
{
    state.prefs_tab = tab.clone();
    Prefs { theme: state.prefs_theme.clone(), active_tab: tab }
}

} // verus!
