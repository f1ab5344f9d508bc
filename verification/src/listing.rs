//! The list of connected devices as observers see it: one entry per device
//! of the current snapshot, sorted by display name without regard to case.
//!
//! The sort is stable: devices whose names differ by case only, or not at
//! all, stay in snapshot order.

use crate::device::{snapshot_of, usb_to_snapshot};
use crate::device_map::DeviceMap;
use crate::sorting::{
    is_total, is_transitive, lemma_sorted_by, ordered_by, sort_by, sorted_by, Ranking,
};
use crate::text::{
    chars_of, lemma_text_le_total, lemma_text_le_transitive, lowercase, text_before_or_same,
    text_le,
};
use crate::types::{DeviceSnapshot, DeviceSnapshotView, UsbDevice, UsbDeviceView};
use vstd::prelude::*;

verus! {

/// The text by which a list entry is sorted: its name in lower case.
pub open spec fn name_key(entry: DeviceSnapshotView) -> Seq<char> {
    lowercase(entry.name)
}

/// The ranking of list entries by name without regard to case.
pub struct ByName;

impl Ranking<DeviceSnapshot> for ByName {
    open spec fn le(&self, a: DeviceSnapshotView, b: DeviceSnapshotView) -> bool {
        text_le(name_key(a), name_key(b))
    }

    fn precedes(&self, a: &DeviceSnapshot, b: &DeviceSnapshot) -> (r: bool) {
        let x = chars_of(a.name.as_str().to_lowercase().as_str());
        let y = chars_of(b.name.as_str().to_lowercase().as_str());
        text_before_or_same(&x, &y)
    }
}

/// `entries` sorted by name key; entries with the same key keep their order.
pub open spec fn sorted_by_name(entries: Seq<DeviceSnapshotView>) -> Seq<DeviceSnapshotView> {
    sorted_by::<DeviceSnapshot, ByName>(ByName, entries)
}

/// The ranking by name is total and transitive, so what is sorted by it is
/// ordered.
pub proof fn lemma_by_name_is_an_order()
    ensures
        is_total::<DeviceSnapshot, ByName>(ByName),
        is_transitive::<DeviceSnapshot, ByName>(ByName),
{
    assert forall|a: DeviceSnapshotView, b: DeviceSnapshotView| #[trigger]
        ByName.le(a, b) || #[trigger] ByName.le(b, a) by {
        lemma_text_le_total(name_key(a), name_key(b));
    }
    assert forall|a: DeviceSnapshotView, b: DeviceSnapshotView, c: DeviceSnapshotView| #[trigger]
        ByName.le(a, b) && #[trigger] ByName.le(b, c) implies ByName.le(a, c) by {
        lemma_text_le_transitive(name_key(a), name_key(b), name_key(c));
    }
}

/// The list sorted by name is ordered by name key and holds exactly the
/// entries of the input, each as often as the input does.
pub proof fn lemma_sorted_by_name(entries: Seq<DeviceSnapshotView>)
    ensures
        ordered_by::<DeviceSnapshot, ByName>(ByName, sorted_by_name(entries)),
        sorted_by_name(entries).len() == entries.len(),
        sorted_by_name(entries).to_multiset() == entries.to_multiset(),
{
    lemma_by_name_is_an_order();
    lemma_sorted_by::<DeviceSnapshot, ByName>(ByName, entries);
}

/// One list entry for each device of a snapshot, in snapshot order.
pub open spec fn snapshots_of(order: Seq<Seq<char>>, items: Seq<UsbDeviceView>) -> Seq<
    DeviceSnapshotView,
> {
    Seq::new(order.len(), |i: int| snapshot_of(order[i], items[i]))
}

/// The list of connected devices for the snapshot `(order, items)`.
pub open spec fn device_list(order: Seq<Seq<char>>, items: Seq<UsbDeviceView>) -> Seq<
    DeviceSnapshotView,
> {
    sorted_by_name(snapshots_of(order, items))
}

/// Sorts `entries` by name without regard to case, keeping the order of
/// entries whose names are the same in lower case.
pub fn sort_by_name(entries: &Vec<DeviceSnapshot>) -> (out: Vec<DeviceSnapshot>)
    ensures
        out.deep_view() == sorted_by_name(entries.deep_view()),
{
    sort_by(entries, &ByName)
}

/// The list of connected devices for the snapshot `inventory`.
pub fn list_devices(inventory: &DeviceMap<UsbDevice>) -> (out: Vec<DeviceSnapshot>)
    requires
        inventory.wf(),
    ensures
        out.deep_view() == device_list(inventory.order(), inventory.items()),
{
    let mut entries: Vec<DeviceSnapshot> = Vec::new();
    let n: usize = inventory.len();
    let mut i: usize = 0;
    while i < n
        invariant
            inventory.wf(),
            n == inventory.order().len(),
            n == inventory.items().len(),
            i <= n,
            entries.len() == i,
            forall|j: int|
                0 <= j < i ==> (#[trigger] entries@[j])@ == snapshot_of(
                    inventory.order()[j],
                    inventory.items()[j],
                ),
        decreases n - i,
    {
        entries.push(usb_to_snapshot(inventory.key_at(i).as_str(), inventory.value_at(i)));
        i = i + 1;
    }
    assert(entries.deep_view() =~= snapshots_of(inventory.order(), inventory.items()));
    sort_by_name(&entries)
}

} // verus!
