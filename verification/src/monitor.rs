//! The reconciliation loop: what one tick does to the tracker's state.
//!
//! The tracker owns the authoritative ledger, the live enrichment data, the
//! previous inventory snapshot and the queue of delayed lookups. Everything
//! that talks to the outside (the inventory source, the enrichment source,
//! the clock, the disk) is left to the caller, who hands the answers in and
//! carries out what a tick decides.

use crate::device::is_storage_device;
use crate::device_map::{lemma_assoc_at, lemma_index_of, picked, with_key, DeviceMap};
use crate::inventory::{diff, diff_events};
use crate::listing::{device_list, list_devices};
use crate::scheduler::{due_ids, not_due, take_due};
use crate::state::AppState;
use crate::types::DeviceEvent;
use crate::ledger::{
    attach_storage, disconnected, enriched, entry_after_connect, entry_when_present,
    first_sighting, lookup, mark_all_disconnected, merge_connect, merge_disconnect, merge_present,
    reconnected, KnownDeviceCache,
};
use crate::scheduler::{schedule, PendingEnrichment, PendingEnrichmentView};
use crate::text::text_le;
use crate::types::{
    copy_opt_text, KnownDevice, KnownDeviceView, StorageInfo, StorageInfoView, UsbDevice,
    UsbDeviceView,
};
use vstd::prelude::*;

verus! {

/// The device `k` is in the previous snapshot and not in the current one.
pub open spec fn has_left(
    prev: Map<Seq<char>, UsbDeviceView>,
    current: Map<Seq<char>, UsbDeviceView>,
    k: Seq<char>,
) -> bool {
    prev.contains_key(k) && !current.contains_key(k)
}

/// The device `k` is in the current snapshot and not in the previous one.
pub open spec fn has_arrived(
    prev: Map<Seq<char>, UsbDeviceView>,
    current: Map<Seq<char>, UsbDeviceView>,
    k: Seq<char>,
) -> bool {
    current.contains_key(k) && !prev.contains_key(k)
}

/// The ledger after the disconnects between two snapshots are merged: each
/// known device that has left is marked offline and seen at `now`.
pub open spec fn departures_merged(
    ledger: Map<Seq<char>, KnownDeviceView>,
    prev: Map<Seq<char>, UsbDeviceView>,
    current: Map<Seq<char>, UsbDeviceView>,
    now: Seq<char>,
) -> Map<Seq<char>, KnownDeviceView> {
    Map::new(
        |k: Seq<char>| ledger.contains_key(k),
        |k: Seq<char>|
            if has_left(prev, current, k) {
                disconnected(ledger[k], now)
            } else {
                ledger[k]
            },
    )
}

/// The ledger after the connects between two snapshots are merged: each
/// device that has arrived gets its entry made or counted and refreshed.
pub open spec fn arrivals_merged(
    ledger: Map<Seq<char>, KnownDeviceView>,
    prev: Map<Seq<char>, UsbDeviceView>,
    current: Map<Seq<char>, UsbDeviceView>,
    now: Seq<char>,
) -> Map<Seq<char>, KnownDeviceView> {
    Map::new(
        |k: Seq<char>| ledger.contains_key(k) || has_arrived(prev, current, k),
        |k: Seq<char>|
            if has_arrived(prev, current, k) {
                entry_after_connect(lookup(ledger, k), k, current[k], now)
            } else {
                ledger[k]
            },
    )
}

/// The device `k` is in the tracker's ledger and in the observers' copy.
pub open spec fn is_shared(
    ledger: Map<Seq<char>, KnownDeviceView>,
    external: Map<Seq<char>, KnownDeviceView>,
    k: Seq<char>,
) -> bool {
    ledger.contains_key(k) && external.contains_key(k)
}

/// The ledger after a tick.
///
/// It holds every device that has arrived in this tick: counted once more
/// and described afresh where tracker and observers both held it, entered as
/// new otherwise, which is so for a device never seen and for one that
/// observers have forgotten. Of the other devices it holds those that tracker
/// and observers both hold, marked offline where they have left. Each entry
/// that both held has the nickname of the observers' copy.
pub open spec fn ticked(
    ledger: Map<Seq<char>, KnownDeviceView>,
    prev: Map<Seq<char>, UsbDeviceView>,
    current: Map<Seq<char>, UsbDeviceView>,
    now: Seq<char>,
    external: Map<Seq<char>, KnownDeviceView>,
) -> Map<Seq<char>, KnownDeviceView> {
    Map::new(
        |k: Seq<char>| has_arrived(prev, current, k) || is_shared(ledger, external, k),
        |k: Seq<char>|
            if has_arrived(prev, current, k) {
                if is_shared(ledger, external, k) {
                    KnownDeviceView {
                        nickname: external[k].nickname,
                        ..reconnected(ledger[k], current[k], now)
                    }
                } else {
                    first_sighting(k, current[k], now)
                }
            } else if has_left(prev, current, k) {
                KnownDeviceView { nickname: external[k].nickname, ..disconnected(ledger[k], now) }
            } else {
                KnownDeviceView { nickname: external[k].nickname, ..ledger[k] }
            },
    )
}

/// A tick is made in three steps: the disconnects are merged, the
/// observers' changes are folded into what the ledger held before this
/// tick's connects, and the connects are merged. Merging disconnects changes
/// neither what counts as forgotten nor what observers ask to change.
pub proof fn lemma_ticked_in_steps(
    ledger: Map<Seq<char>, KnownDeviceView>,
    prev: Map<Seq<char>, UsbDeviceView>,
    current: Map<Seq<char>, UsbDeviceView>,
    now: Seq<char>,
    external: Map<Seq<char>, KnownDeviceView>,
)
    ensures
        arrivals_merged(
            reconciled(departures_merged(ledger, prev, current, now), external),
            prev,
            current,
            now,
        ) == ticked(ledger, prev, current, now, external),
        Set::new(
            |k: Seq<char>| !is_forgotten(departures_merged(ledger, prev, current, now), external, k),
        ) == Set::new(|k: Seq<char>| !is_forgotten(ledger, external, k)),
        asks_for_change(departures_merged(ledger, prev, current, now), external)
            == asks_for_change(ledger, external),
{
    let mid = departures_merged(ledger, prev, current, now);
    assert(arrivals_merged(reconciled(mid, external), prev, current, now) =~= ticked(
        ledger,
        prev,
        current,
        now,
        external,
    ));
    assert(Set::new(|k: Seq<char>| !is_forgotten(mid, external, k)) =~= Set::new(
        |k: Seq<char>| !is_forgotten(ledger, external, k),
    ));
    if asks_for_change(mid, external) {
        let k = choose|k: Seq<char>|
            #![trigger mid.contains_key(k)]
            mid.contains_key(k) && (!external.contains_key(k) || external[k].nickname
                != mid[k].nickname);
        assert(ledger.contains_key(k));
    }
    if asks_for_change(ledger, external) {
        let k = choose|k: Seq<char>|
            #![trigger ledger.contains_key(k)]
            ledger.contains_key(k) && (!external.contains_key(k) || external[k].nickname
                != ledger[k].nickname);
        assert(mid.contains_key(k));
    }
}

/// The ledger when tracking starts: every device of the stored ledger marked
/// offline, and every device of the first snapshot marked online, seen at
/// `now` and described afresh, or entered as new.
pub open spec fn started(
    cache: Map<Seq<char>, KnownDeviceView>,
    inventory: Map<Seq<char>, UsbDeviceView>,
    now: Seq<char>,
) -> Map<Seq<char>, KnownDeviceView> {
    Map::new(
        |k: Seq<char>| cache.contains_key(k) || inventory.contains_key(k),
        |k: Seq<char>|
            if inventory.contains_key(k) {
                entry_when_present(lookup(cache, k), k, inventory[k], now)
            } else {
                KnownDeviceView { currently_connected: false, ..cache[k] }
            },
    )
}

/// The live enrichment data after the disconnects between two snapshots:
/// the data of each device that has left is dropped.
pub open spec fn live_after_departures(
    live: Map<Seq<char>, StorageInfoView>,
    prev: Map<Seq<char>, UsbDeviceView>,
    current: Map<Seq<char>, UsbDeviceView>,
) -> Map<Seq<char>, StorageInfoView> {
    Map::new(
        |k: Seq<char>| live.contains_key(k) && !has_left(prev, current, k),
        |k: Seq<char>| live[k],
    )
}

/// The device `k` is in the tracker's ledger and not in the observers' copy:
/// it was forgotten on request. The ledger meant is the one before a tick's
/// connects are merged: what arrives in a tick is not yet in the observers'
/// copy and is not forgotten for that.
pub open spec fn is_forgotten(
    ledger: Map<Seq<char>, KnownDeviceView>,
    external: Map<Seq<char>, KnownDeviceView>,
    k: Seq<char>,
) -> bool {
    ledger.contains_key(k) && !external.contains_key(k)
}

/// A ledger after the observers' changes are folded in: the forgotten
/// devices are gone, and each device has the nickname that the observers'
/// copy gives it. Everything else is the tracker's. Within a tick this is
/// done to the ledger as it stands before the connects are merged.
pub open spec fn reconciled(
    ledger: Map<Seq<char>, KnownDeviceView>,
    external: Map<Seq<char>, KnownDeviceView>,
) -> Map<Seq<char>, KnownDeviceView> {
    Map::new(
        |k: Seq<char>| ledger.contains_key(k) && external.contains_key(k),
        |k: Seq<char>| KnownDeviceView { nickname: external[k].nickname, ..ledger[k] },
    )
}

/// The live enrichment data after the observers' changes are folded in: the
/// data of each forgotten device is dropped.
pub open spec fn live_reconciled(
    live: Map<Seq<char>, StorageInfoView>,
    ledger: Map<Seq<char>, KnownDeviceView>,
    external: Map<Seq<char>, KnownDeviceView>,
) -> Map<Seq<char>, StorageInfoView> {
    Map::new(
        |k: Seq<char>| live.contains_key(k) && !is_forgotten(ledger, external, k),
        |k: Seq<char>| live[k],
    )
}

/// The observers' copy asks for a change of the tracker's ledger: a device
/// was forgotten, or a nickname differs.
pub open spec fn asks_for_change(
    ledger: Map<Seq<char>, KnownDeviceView>,
    external: Map<Seq<char>, KnownDeviceView>,
) -> bool {
    exists|k: Seq<char>|
        #![trigger ledger.contains_key(k)]
        ledger.contains_key(k) && (!external.contains_key(k) || external[k].nickname
            != ledger[k].nickname)
}

/// The order of the live enrichment data after the disconnects between two
/// snapshots: without the devices that have left.
pub open spec fn live_order_after_departures(
    order: Seq<Seq<char>>,
    prev: Map<Seq<char>, UsbDeviceView>,
    current: Map<Seq<char>, UsbDeviceView>,
) -> Seq<Seq<char>> {
    picked(order, flags_of(order, Set::new(|k: Seq<char>| !has_left(prev, current, k))))
}

/// The order of the live enrichment data after the observers' changes are
/// folded in: without the forgotten devices.
pub open spec fn live_order_reconciled(
    order: Seq<Seq<char>>,
    ledger: Map<Seq<char>, KnownDeviceView>,
    external: Map<Seq<char>, KnownDeviceView>,
) -> Seq<Seq<char>> {
    picked(order, flags_of(order, Set::new(|k: Seq<char>| !is_forgotten(ledger, external, k))))
}

/// The order of the ledger after the observers' changes are folded in:
/// without the forgotten devices.
pub open spec fn order_reconciled(
    order: Seq<Seq<char>>,
    external: Map<Seq<char>, KnownDeviceView>,
) -> Seq<Seq<char>> {
    picked(order, flags_of(order, external.dom()))
}

/// One flag per identifier of `order`: whether `keep` holds it.
pub open spec fn flags_of(order: Seq<Seq<char>>, keep: Set<Seq<char>>) -> Seq<bool> {
    Seq::new(order.len(), |i: int| keep.contains(order[i]))
}

/// `base` followed by the identifiers of `order` that neither `other` nor
/// the sequence so far holds, in the order of `order`.
pub open spec fn order_with_new(
    base: Seq<Seq<char>>,
    order: Seq<Seq<char>>,
    other: Seq<Seq<char>>,
) -> Seq<Seq<char>>
    decreases order.len(),
{
    if order.len() == 0 {
        base
    } else {
        let so_far = order_with_new(base, order.drop_last(), other);
        if other.contains(order.last()) || so_far.contains(order.last()) {
            so_far
        } else {
            so_far.push(order.last())
        }
    }
}

/// The lookups queued at `now` for a snapshot: one for each storage device
/// of `order` that `other` lacks; `items[i]` is the record of `order[i]`.
pub open spec fn scheduled(
    order: Seq<Seq<char>>,
    items: Seq<UsbDeviceView>,
    other: Seq<Seq<char>>,
    now: u64,
) -> Seq<PendingEnrichmentView>
    decreases order.len(),
{
    if order.len() == 0 {
        Seq::empty()
    } else {
        let before = scheduled(order.drop_last(), items.drop_last(), other, now);
        if !other.contains(order.last()) && items.last().is_storage() {
            before.push(PendingEnrichmentView { device_id: order.last(), scheduled_at: now })
        } else {
            before
        }
    }
}

/// The storage devices of a snapshot, in snapshot order.
pub open spec fn storage_ids(order: Seq<Seq<char>>, items: Seq<UsbDeviceView>) -> Seq<Seq<char>>
    decreases order.len(),
{
    if order.len() == 0 {
        Seq::empty()
    } else {
        let before = storage_ids(order.drop_last(), items.drop_last());
        if items.last().is_storage() {
            before.push(order.last())
        } else {
            before
        }
    }
}

/// A longer start of a sequence holds what the shorter holds, and one more.
pub proof fn lemma_take_contains(order: Seq<Seq<char>>, i: int, k: Seq<char>)
    requires
        0 <= i < order.len(),
    ensures
        order.take(i + 1).contains(k) <==> (order.take(i).contains(k) || order[i] == k),
{
    let longer = order.take(i + 1);
    let shorter = order.take(i);
    if longer.contains(k) {
        let j = longer.index_of(k);
        if j < i {
            assert(shorter[j] == k);
        }
    }
    if shorter.contains(k) {
        let j = shorter.index_of(k);
        assert(longer[j] == k);
    }
    if order[i] == k {
        assert(longer[i] == k);
    }
}

/// The ledger after the disconnects of the identifiers in `done` are merged.
spec fn departures_upto(
    ledger: Map<Seq<char>, KnownDeviceView>,
    done: Seq<Seq<char>>,
    current: Map<Seq<char>, UsbDeviceView>,
    now: Seq<char>,
) -> Map<Seq<char>, KnownDeviceView> {
    Map::new(
        |k: Seq<char>| ledger.contains_key(k),
        |k: Seq<char>|
            if done.contains(k) && !current.contains_key(k) {
                disconnected(ledger[k], now)
            } else {
                ledger[k]
            },
    )
}

/// Merges the disconnects between `prev` and `current` into the ledger and
/// drops the live enrichment data of the devices that have left.
pub fn apply_departures(
    devices: &mut DeviceMap<KnownDevice>,
    live: &mut DeviceMap<StorageInfo>,
    prev: &DeviceMap<UsbDevice>,
    current: &DeviceMap<UsbDevice>,
    now: &str,
)
    requires
        old(devices).wf(),
        old(live).wf(),
        prev.wf(),
        current.wf(),
    ensures
        final(devices).wf(),
        final(live).wf(),
        final(devices)@ == departures_merged(old(devices)@, prev@, current@, now@),
        final(devices).order() == old(devices).order(),
        final(live)@ == live_after_departures(old(live)@, prev@, current@),
        final(live).order() == live_order_after_departures(old(live).order(), prev@, current@),
{
    let ghost ledger = devices@;
    let n: usize = prev.len();
    let mut i: usize = 0;
    proof {
        assert(devices@ =~= departures_upto(ledger, prev.order().take(0), current@, now@));
    }
    while i < n
        invariant
            devices.wf(),
            prev.wf(),
            current.wf(),
            n == prev.order().len(),
            i <= n,
            ledger == old(devices)@,
            devices.order() == old(devices).order(),
            devices@ == departures_upto(ledger, prev.order().take(i as int), current@, now@),
        decreases n - i,
    {
        let id = prev.key_at(i);
        proof {
            prev.lemma_wf();
            assert forall|k: Seq<char>|
                prev.order().take(i + 1).contains(k) <==> (prev.order().take(i as int).contains(k)
                    || prev.order()[i as int] == k) by {
                lemma_take_contains(prev.order(), i as int, k);
            }
            if prev.order().take(i as int).contains(id@) {
                let j = prev.order().take(i as int).index_of(id@);
                assert(prev.order()[j] == prev.order()[i as int]);
            }
        }
        if !current.contains_key(id.as_str()) {
            merge_disconnect(devices, id.as_str(), now);
        }
        proof {
            assert(devices@ =~= departures_upto(
                ledger,
                prev.order().take(i + 1),
                current@,
                now@,
            ));
        }
        i = i + 1;
    }
    proof {
        assert(prev.order().take(n as int) == prev.order());
        assert(devices@ =~= departures_merged(ledger, prev@, current@, now@));
    }
    let ghost keep = Set::new(|k: Seq<char>| !has_left(prev@, current@, k));
    let m: usize = live.len();
    let mut flags: Vec<bool> = Vec::new();
    let mut j: usize = 0;
    while j < m
        invariant
            live.wf(),
            prev.wf(),
            current.wf(),
            m == live.order().len(),
            j <= m,
            flags.len() == j,
            keep == Set::new(|k: Seq<char>| !has_left(prev@, current@, k)),
            forall|x: int| 0 <= x < j ==> flags@[x] == keep.contains(live.order()[x]),
        decreases m - j,
    {
        let key = live.key_at(j);
        flags.push(!(prev.contains_key(key.as_str()) && !current.contains_key(key.as_str())));
        j = j + 1;
    }
    proof {
        assert(flags@ =~= flags_of(live.order(), keep));
        live.lemma_wf();
        assert forall|k: Seq<char>| live.order().contains(k) implies flags@[live.order().index_of(
            k,
        )] == keep.contains(k) by {
            let x = live.order().index_of(k);
            assert(live.order()[x] == k);
        }
        assert(live.sifted(flags@) =~= live_after_departures(live@, prev@, current@));
    }
    live.retain_flagged(&flags);
}

/// The ledger after the connects of the identifiers in `done` are merged.
spec fn arrivals_upto(
    ledger: Map<Seq<char>, KnownDeviceView>,
    done: Seq<Seq<char>>,
    prev: Map<Seq<char>, UsbDeviceView>,
    current: Map<Seq<char>, UsbDeviceView>,
    now: Seq<char>,
) -> Map<Seq<char>, KnownDeviceView> {
    Map::new(
        |k: Seq<char>| ledger.contains_key(k) || (done.contains(k) && !prev.contains_key(k)),
        |k: Seq<char>|
            if done.contains(k) && !prev.contains_key(k) {
                entry_after_connect(lookup(ledger, k), k, current[k], now)
            } else {
                ledger[k]
            },
    )
}

/// Merges the connects between `prev` and `current` into the ledger and
/// queues a lookup at `now` for each storage device that has arrived.
pub fn apply_arrivals(
    devices: &mut DeviceMap<KnownDevice>,
    pending: &mut Vec<PendingEnrichment>,
    prev: &DeviceMap<UsbDevice>,
    current: &DeviceMap<UsbDevice>,
    date_time: &str,
    now: u64,
)
    requires
        old(devices).wf(),
        prev.wf(),
        current.wf(),
        forall|k: Seq<char>|
            has_arrived(prev@, current@, k) && old(devices)@.contains_key(k) ==> (
            #[trigger] old(devices)@[k]).times_seen < u32::MAX,
    ensures
        final(devices).wf(),
        final(devices)@ == arrivals_merged(old(devices)@, prev@, current@, date_time@),
        final(devices).order() == order_with_new(
            old(devices).order(),
            current.order(),
            prev.order(),
        ),
        final(pending).deep_view() == old(pending).deep_view() + scheduled(
            current.order(),
            current.items(),
            prev.order(),
            now,
        ),
{
    let ghost ledger = devices@;
    let ghost base = devices.order();
    let ghost queue = pending.deep_view();
    let ghost order = current.order();
    let ghost items = current.items();
    let n: usize = current.len();
    let mut i: usize = 0;
    proof {
        assert(order.take(0) =~= Seq::<Seq<char>>::empty());
        assert(devices@ =~= arrivals_upto(ledger, order.take(0), prev@, current@, date_time@));
        assert(pending.deep_view() =~= queue + Seq::<PendingEnrichmentView>::empty());
    }
    while i < n
        invariant
            devices.wf(),
            prev.wf(),
            current.wf(),
            order == current.order(),
            items == current.items(),
            n == order.len(),
            n == items.len(),
            i <= n,
            forall|k: Seq<char>|
                has_arrived(prev@, current@, k) && ledger.contains_key(k) ==> (
                #[trigger] ledger[k]).times_seen < u32::MAX,
            devices@ == arrivals_upto(ledger, order.take(i as int), prev@, current@, date_time@),
            devices.order() == order_with_new(base, order.take(i as int), prev.order()),
            pending.deep_view() == queue + scheduled(
                order.take(i as int),
                items.take(i as int),
                prev.order(),
                now,
            ),
        decreases n - i,
    {
        let id = current.key_at(i);
        let dev = current.value_at(i);
        proof {
            current.lemma_wf();
            assert(order.take(i + 1).drop_last() == order.take(i as int));
            assert(items.take(i + 1).drop_last() == items.take(i as int));
            assert forall|k: Seq<char>|
                order.take(i + 1).contains(k) <==> (order.take(i as int).contains(k) || order[i as int]
                    == k) by {
                lemma_take_contains(order, i as int, k);
            }
            if order.take(i as int).contains(id@) {
                let j = order.take(i as int).index_of(id@);
                assert(order[j] == order[i as int]);
            }
            lemma_assoc_at(order, items, i as int);
        }
        if !prev.contains_key(id.as_str()) {
            assert(has_arrived(prev@, current@, id@));
            assert(devices@.contains_key(id@) == ledger.contains_key(id@));
            assert(ledger.contains_key(id@) ==> devices@[id@] == ledger[id@]);
            merge_connect(devices, id.as_str(), dev, date_time);
            if is_storage_device(dev) {
                schedule(pending, id.clone(), now);
                assert(pending.deep_view() =~= queue + scheduled(
                    order.take(i + 1),
                    items.take(i + 1),
                    prev.order(),
                    now,
                ));
            }
        }
        proof {
            assert(devices@ =~= arrivals_upto(
                ledger,
                order.take(i + 1),
                prev@,
                current@,
                date_time@,
            ));
        }
        i = i + 1;
    }
    proof {
        assert(order.take(n as int) == order);
        assert(items.take(n as int) == items);
        assert(devices@ =~= arrivals_merged(ledger, prev@, current@, date_time@));
    }
}

/// Whether two optional texts are the same.
pub fn same_opt_text(a: &Option<String>, b: &Option<String>) -> (r: bool)
    ensures
        r == (a.deep_view() == b.deep_view()),
{
    match (a, b) {
        (Some(x), Some(y)) => *x == *y,
        (None, None) => true,
        _ => false,
    }
}

/// The ledger after the nicknames of the identifiers in `done` are taken
/// from the observers' copy.
spec fn nicknames_upto(
    ledger: Map<Seq<char>, KnownDeviceView>,
    done: Seq<Seq<char>>,
    external: Map<Seq<char>, KnownDeviceView>,
) -> Map<Seq<char>, KnownDeviceView> {
    Map::new(
        |k: Seq<char>| ledger.contains_key(k),
        |k: Seq<char>|
            if done.contains(k) {
                KnownDeviceView { nickname: external[k].nickname, ..ledger[k] }
            } else {
                ledger[k]
            },
    )
}

/// Folds the observers' changes into a ledger and the live enrichment data:
/// what they forgot is removed, and each nickname becomes theirs. Returns
/// whether anything changed, which is when the ledger is to be persisted.
///
/// Everything that `devices` holds and `external` lacks counts as forgotten,
/// so within a tick this is called before the connects are merged.
pub fn reconcile(
    devices: &mut DeviceMap<KnownDevice>,
    live: &mut DeviceMap<StorageInfo>,
    external: &DeviceMap<KnownDevice>,
) -> (changed: bool)
    requires
        old(devices).wf(),
        old(live).wf(),
        external.wf(),
    ensures
        final(devices).wf(),
        final(live).wf(),
        final(devices)@ == reconciled(old(devices)@, external@),
        final(devices).order() == order_reconciled(old(devices).order(), external@),
        final(live)@ == live_reconciled(old(live)@, old(devices)@, external@),
        final(live).order() == live_order_reconciled(
            old(live).order(),
            old(devices)@,
            external@,
        ),
        changed == asks_for_change(old(devices)@, external@),
{
    let ghost ledger = devices@;
    let ghost order = devices.order();
    let n: usize = devices.len();
    let mut keep: Vec<bool> = Vec::new();
    let mut forgotten: bool = false;
    let mut i: usize = 0;
    while i < n
        invariant
            devices.wf(),
            external.wf(),
            order == devices.order(),
            n == order.len(),
            i <= n,
            keep.len() == i,
            forall|x: int| 0 <= x < i ==> keep@[x] == external@.contains_key(order[x]),
            forgotten <==> exists|x: int| 0 <= x < i && !#[trigger] keep@[x],
        decreases n - i,
    {
        let known = external.contains_key(devices.key_at(i).as_str());
        let ghost before = keep@;
        keep.push(known);
        proof {
            assert forall|x: int| 0 <= x < i implies keep@[x] == before[x] by {}
            if !known {
                assert(!keep@[i as int]);
            }
        }
        if !known {
            forgotten = true;
        }
        i = i + 1;
    }
    let ghost stay = Set::new(|k: Seq<char>| !is_forgotten(ledger, external@, k));
    let m: usize = live.len();
    let mut keep_live: Vec<bool> = Vec::new();
    let mut j: usize = 0;
    while j < m
        invariant
            devices.wf(),
            live.wf(),
            external.wf(),
            ledger == devices@,
            m == live.order().len(),
            j <= m,
            keep_live.len() == j,
            stay == Set::new(|k: Seq<char>| !is_forgotten(ledger, external@, k)),
            forall|x: int| 0 <= x < j ==> keep_live@[x] == stay.contains(live.order()[x]),
        decreases m - j,
    {
        let key = live.key_at(j);
        keep_live.push(
            !(devices.contains_key(key.as_str()) && !external.contains_key(key.as_str())),
        );
        j = j + 1;
    }
    proof {
        devices.lemma_wf();
        live.lemma_wf();
        assert(keep@ =~= flags_of(order, external@.dom()));
        assert(keep_live@ =~= flags_of(live.order(), stay));
        assert forall|k: Seq<char>| live.order().contains(k) implies keep_live@[live.order().index_of(
            k,
        )] == stay.contains(k) by {
            let x = live.order().index_of(k);
            assert(live.order()[x] == k);
        }
        assert(live.sifted(keep_live@) =~= live_reconciled(live@, ledger, external@));
        assert forall|k: Seq<char>| order.contains(k) implies keep@[order.index_of(k)]
            == external@.contains_key(k) by {
            let x = order.index_of(k);
            assert(order[x] == k);
        }
    }
    devices.retain_flagged(&keep);
    live.retain_flagged(&keep_live);
    let ghost mid = devices@;
    let ghost kept = devices.order();
    proof {
        assert forall|k: Seq<char>| mid.contains_key(k) <==> (ledger.contains_key(k)
            && external@.contains_key(k)) by {
            if order.contains(k) {
                let x = order.index_of(k);
                assert(order[x] == k);
            }
        }
        assert(devices@ =~= nicknames_upto(mid, kept.take(0), external@));
    }
    let count: usize = devices.len();
    let mut renamed: bool = false;
    let mut p: usize = 0;
    while p < count
        invariant
            devices.wf(),
            external.wf(),
            kept == devices.order(),
            count == kept.len(),
            p <= count,
            forall|k: Seq<char>| mid.contains_key(k) ==> external@.contains_key(k),
            forall|k: Seq<char>| mid.contains_key(k) <==> kept.contains(k),
            devices@ == nicknames_upto(mid, kept.take(p as int), external@),
            renamed <==> exists|x: int|
                0 <= x < p && external@[#[trigger] kept[x]].nickname != mid[kept[x]].nickname,
        decreases count - p,
    {
        proof {
            devices.lemma_wf();
            assert forall|k: Seq<char>|
                kept.take(p + 1).contains(k) <==> (kept.take(p as int).contains(k) || kept[p as int]
                    == k) by {
                lemma_take_contains(kept, p as int, k);
            }
            if kept.take(p as int).contains(kept[p as int]) {
                let x = kept.take(p as int).index_of(kept[p as int]);
                assert(kept[x] == kept[p as int]);
            }
            assert(kept.contains(kept[p as int]));
        }
        let key = devices.key_at(p);
        let ours = devices.value_at(p);
        match external.get(key.as_str()) {
            Some(theirs) => {
                assert(ours@ == mid[kept[p as int]]);
                if !same_opt_text(&ours.nickname, &theirs.nickname) {
                    let mut updated = ours.clone();
                    updated.nickname = copy_opt_text(&theirs.nickname);
                    devices.replace_at(p, updated);
                    renamed = true;
                }
            },
            None => {},
        }
        proof {
            assert(devices@ =~= nicknames_upto(mid, kept.take(p + 1), external@));
        }
        p = p + 1;
    }
    proof {
        assert(kept.take(count as int) == kept);
        assert(devices@ =~= reconciled(ledger, external@));
        let changed = forgotten || renamed;
        if forgotten {
            let x = choose|x: int| 0 <= x < n && !#[trigger] keep@[x];
            lemma_index_of(order, x);
            assert(ledger.contains_key(order[x]));
        }
        if renamed {
            let x = choose|x: int|
                0 <= x < count && external@[#[trigger] kept[x]].nickname != mid[kept[x]].nickname;
            assert(kept.contains(kept[x]));
            assert(mid.contains_key(kept[x]));
            assert(ledger.contains_key(kept[x]));
        }
        if asks_for_change(ledger, external@) {
            let k = choose|k: Seq<char>|
                #![trigger ledger.contains_key(k)]
                ledger.contains_key(k) && (!external@.contains_key(k) || external@[k].nickname
                    != ledger[k].nickname);
            if !external@.contains_key(k) {
                let x = order.index_of(k);
                assert(order[x] == k);
                assert(!keep@[x]);
            } else {
                assert(mid.contains_key(k));
                let x = kept.index_of(k);
                assert(kept[x] == k);
                assert(external@[kept[x]].nickname != mid[kept[x]].nickname);
            }
        }
    }
    forgotten || renamed
}

/// What one tick has decided.
pub struct TickOutcome {
    /// The events of this tick, disconnects first.
    pub events: Vec<DeviceEvent>,
    /// Whether the ledger has changed and is to be persisted.
    pub persist: bool,
    /// Whether observers are to be handed a new snapshot.
    pub publish: bool,
}

/// The tracker's own state.
pub struct Monitor {
    /// The inventory snapshot of the previous tick.
    pub prev: DeviceMap<UsbDevice>,
    /// The authoritative ledger.
    pub ledger: KnownDeviceCache,
    /// The live enrichment data of the devices that are attached.
    pub live: DeviceMap<StorageInfo>,
    /// The lookups that wait for their grace period to pass.
    pub pending: Vec<PendingEnrichment>,
    /// Whether a lookup has succeeded since the current tick began.
    pub enriched: bool,
}

/// The ledger when tracking starts, with the identifiers in `done` merged.
spec fn started_upto(
    cache: Map<Seq<char>, KnownDeviceView>,
    done: Seq<Seq<char>>,
    inventory: Map<Seq<char>, UsbDeviceView>,
    now: Seq<char>,
) -> Map<Seq<char>, KnownDeviceView> {
    Map::new(
        |k: Seq<char>| cache.contains_key(k) || done.contains(k),
        |k: Seq<char>|
            if done.contains(k) {
                entry_when_present(lookup(cache, k), k, inventory[k], now)
            } else {
                KnownDeviceView { currently_connected: false, ..cache[k] }
            },
    )
}

/// No counter of the ledger would overflow on the connects between `prev`
/// and `current`: no device that has arrived and that tracker and observers
/// both hold has been counted as often as a counter can hold.
pub open spec fn counters_fit(
    ledger: Map<Seq<char>, KnownDeviceView>,
    prev: Map<Seq<char>, UsbDeviceView>,
    current: Map<Seq<char>, UsbDeviceView>,
    external: Map<Seq<char>, KnownDeviceView>,
) -> bool {
    forall|k: Seq<char>|
        has_arrived(prev, current, k) && is_shared(ledger, external, k) ==> (
        #[trigger] ledger[k]).times_seen < u32::MAX
}

impl Monitor {
    /// The three maps of the tracker are well-formed.
    pub open spec fn wf(&self) -> bool {
        &&& self.prev.wf()
        &&& self.ledger.devices.wf()
        &&& self.live.wf()
    }

    /// Starts tracking at `now` with the stored ledger `cache` and the first
    /// inventory snapshot: every stored device is marked offline, then every
    /// device of the snapshot is marked online or entered as new. Sightings
    /// at start are not counted as connects.
    pub fn start(cache: KnownDeviceCache, inventory: DeviceMap<UsbDevice>, now: &str) -> (m: Monitor)
        requires
            cache.devices.wf(),
            inventory.wf(),
        ensures
            m.wf(),
            m.prev == inventory,
            m.ledger.version == cache.version,
            m.ledger.devices@ == started(cache.devices@, inventory@, now@),
            m.ledger.devices.order() == order_with_new(
                cache.devices.order(),
                inventory.order(),
                Seq::empty(),
            ),
            m.live@ == Map::<Seq<char>, StorageInfoView>::empty(),
            m.live.order() == Seq::<Seq<char>>::empty(),
            m.pending@.len() == 0,
            !m.enriched,
    {
        let ghost stored = cache.devices@;
        let ghost base = cache.devices.order();
        let ghost order = inventory.order();
        let mut ledger = cache;
        mark_all_disconnected(&mut ledger.devices);
        let n: usize = inventory.len();
        let mut i: usize = 0;
        proof {
            assert(order.take(0) =~= Seq::<Seq<char>>::empty());
            assert(ledger.devices@ =~= started_upto(stored, order.take(0), inventory@, now@));
        }
        while i < n
            invariant
                inventory.wf(),
                ledger.devices.wf(),
                ledger.version == cache.version,
                order == inventory.order(),
                n == order.len(),
                i <= n,
                ledger.devices@ == started_upto(stored, order.take(i as int), inventory@, now@),
                ledger.devices.order() == order_with_new(
                    base,
                    order.take(i as int),
                    Seq::empty(),
                ),
            decreases n - i,
        {
            proof {
                inventory.lemma_wf();
                assert(order.take(i + 1).drop_last() == order.take(i as int));
                assert forall|k: Seq<char>|
                    order.take(i + 1).contains(k) <==> (order.take(i as int).contains(k)
                        || order[i as int] == k) by {
                    lemma_take_contains(order, i as int, k);
                }
                if order.take(i as int).contains(order[i as int]) {
                    let j = order.take(i as int).index_of(order[i as int]);
                    assert(order[j] == order[i as int]);
                }
                lemma_assoc_at(order, inventory.items(), i as int);
            }
            merge_present(
                &mut ledger.devices,
                inventory.key_at(i).as_str(),
                inventory.value_at(i),
                now,
            );
            proof {
                assert(ledger.devices@ =~= started_upto(
                    stored,
                    order.take(i + 1),
                    inventory@,
                    now@,
                ));
            }
            i = i + 1;
        }
        proof {
            assert(order.take(n as int) == order);
            assert(ledger.devices@ =~= started(stored, inventory@, now@));
        }
        Monitor {
            prev: inventory,
            ledger,
            live: DeviceMap::new(),
            pending: Vec::new(),
            enriched: false,
        }
    }

    /// The storage devices of the first snapshot, for which the enrichment
    /// source is asked at once.
    pub fn startup_lookups(&self) -> (ids: Vec<String>)
        requires
            self.wf(),
        ensures
            ids.deep_view() == storage_ids(self.prev.order(), self.prev.items()),
    {
        let ghost order = self.prev.order();
        let ghost items = self.prev.items();
        let mut ids: Vec<String> = Vec::new();
        let n: usize = self.prev.len();
        let mut i: usize = 0;
        proof {
            assert(order.take(0) =~= Seq::<Seq<char>>::empty());
            assert(ids.deep_view() =~= Seq::<Seq<char>>::empty());
        }
        while i < n
            invariant
                self.wf(),
                order == self.prev.order(),
                items == self.prev.items(),
                n == order.len(),
                n == items.len(),
                i <= n,
                ids.deep_view() == storage_ids(order.take(i as int), items.take(i as int)),
            decreases n - i,
        {
            proof {
                assert(order.take(i + 1).drop_last() == order.take(i as int));
                assert(items.take(i + 1).drop_last() == items.take(i as int));
            }
            if is_storage_device(self.prev.value_at(i)) {
                let ghost before = ids.deep_view();
                ids.push(self.prev.key_at(i).clone());
                assert(ids.deep_view() =~= before.push(order[i as int]));
            }
            i = i + 1;
        }
        proof {
            assert(order.take(n as int) == order);
            assert(items.take(n as int) == items);
        }
        ids
    }

    /// Stores what the enrichment source has found for the device
    /// `device_id`: in the live enrichment data, and with the device's ledger
    /// entry where there is one. The ledger is to be persisted.
    pub fn record_enrichment(&mut self, device_id: &str, info: StorageInfo)
        requires
            old(self).wf(),
        ensures
            final(self).wf(),
            final(self).live@ == old(self).live@.insert(device_id@, info@),
            final(self).live.order() == with_key(old(self).live.order(), device_id@),
            final(self).ledger.devices@ == enriched(old(self).ledger.devices@, device_id@, info@),
            final(self).ledger.devices.order() == old(self).ledger.devices.order(),
            final(self).ledger.version == old(self).ledger.version,
            final(self).enriched,
            final(self).prev == old(self).prev,
            final(self).pending == old(self).pending,
    {
        self.live.insert(device_id.to_owned(), info.clone());
        let _known = attach_storage(&mut self.ledger.devices, device_id, info);
        self.enriched = true;
    }

    /// Begins a tick at the clock reading `now`: takes the lookups that are
    /// due out of the queue and returns their devices, for which the
    /// enrichment source is to be asked before the inventory is.
    pub fn begin_tick(&mut self, now: u64) -> (ready: Vec<String>)
        ensures
            ready.deep_view() == due_ids(old(self).pending.deep_view(), now),
            final(self).pending.deep_view() == not_due(old(self).pending.deep_view(), now),
            !final(self).enriched,
            final(self).prev == old(self).prev,
            final(self).ledger == old(self).ledger,
            final(self).live == old(self).live,
    {
        self.enriched = false;
        take_due(&mut self.pending, now)
    }

    /// Whether `tick` may be called with `current` and `external`: no counter
    /// would overflow.
    pub fn can_tick(&self, current: &DeviceMap<UsbDevice>, external: &DeviceMap<KnownDevice>) -> (r:
        bool)
        requires
            self.wf(),
            current.wf(),
            external.wf(),
        ensures
            r == counters_fit(self.ledger.devices@, self.prev@, current@, external@),
    {
        let n: usize = current.len();
        let mut i: usize = 0;
        while i < n
            invariant
                self.wf(),
                current.wf(),
                external.wf(),
                n == current.order().len(),
                i <= n,
                forall|x: int|
                    0 <= x < i && !self.prev@.contains_key(#[trigger] current.order()[x])
                        && is_shared(self.ledger.devices@, external@, current.order()[x])
                        ==> self.ledger.devices@[current.order()[x]].times_seen < u32::MAX,
            decreases n - i,
        {
            let id = current.key_at(i);
            if !self.prev.contains_key(id.as_str()) && external.contains_key(id.as_str()) {
                match self.ledger.devices.get(id.as_str()) {
                    Some(e) => {
                        if e.times_seen == u32::MAX {
                            proof {
                                current.lemma_wf();
                                lemma_index_of(current.order(), i as int);
                                assert(has_arrived(self.prev@, current@, id@));
                                assert(is_shared(self.ledger.devices@, external@, id@));
                            }
                            return false;
                        }
                    },
                    None => {},
                }
            }
            i = i + 1;
        }
        proof {
            assert forall|k: Seq<char>|
                has_arrived(self.prev@, current@, k) && is_shared(
                    self.ledger.devices@,
                    external@,
                    k,
                ) implies (#[trigger] self.ledger.devices@[k]).times_seen < u32::MAX by {
                let x = current.order().index_of(k);
                assert(current.order()[x] == k);
            }
        }
        true
    }

    /// One tick with the inventory snapshot `current`, taken at the wall
    /// clock times `time_of_day` and `date_time` and the clock reading `now`,
    /// against the observers' ledger copy `external`.
    ///
    /// The disconnects between the previous snapshot and `current` are
    /// merged into the ledger and the live enrichment data of departed
    /// devices is dropped. The observers' changes are folded in: what the
    /// ledger held before this tick's connects and their copy lacks is
    /// forgotten, and each nickname becomes theirs. Then the connects are
    /// merged, so that a device new to the ledger, or forgotten and back,
    /// is entered as new and stays; a lookup is queued for each storage
    /// device that has arrived. `current` becomes the previous snapshot.
    ///
    /// Observers are to be handed the new snapshot where `publish` says so:
    /// their copy then holds what has arrived.
    pub fn tick(
        &mut self,
        current: DeviceMap<UsbDevice>,
        time_of_day: &str,
        date_time: &str,
        now: u64,
        external: &DeviceMap<KnownDevice>,
    ) -> (outcome: TickOutcome)
        requires
            old(self).wf(),
            current.wf(),
            external.wf(),
            counters_fit(old(self).ledger.devices@, old(self).prev@, current@, external@),
        ensures
            final(self).wf(),
            outcome.events.deep_view() == diff_events(
                old(self).prev.order(),
                old(self).prev.items(),
                current.order(),
                current.items(),
                time_of_day@,
            ),
            final(self).prev == current,
            final(self).ledger.version == old(self).ledger.version,
            final(self).ledger.devices@ == ticked(
                old(self).ledger.devices@,
                old(self).prev@,
                current@,
                date_time@,
                external@,
            ),
            final(self).ledger.devices.order() == order_with_new(
                order_reconciled(old(self).ledger.devices.order(), external@),
                current.order(),
                old(self).prev.order(),
            ),
            final(self).live@ == live_reconciled(
                live_after_departures(old(self).live@, old(self).prev@, current@),
                old(self).ledger.devices@,
                external@,
            ),
            final(self).live.order() == live_order_reconciled(
                live_order_after_departures(old(self).live.order(), old(self).prev@, current@),
                old(self).ledger.devices@,
                external@,
            ),
            final(self).pending.deep_view() == old(self).pending.deep_view() + scheduled(
                current.order(),
                current.items(),
                old(self).prev.order(),
                now,
            ),
            !final(self).enriched,
            outcome.persist == (outcome.events@.len() > 0 || asks_for_change(
                old(self).ledger.devices@,
                external@,
            )),
            outcome.publish == (outcome.events@.len() > 0 || old(self).enriched || old(
                self,
            ).prev.order().len() != current.order().len()),
    {
        let ghost ledger = self.ledger.devices@;
        let events = diff(&self.prev, &current, time_of_day);
        proof {
            lemma_ticked_in_steps(ledger, self.prev@, current@, date_time@, external@);
        }
        apply_departures(&mut self.ledger.devices, &mut self.live, &self.prev, &current, date_time);
        let changed = reconcile(&mut self.ledger.devices, &mut self.live, external);
        proof {
            let mid = departures_merged(ledger, self.prev@, current@, date_time@);
            assert(self.live@ =~= live_reconciled(
                live_after_departures(old(self).live@, self.prev@, current@),
                ledger,
                external@,
            ));
            assert forall|k: Seq<char>|
                has_arrived(self.prev@, current@, k) && self.ledger.devices@.contains_key(
                    k,
                ) implies (#[trigger] self.ledger.devices@[k]).times_seen < u32::MAX by {
                assert(is_shared(ledger, external@, k));
                assert(ledger[k].times_seen < u32::MAX);
                assert(mid[k].times_seen == ledger[k].times_seen);
            }
        }
        apply_arrivals(
            &mut self.ledger.devices,
            &mut self.pending,
            &self.prev,
            &current,
            date_time,
            now,
        );
        let persist = events.len() > 0 || changed;
        let publish = events.len() > 0 || self.enriched || self.prev.len() != current.len();
        self.enriched = false;
        self.prev = current;
        TickOutcome { events, persist, publish }
    }

    /// Hands observers the tracker's view: the sorted list of connected
    /// devices, the new events behind those already logged, a copy of the
    /// ledger and a copy of the live enrichment data.
    pub fn publish(&self, state: &mut AppState, events: Vec<DeviceEvent>)
        requires
            self.wf(),
        ensures
            final(state).wf(),
            final(state).devices.deep_view() == device_list(
                self.prev.order(),
                self.prev.items(),
            ),
            final(state).events.deep_view() == old(state).events.deep_view()
                + events.deep_view(),
            final(state).known_devices@ == self.ledger.devices@,
            final(state).known_devices.order() == self.ledger.devices.order(),
            final(state).storage_info@ == self.live@,
            final(state).storage_info.order() == self.live.order(),
            final(state).error == old(state).error,
            final(state).prefs_theme == old(state).prefs_theme,
            final(state).prefs_tab == old(state).prefs_tab,
    {
        let ghost logged = state.events.deep_view();
        let mut new_events = events;
        state.devices = list_devices(&self.prev);
        state.events.append(&mut new_events);
        state.known_devices = self.ledger.devices.duplicate();
        state.storage_info = self.live.duplicate();
        assert(state.events.deep_view() =~= logged + events.deep_view());
    }
}

/// Over a whole tick a device that tracker and observers both hold is
/// counted once if it has arrived and not at all otherwise, and the time of
/// its first sighting and its stored enrichment stay what they were.
pub proof fn lemma_tick_counts_connects(
    ledger: Map<Seq<char>, KnownDeviceView>,
    prev: Map<Seq<char>, UsbDeviceView>,
    current: Map<Seq<char>, UsbDeviceView>,
    now: Seq<char>,
    external: Map<Seq<char>, KnownDeviceView>,
    id: Seq<char>,
)
    requires
        ledger.contains_key(id),
        external.contains_key(id),
    ensures
        ({
            let after = ticked(ledger, prev, current, now, external);
            &&& after.contains_key(id)
            &&& after[id].first_seen == ledger[id].first_seen
            &&& after[id].storage_info == ledger[id].storage_info
            &&& !has_arrived(prev, current, id) ==> after[id].times_seen == ledger[id].times_seen
            &&& has_arrived(prev, current, id) && ledger[id].times_seen < u32::MAX
                ==> after[id].times_seen == ledger[id].times_seen + 1
        }),
{
}

/// The time of a device's first sighting never changes once its entry is
/// made: not by a tick, whatever it merges, not by a stored enrichment, not
/// by a rename, and not by a restart.
pub proof fn lemma_first_seen_is_kept(
    ledger: Map<Seq<char>, KnownDeviceView>,
    prev: Map<Seq<char>, UsbDeviceView>,
    current: Map<Seq<char>, UsbDeviceView>,
    now: Seq<char>,
    external: Map<Seq<char>, KnownDeviceView>,
    id: Seq<char>,
    info: StorageInfoView,
    text: Seq<char>,
)
    requires
        ledger.contains_key(id),
    ensures
        external.contains_key(id) ==> ticked(ledger, prev, current, now, external)[id].first_seen
            == ledger[id].first_seen,
        enriched(ledger, id, info)[id].first_seen == ledger[id].first_seen,
        crate::ledger::renamed(ledger, id, text)[id].first_seen == ledger[id].first_seen,
        started(ledger, current, now)[id].first_seen == ledger[id].first_seen,
{
}

/// No merge changes a nickname. After a rename in the observers' copy a
/// tick leaves the device with the nickname that the rename gave it, also
/// where the tick merges a connect for it; the descriptive fields are then
/// those of the live record, and the stored enrichment is untouched.
pub proof fn lemma_rename_survives_tick(
    ledger: Map<Seq<char>, KnownDeviceView>,
    prev: Map<Seq<char>, UsbDeviceView>,
    current: Map<Seq<char>, UsbDeviceView>,
    now: Seq<char>,
    external: Map<Seq<char>, KnownDeviceView>,
    id: Seq<char>,
    text: Seq<char>,
)
    requires
        ledger.contains_key(id),
        external.contains_key(id),
    ensures
        ({
            let theirs = crate::ledger::renamed(external, id, text);
            let after = ticked(ledger, prev, current, now, theirs);
            &&& after.contains_key(id)
            &&& after[id].nickname == crate::ledger::nickname_of(text)
            &&& after[id].storage_info == ledger[id].storage_info
            &&& has_arrived(prev, current, id) ==> {
                &&& after[id].name == current[id].display_name()
                &&& after[id].vid_pid == crate::ledger::text_or_empty(current[id].vid_pid())
                &&& after[id].class == current[id].class()
                &&& after[id].manufacturer == crate::ledger::text_or_empty(
                    current[id].manufacturer,
                )
                &&& after[id].description == crate::ledger::text_or_empty(
                    current[id].description,
                )
                &&& after[id].currently_connected
                &&& after[id].last_seen == now
            }
        }),
{
}

/// Each device that tracker and observers both hold has, after a tick, the
/// nickname of the observers' copy, which is the tracker's own unless
/// observers have renamed the device.
pub proof fn lemma_tick_keeps_nickname(
    ledger: Map<Seq<char>, KnownDeviceView>,
    prev: Map<Seq<char>, UsbDeviceView>,
    current: Map<Seq<char>, UsbDeviceView>,
    now: Seq<char>,
    external: Map<Seq<char>, KnownDeviceView>,
    id: Seq<char>,
)
    requires
        ledger.contains_key(id),
        external.contains_key(id),
    ensures
        ticked(ledger, prev, current, now, external)[id].nickname == external[id].nickname,
        external[id].nickname == ledger[id].nickname ==> ticked(
            ledger,
            prev,
            current,
            now,
            external,
        )[id].nickname == ledger[id].nickname,
{
}

/// A device that observers have forgotten and that has not arrived in this
/// tick leaves the tracker's ledger; its live enrichment data leaves in any
/// case.
pub proof fn lemma_forgotten_leaves_tracker(
    ledger: Map<Seq<char>, KnownDeviceView>,
    live: Map<Seq<char>, StorageInfoView>,
    prev: Map<Seq<char>, UsbDeviceView>,
    current: Map<Seq<char>, UsbDeviceView>,
    now: Seq<char>,
    external: Map<Seq<char>, KnownDeviceView>,
    id: Seq<char>,
)
    requires
        ledger.contains_key(id),
        !external.contains_key(id),
    ensures
        !has_arrived(prev, current, id) ==> !ticked(
            ledger,
            prev,
            current,
            now,
            external,
        ).contains_key(id),
        !live_reconciled(live_after_departures(live, prev, current), ledger, external).contains_key(
            id,
        ),
{
}

/// A device that arrives and that tracker and observers do not both hold is
/// entered as new by that tick and stays: seen once, first seen now, without
/// nickname or stored enrichment. This is so for a device never seen before
/// and for a forgotten device on its reconnect, whatever its history was.
pub proof fn lemma_arrival_is_entered_as_new(
    ledger: Map<Seq<char>, KnownDeviceView>,
    prev: Map<Seq<char>, UsbDeviceView>,
    current: Map<Seq<char>, UsbDeviceView>,
    now: Seq<char>,
    external: Map<Seq<char>, KnownDeviceView>,
    id: Seq<char>,
)
    requires
        has_arrived(prev, current, id),
        !ledger.contains_key(id) || !external.contains_key(id),
    ensures
        ticked(ledger, prev, current, now, external).contains_key(id),
        ticked(ledger, prev, current, now, external)[id] == first_sighting(id, current[id], now),
        ticked(ledger, prev, current, now, external)[id].times_seen == 1,
        ticked(ledger, prev, current, now, external)[id].first_seen == now,
        ticked(ledger, prev, current, now, external)[id].last_seen == now,
        ticked(ledger, prev, current, now, external)[id].currently_connected,
        ticked(ledger, prev, current, now, external)[id].nickname is None,
        ticked(ledger, prev, current, now, external)[id].storage_info is None,
{
}

/// A forgotten device starts anew over the ticks that follow. Observers
/// forget a device that is not attached; the next tick removes it from the
/// tracker's ledger and live data; the snapshot is published; then the
/// device arrives, and the tick that sees it ends with a brand-new entry,
/// whatever the ledger held of the device before.
pub proof fn lemma_forgotten_device_reconnects_as_new(
    ledger: Map<Seq<char>, KnownDeviceView>,
    live: Map<Seq<char>, StorageInfoView>,
    first: Map<Seq<char>, UsbDeviceView>,
    second: Map<Seq<char>, UsbDeviceView>,
    third: Map<Seq<char>, UsbDeviceView>,
    t1: Seq<char>,
    t2: Seq<char>,
    external: Map<Seq<char>, KnownDeviceView>,
    id: Seq<char>,
)
    requires
        ledger.contains_key(id),
        !second.contains_key(id),
        third.contains_key(id),
    ensures
        ({
            let forgotten = external.remove(id);
            let after_forget = ticked(ledger, first, second, t1, forgotten);
            let live_after = live_reconciled(
                live_after_departures(live, first, second),
                ledger,
                forgotten,
            );
            // Observers see what the tracker holds after the first tick.
            let after_return = ticked(after_forget, second, third, t2, after_forget);
            &&& !after_forget.contains_key(id)
            &&& !live_after.contains_key(id)
            &&& after_return.contains_key(id)
            &&& after_return[id] == first_sighting(id, third[id], t2)
        }),
{
}

/// A storage device that arrives has, after that tick, an entry without
/// stored enrichment and no live data, also where it is new to the ledger;
/// once its lookup has answered with a find, entry and live data hold it.
pub proof fn lemma_arrival_is_enriched_by_its_lookup(
    ledger: Map<Seq<char>, KnownDeviceView>,
    live: Map<Seq<char>, StorageInfoView>,
    prev: Map<Seq<char>, UsbDeviceView>,
    current: Map<Seq<char>, UsbDeviceView>,
    now: Seq<char>,
    external: Map<Seq<char>, KnownDeviceView>,
    id: Seq<char>,
    info: StorageInfoView,
)
    requires
        has_arrived(prev, current, id),
        !live.contains_key(id),
        ledger.contains_key(id) ==> ledger[id].storage_info is None,
    ensures
        ({
            let after = ticked(ledger, prev, current, now, external);
            let live_after = live_reconciled(
                live_after_departures(live, prev, current),
                ledger,
                external,
            );
            &&& after.contains_key(id)
            &&& after[id].storage_info is None
            &&& !live_after.contains_key(id)
            &&& enriched(after, id, info).contains_key(id)
            &&& enriched(after, id, info)[id].storage_info == Some(info)
            &&& live_after.insert(id, info)[id] == info
        }),
{
}

/// Every lookup that a tick queues is queued at the tick's clock reading,
/// for a storage device that has arrived.
pub proof fn lemma_scheduled_at_now(
    order: Seq<Seq<char>>,
    items: Seq<UsbDeviceView>,
    other: Seq<Seq<char>>,
    now: u64,
    i: int,
) -> (j: int)
    requires
        order.len() == items.len(),
        0 <= i < scheduled(order, items, other, now).len(),
    ensures
        0 <= j < order.len(),
        scheduled(order, items, other, now)[i] == (PendingEnrichmentView {
            device_id: order[j],
            scheduled_at: now,
        }),
        !other.contains(order[j]),
        items[j].is_storage(),
    decreases order.len(),
{
    let before = scheduled(order.drop_last(), items.drop_last(), other, now);
    if i < before.len() {
        lemma_scheduled_at_now(order.drop_last(), items.drop_last(), other, now, i)
    } else {
        order.len() - 1
    }
}

/// No stale flag is inherited across a restart: when tracking starts, a
/// device is marked online exactly if the first snapshot holds it.
pub proof fn lemma_start_clears_stale_flags(
    cache: Map<Seq<char>, KnownDeviceView>,
    inventory: Map<Seq<char>, UsbDeviceView>,
    now: Seq<char>,
    id: Seq<char>,
)
    requires
        cache.contains_key(id) || inventory.contains_key(id),
    ensures
        started(cache, inventory, now).contains_key(id),
        started(cache, inventory, now)[id].currently_connected == inventory.contains_key(id),
        cache.contains_key(id) ==> started(cache, inventory, now)[id].times_seen
            == cache[id].times_seen && started(cache, inventory, now)[id].first_seen
            == cache[id].first_seen && started(cache, inventory, now)[id].nickname
            == cache[id].nickname && started(cache, inventory, now)[id].storage_info
            == cache[id].storage_info,
        !cache.contains_key(id) ==> started(cache, inventory, now)[id] == first_sighting(
            id,
            inventory[id],
            now,
        ),
{
}

/// A tick keeps every entry well-formed as long as the clock does not run
/// behind the first sighting of a device that it merges.
pub proof fn lemma_tick_keeps_entries_wf(
    ledger: Map<Seq<char>, KnownDeviceView>,
    prev: Map<Seq<char>, UsbDeviceView>,
    current: Map<Seq<char>, UsbDeviceView>,
    now: Seq<char>,
    external: Map<Seq<char>, KnownDeviceView>,
    id: Seq<char>,
)
    requires
        counters_fit(ledger, prev, current, external),
        ledger.contains_key(id) ==> ledger[id].wf() && text_le(ledger[id].first_seen, now),
        ticked(ledger, prev, current, now, external).contains_key(id),
    ensures
        ticked(ledger, prev, current, now, external)[id].wf(),
{
    crate::ledger::lemma_merges_keep_entries_wf(lookup(ledger, id), id, current[id], now);
    crate::text::lemma_text_le_reflexive(now);
}

/// Observers win for nickname and forget, the tracker for everything else:
/// folding their changes in leaves each entry that stays as the tracker has
/// it, but for the nickname.
pub proof fn lemma_reconcile_changes_nicknames_only(
    ledger: Map<Seq<char>, KnownDeviceView>,
    external: Map<Seq<char>, KnownDeviceView>,
    id: Seq<char>,
)
    requires
        reconciled(ledger, external).contains_key(id),
    ensures
        ledger.contains_key(id),
        external.contains_key(id),
        reconciled(ledger, external)[id] == (KnownDeviceView {
            nickname: external[id].nickname,
            ..ledger[id]
        }),
        external[id].nickname == ledger[id].nickname ==> reconciled(ledger, external)[id]
            == ledger[id],
{
}

} // verus!
