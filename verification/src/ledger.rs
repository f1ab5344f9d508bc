//! The ledger of every device ever seen, and how observations change it.
//!
//! A connect creates an entry or counts one more sighting and refreshes the
//! descriptive fields; a disconnect marks the entry offline. Neither touches
//! the nickname or the stored enrichment: those change only by an explicit
//! rename, a forget, or a successful enrichment lookup.

use crate::device_map::DeviceMap;
use crate::text::{
    is_blank, is_tight, lemma_text_le_reflexive, lemma_trim_leaves_core, lemma_trim_of_blank,
    text_le, trim, trimmed,
};
use crate::types::{
    copy_opt_storage, copy_opt_text, KnownDevice, KnownDeviceView, StorageInfo, StorageInfoView,
    UsbDevice, UsbDeviceView,
};
use vstd::prelude::*;

verus! {

/// The persisted ledger document: a version tag and every device ever seen.
pub struct KnownDeviceCache {
    pub version: u32,
    pub devices: DeviceMap<KnownDevice>,
}

impl KnownDeviceCache {
    /// An empty ledger of the current document version.
    pub fn new() -> (cache: Self)
        ensures
            cache.version == 2,
            cache.devices.wf(),
            cache.devices@ == Map::<Seq<char>, KnownDeviceView>::empty(),
            cache.devices.order() == Seq::<Seq<char>>::empty(),
    {
        KnownDeviceCache { version: 2, devices: DeviceMap::new() }
    }
}

/// The text, or the empty text where there is none.
pub open spec fn text_or_empty(t: Option<Seq<char>>) -> Seq<char> {
    match t {
        Some(s) => s,
        None => Seq::empty(),
    }
}

/// The text, or the empty text where there is none.
pub fn owned_or_empty(t: Option<String>) -> (r: String)
    ensures
        r@ == text_or_empty(t.deep_view()),
{
    match t {
        Some(s) => s,
        None => String::new(),
    }
}

/// The entry made for a device that the ledger has not seen before.
pub open spec fn first_sighting(id: Seq<char>, dev: UsbDeviceView, now: Seq<char>) -> KnownDeviceView {
    KnownDeviceView {
        device_id: id,
        name: dev.display_name(),
        vid_pid: text_or_empty(dev.vid_pid()),
        class: dev.class(),
        manufacturer: text_or_empty(dev.manufacturer),
        description: text_or_empty(dev.description),
        first_seen: now,
        last_seen: now,
        times_seen: 1,
        currently_connected: true,
        nickname: None,
        storage_info: None,
    }
}

/// A known device found attached: online, seen now, described afresh.
pub open spec fn refreshed(old: KnownDeviceView, dev: UsbDeviceView, now: Seq<char>) -> KnownDeviceView {
    KnownDeviceView {
        name: dev.display_name(),
        vid_pid: text_or_empty(dev.vid_pid()),
        class: dev.class(),
        manufacturer: text_or_empty(dev.manufacturer),
        description: text_or_empty(dev.description),
        last_seen: now,
        currently_connected: true,
        ..old
    }
}

/// A known device that has connected again: refreshed, and counted once more.
pub open spec fn reconnected(old: KnownDeviceView, dev: UsbDeviceView, now: Seq<char>) -> KnownDeviceView {
    KnownDeviceView { times_seen: (old.times_seen + 1) as u32, ..refreshed(old, dev, now) }
}

/// A known device that has disconnected: offline, seen now, all else kept.
pub open spec fn disconnected(old: KnownDeviceView, now: Seq<char>) -> KnownDeviceView {
    KnownDeviceView { last_seen: now, currently_connected: false, ..old }
}

/// The entry of a device after a connect, given the entry it had, if any.
pub open spec fn entry_after_connect(
    old: Option<KnownDeviceView>,
    id: Seq<char>,
    dev: UsbDeviceView,
    now: Seq<char>,
) -> KnownDeviceView {
    match old {
        Some(e) => reconnected(e, dev, now),
        None => first_sighting(id, dev, now),
    }
}

/// The entry of a device found attached at start, given the entry it had, if any.
pub open spec fn entry_when_present(
    old: Option<KnownDeviceView>,
    id: Seq<char>,
    dev: UsbDeviceView,
    now: Seq<char>,
) -> KnownDeviceView {
    match old {
        Some(e) => refreshed(e, dev, now),
        None => first_sighting(id, dev, now),
    }
}

/// The entry that a ledger holds for `id`, if any.
pub open spec fn lookup(ledger: Map<Seq<char>, KnownDeviceView>, id: Seq<char>) -> Option<
    KnownDeviceView,
> {
    if ledger.contains_key(id) {
        Some(ledger[id])
    } else {
        None
    }
}

/// The ledger after the device `id` has connected.
pub open spec fn connect_merged(
    ledger: Map<Seq<char>, KnownDeviceView>,
    id: Seq<char>,
    dev: UsbDeviceView,
    now: Seq<char>,
) -> Map<Seq<char>, KnownDeviceView> {
    ledger.insert(id, entry_after_connect(lookup(ledger, id), id, dev, now))
}

/// The ledger after the device `id` was found attached at start.
pub open spec fn present_merged(
    ledger: Map<Seq<char>, KnownDeviceView>,
    id: Seq<char>,
    dev: UsbDeviceView,
    now: Seq<char>,
) -> Map<Seq<char>, KnownDeviceView> {
    ledger.insert(id, entry_when_present(lookup(ledger, id), id, dev, now))
}

/// The ledger after the device `id` has disconnected.
pub open spec fn disconnect_merged(
    ledger: Map<Seq<char>, KnownDeviceView>,
    id: Seq<char>,
    now: Seq<char>,
) -> Map<Seq<char>, KnownDeviceView> {
    if ledger.contains_key(id) {
        ledger.insert(id, disconnected(ledger[id], now))
    } else {
        ledger
    }
}

/// The nickname that a rename request asks for: the text without surrounding
/// whitespace, or none where nothing is left.
pub open spec fn nickname_of(text: Seq<char>) -> Option<Seq<char>> {
    if trimmed(text).len() == 0 {
        None
    } else {
        Some(trimmed(text))
    }
}

/// The ledger after a rename request for the device `id`.
pub open spec fn renamed(
    ledger: Map<Seq<char>, KnownDeviceView>,
    id: Seq<char>,
    text: Seq<char>,
) -> Map<Seq<char>, KnownDeviceView> {
    if ledger.contains_key(id) {
        ledger.insert(id, KnownDeviceView { nickname: nickname_of(text), ..ledger[id] })
    } else {
        ledger
    }
}

/// The ledger after a successful enrichment lookup for the device `id`.
pub open spec fn enriched(
    ledger: Map<Seq<char>, KnownDeviceView>,
    id: Seq<char>,
    info: StorageInfoView,
) -> Map<Seq<char>, KnownDeviceView> {
    if ledger.contains_key(id) {
        ledger.insert(id, KnownDeviceView { storage_info: Some(info), ..ledger[id] })
    } else {
        ledger
    }
}

/// The ledger with every device marked offline.
pub open spec fn all_offline(ledger: Map<Seq<char>, KnownDeviceView>) -> Map<
    Seq<char>,
    KnownDeviceView,
> {
    Map::new(
        |k: Seq<char>| ledger.contains_key(k),
        |k: Seq<char>| KnownDeviceView { currently_connected: false, ..ledger[k] },
    )
}

impl KnownDeviceView {
    /// What holds of every entry that observations have made: it was seen at
    /// least once, and not for the last time before the first.
    pub open spec fn wf(self) -> bool {
        &&& self.times_seen >= 1
        &&& text_le(self.first_seen, self.last_seen)
    }
}

/// A copy of `e` with the given changes of a sighting.
fn sighted(e: &KnownDevice, dev: &UsbDevice, now: &str, times_seen: u32) -> (r: KnownDevice)
    ensures
        r@ == (KnownDeviceView { times_seen, ..refreshed(e@, dev@, now@) }),
{
    KnownDevice {
        device_id: e.device_id.clone(),
        name: dev.display_name().to_owned(),
        vid_pid: owned_or_empty(dev.vid_pid()),
        class: dev.class().to_owned(),
        manufacturer: owned_or_empty(copy_opt_text(&dev.Manufacturer)),
        description: owned_or_empty(copy_opt_text(&dev.Description)),
        first_seen: e.first_seen.clone(),
        last_seen: now.to_owned(),
        times_seen,
        currently_connected: true,
        nickname: copy_opt_text(&e.nickname),
        storage_info: copy_opt_storage(&e.storage_info),
    }
}

/// The entry for a device that the ledger has not seen before.
fn new_entry(id: &str, dev: &UsbDevice, now: &str) -> (r: KnownDevice)
    ensures
        r@ == first_sighting(id@, dev@, now@),
{
    KnownDevice {
        device_id: id.to_owned(),
        name: dev.display_name().to_owned(),
        vid_pid: owned_or_empty(dev.vid_pid()),
        class: dev.class().to_owned(),
        manufacturer: owned_or_empty(copy_opt_text(&dev.Manufacturer)),
        description: owned_or_empty(copy_opt_text(&dev.Description)),
        first_seen: now.to_owned(),
        last_seen: now.to_owned(),
        times_seen: 1,
        currently_connected: true,
        nickname: None,
        storage_info: None,
    }
}

/// Records that the device `id`, described by `dev`, has connected at `now`.
pub fn merge_connect(devices: &mut DeviceMap<KnownDevice>, id: &str, dev: &UsbDevice, now: &str)
    requires
        old(devices).wf(),
        old(devices)@.contains_key(id@) ==> old(devices)@[id@].times_seen < u32::MAX,
    ensures
        final(devices).wf(),
        final(devices)@ == connect_merged(old(devices)@, id@, dev@, now@),
        final(devices).order() == if old(devices)@.contains_key(id@) {
            old(devices).order()
        } else {
            old(devices).order().push(id@)
        },
{
    match devices.position(id) {
        Some(i) => {
            let e = devices.value_at(i);
            let updated = sighted(e, dev, now, e.times_seen + 1);
            devices.replace_at(i, updated);
        },
        None => {
            devices.insert(id.to_owned(), new_entry(id, dev, now));
        },
    }
}

/// Records that the device `id`, described by `dev`, was found attached when
/// tracking started at `now`.
pub fn merge_present(devices: &mut DeviceMap<KnownDevice>, id: &str, dev: &UsbDevice, now: &str)
    requires
        old(devices).wf(),
    ensures
        final(devices).wf(),
        final(devices)@ == present_merged(old(devices)@, id@, dev@, now@),
        final(devices).order() == if old(devices)@.contains_key(id@) {
            old(devices).order()
        } else {
            old(devices).order().push(id@)
        },
{
    match devices.position(id) {
        Some(i) => {
            let e = devices.value_at(i);
            let updated = sighted(e, dev, now, e.times_seen);
            devices.replace_at(i, updated);
        },
        None => {
            devices.insert(id.to_owned(), new_entry(id, dev, now));
        },
    }
}

/// Records that the device `id` has disconnected at `now`.
pub fn merge_disconnect(devices: &mut DeviceMap<KnownDevice>, id: &str, now: &str)
    requires
        old(devices).wf(),
    ensures
        final(devices).wf(),
        final(devices)@ == disconnect_merged(old(devices)@, id@, now@),
        final(devices).order() == old(devices).order(),
{
    match devices.position(id) {
        Some(i) => {
            let mut updated = devices.value_at(i).clone();
            updated.last_seen = now.to_owned();
            updated.currently_connected = false;
            devices.replace_at(i, updated);
        },
        None => {},
    }
}

/// Marks every device offline, as is done before the first snapshot is merged.
pub fn mark_all_disconnected(devices: &mut DeviceMap<KnownDevice>)
    requires
        old(devices).wf(),
    ensures
        final(devices).wf(),
        final(devices)@ == all_offline(old(devices)@),
        final(devices).order() == old(devices).order(),
{
    let ghost before = devices@;
    let n: usize = devices.len();
    let mut i: usize = 0;
    while i < n
        invariant
            devices.wf(),
            devices.order() == old(devices).order(),
            before == old(devices)@,
            n == devices.order().len(),
            i <= n,
            devices@.dom() == before.dom(),
            forall|j: int|
                0 <= j < n ==> #[trigger] devices@[devices.order()[j]] == if j < i {
                    KnownDeviceView { currently_connected: false, ..before[devices.order()[j]] }
                } else {
                    before[devices.order()[j]]
                },
        decreases n - i,
    {
        proof {
            devices.lemma_wf();
        }
        let ghost order = devices.order();
        let ghost mid = devices@;
        let mut updated = devices.value_at(i).clone();
        updated.currently_connected = false;
        devices.replace_at(i, updated);
        proof {
            assert(devices@.dom() =~= before.dom());
            assert forall|j: int| 0 <= j < n implies #[trigger] devices@[order[j]] == if j < i + 1 {
                KnownDeviceView { currently_connected: false, ..before[order[j]] }
            } else {
                before[order[j]]
            } by {
                if j != i {
                    assert(order[j] != order[i as int]);
                    assert(devices@[order[j]] == mid[order[j]]);
                }
            }
        }
        i = i + 1;
    }
    proof {
        devices.lemma_wf();
        let order = devices.order();
        assert forall|k: Seq<char>| before.contains_key(k) implies #[trigger] devices@[k]
            == all_offline(before)[k] by {
            let j = order.index_of(k);
            assert(order[j] == k);
        }
        assert(devices@ =~= all_offline(before));
    }
}

/// Gives the device `id` the nickname that `text` asks for.
/// Returns whether the ledger holds the device.
pub fn rename(devices: &mut DeviceMap<KnownDevice>, id: &str, text: &str) -> (known: bool)
    requires
        old(devices).wf(),
    ensures
        final(devices).wf(),
        known == old(devices)@.contains_key(id@),
        final(devices)@ == renamed(old(devices)@, id@, text@),
        final(devices).order() == old(devices).order(),
{
    match devices.position(id) {
        Some(i) => {
            let nick = trim(text);
            let mut updated = devices.value_at(i).clone();
            if nick.as_str().is_empty() {
                updated.nickname = None;
            } else {
                updated.nickname = Some(nick);
            }
            devices.replace_at(i, updated);
            true
        },
        None => false,
    }
}

/// Stores the result of a successful enrichment lookup with the device `id`.
/// Returns whether the ledger holds the device.
pub fn attach_storage(devices: &mut DeviceMap<KnownDevice>, id: &str, info: StorageInfo) -> (known:
    bool)
    requires
        old(devices).wf(),
    ensures
        final(devices).wf(),
        known == old(devices)@.contains_key(id@),
        final(devices)@ == enriched(old(devices)@, id@, info@),
        final(devices).order() == old(devices).order(),
{
    match devices.position(id) {
        Some(i) => {
            let mut updated = devices.value_at(i).clone();
            updated.storage_info = Some(info);
            devices.replace_at(i, updated);
            true
        },
        None => false,
    }
}

/// A device that connects, disconnects and connects again is counted once per
/// connect and never on the disconnect, and the time of its first sighting
/// stays what it was when its entry was made.
pub proof fn lemma_times_seen_counts_connects(
    ledger: Map<Seq<char>, KnownDeviceView>,
    id: Seq<char>,
    dev1: UsbDeviceView,
    t1: Seq<char>,
    t2: Seq<char>,
    dev3: UsbDeviceView,
    t3: Seq<char>,
)
    requires
        ledger.contains_key(id) ==> ledger[id].times_seen + 2 <= u32::MAX,
    ensures
        ({
            let a = connect_merged(ledger, id, dev1, t1);
            let b = disconnect_merged(a, id, t2);
            let c = connect_merged(b, id, dev3, t3);
            &&& a.contains_key(id) && b.contains_key(id) && c.contains_key(id)
            &&& ledger.contains_key(id) ==> a[id].times_seen == ledger[id].times_seen + 1
                && a[id].first_seen == ledger[id].first_seen
            &&& !ledger.contains_key(id) ==> a[id].times_seen == 1 && a[id].first_seen == t1
            &&& b[id].times_seen == a[id].times_seen
            &&& c[id].times_seen == a[id].times_seen + 1
            &&& b[id].first_seen == a[id].first_seen
            &&& c[id].first_seen == a[id].first_seen
        }),
{
}

/// No merge of an observation changes a nickname: after a rename, a connect,
/// a disconnect, a sighting at start, a mass mark as offline and a stored
/// enrichment all leave the device with the nickname that the rename gave it.
pub proof fn lemma_merges_keep_nickname(
    ledger: Map<Seq<char>, KnownDeviceView>,
    id: Seq<char>,
    text: Seq<char>,
    dev: UsbDeviceView,
    now: Seq<char>,
    info: StorageInfoView,
)
    requires
        ledger.contains_key(id),
    ensures
        ({
            let named = renamed(ledger, id, text);
            &&& named[id].nickname == nickname_of(text)
            &&& connect_merged(named, id, dev, now)[id].nickname == nickname_of(text)
            &&& disconnect_merged(named, id, now)[id].nickname == nickname_of(text)
            &&& present_merged(named, id, dev, now)[id].nickname == nickname_of(text)
            &&& all_offline(named)[id].nickname == nickname_of(text)
            &&& enriched(named, id, info)[id].nickname == nickname_of(text)
        }),
{
}

/// A merge for one device leaves the nicknames of all devices as they were.
pub proof fn lemma_merges_keep_all_nicknames(
    ledger: Map<Seq<char>, KnownDeviceView>,
    id: Seq<char>,
    other: Seq<char>,
    dev: UsbDeviceView,
    now: Seq<char>,
)
    requires
        ledger.contains_key(other),
    ensures
        connect_merged(ledger, id, dev, now)[other].nickname == ledger[other].nickname,
        disconnect_merged(ledger, id, now)[other].nickname == ledger[other].nickname,
        present_merged(ledger, id, dev, now)[other].nickname == ledger[other].nickname,
{
}

/// Merging a connect into a ledger from which a device was removed gives
/// the device a brand-new entry: seen once, first seen now, without nickname
/// or enrichment, whatever its history was. This speaks of the merge alone;
/// what a device has after the ticks in which it is forgotten and connects
/// again is stated with the tick.
pub proof fn lemma_forgotten_device_starts_anew(
    ledger: Map<Seq<char>, KnownDeviceView>,
    id: Seq<char>,
    dev: UsbDeviceView,
    now: Seq<char>,
)
    ensures
        !ledger.remove(id).contains_key(id),
        connect_merged(ledger.remove(id), id, dev, now)[id] == first_sighting(id, dev, now),
        first_sighting(id, dev, now).times_seen == 1,
        first_sighting(id, dev, now).first_seen == now,
        first_sighting(id, dev, now).nickname is None,
        first_sighting(id, dev, now).storage_info is None,
{
}

/// Merges keep an entry well-formed as long as the clock does not run
/// behind the entry's first sighting.
pub proof fn lemma_merges_keep_entries_wf(
    old: Option<KnownDeviceView>,
    id: Seq<char>,
    dev: UsbDeviceView,
    now: Seq<char>,
)
    requires
        old matches Some(e) ==> e.wf() && text_le(e.first_seen, now),
    ensures
        (old matches Some(e) ==> e.times_seen < u32::MAX) ==> entry_after_connect(
            old,
            id,
            dev,
            now,
        ).wf(),
        entry_when_present(old, id, dev, now).wf(),
        old matches Some(e) ==> disconnected(e, now).wf(),
{
    lemma_text_le_reflexive(now);
}

/// A rename to whitespace alone clears the nickname; a rename to a text
/// with whitespace around it gives the text without that whitespace.
pub proof fn lemma_nickname_is_the_trimmed_text(
    before: Seq<char>,
    core: Seq<char>,
    after: Seq<char>,
)
    requires
        is_blank(before),
        is_blank(after),
    ensures
        nickname_of(before + after) is None,
        is_tight(core) ==> nickname_of(before + core + after) == Some(core),
        is_tight(core) ==> nickname_of(core) == Some(core),
{
    assert forall|i: int| 0 <= i < (before + after).len() implies crate::text::is_whitespace(
        #[trigger] (before + after)[i],
    ) by {
        if i < before.len() {
            assert((before + after)[i] == before[i]);
        } else {
            assert((before + after)[i] == after[i - before.len()]);
        }
    }
    lemma_trim_of_blank(before + after);
    if is_tight(core) {
        lemma_trim_leaves_core(before, core, after);
    }
}

} // verus!
