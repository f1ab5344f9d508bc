//! The listing of known devices: which ledger entries a search finds, and
//! in which order they are shown.

use crate::choices::SortMode;
use crate::device_map::DeviceMap;
use crate::ledger::text_or_empty;
use crate::sorting::{
    is_total, is_transitive, lemma_sorted_by, ordered_by, sort_by, sorted_by, Ranking,
};
use crate::text::{
    chars_of, contains, contains_text, lemma_text_le_total, lemma_text_le_transitive, lowercase,
    text_before_or_same, text_le,
};
use crate::types::{KnownDevice, KnownDeviceView};
use vstd::prelude::*;

verus! {

/// Whether `a` may stand before `b` when known devices are listed by `mode`
/// in rising order. By status, offline devices come first, and devices of
/// one status go by name without regard to case.
pub open spec fn rises(mode: SortMode, a: KnownDeviceView, b: KnownDeviceView) -> bool {
    match mode {
        SortMode::Status => (!a.currently_connected && b.currently_connected) || (
        a.currently_connected == b.currently_connected && text_le(
            lowercase(a.name),
            lowercase(b.name),
        )),
        SortMode::Name => text_le(lowercase(a.name), lowercase(b.name)),
        SortMode::LastSeen => text_le(a.last_seen, b.last_seen),
        SortMode::TimesSeen => a.times_seen <= b.times_seen,
        SortMode::FirstSeen => text_le(a.first_seen, b.first_seen),
    }
}

/// The order in which known devices are listed: by `mode`, rising or falling.
pub struct KnownOrder {
    pub mode: SortMode,
    pub ascending: bool,
}

/// Whether the text `a` comes before the text `b`, or equals it.
fn text_precedes(a: &str, b: &str) -> (r: bool)
    ensures
        r == text_le(a@, b@),
{
    text_before_or_same(&chars_of(a), &chars_of(b))
}

/// Whether `a` comes before `b`, or equals it, without regard to case.
fn name_precedes(a: &str, b: &str) -> (r: bool)
    ensures
        r == text_le(lowercase(a@), lowercase(b@)),
{
    text_precedes(a.to_lowercase().as_str(), b.to_lowercase().as_str())
}

/// Whether `a` may stand before `b` when listed by `mode` in rising order.
fn rises_before(mode: SortMode, a: &KnownDevice, b: &KnownDevice) -> (r: bool)
    ensures
        r == rises(mode, a@, b@),
{
    match mode {
        SortMode::Status => {
            if a.currently_connected == b.currently_connected {
                name_precedes(a.name.as_str(), b.name.as_str())
            } else {
                !a.currently_connected
            }
        },
        SortMode::Name => name_precedes(a.name.as_str(), b.name.as_str()),
        SortMode::LastSeen => text_precedes(a.last_seen.as_str(), b.last_seen.as_str()),
        SortMode::TimesSeen => a.times_seen <= b.times_seen,
        SortMode::FirstSeen => text_precedes(a.first_seen.as_str(), b.first_seen.as_str()),
    }
}

impl Ranking<KnownDevice> for KnownOrder {
    open spec fn le(&self, a: KnownDeviceView, b: KnownDeviceView) -> bool {
        if self.ascending {
            rises(self.mode, a, b)
        } else {
            rises(self.mode, b, a)
        }
    }

    fn precedes(&self, a: &KnownDevice, b: &KnownDevice) -> (r: bool) {
        if self.ascending {
            rises_before(self.mode, a, b)
        } else {
            rises_before(self.mode, b, a)
        }
    }
}

/// Every listing order is total and transitive, so what is sorted by it is
/// ordered.
pub proof fn lemma_known_order_is_an_order(order: KnownOrder)
    ensures
        is_total::<KnownDevice, KnownOrder>(order),
        is_transitive::<KnownDevice, KnownOrder>(order),
{
    assert forall|a: KnownDeviceView, b: KnownDeviceView| #[trigger]
        order.le(a, b) || #[trigger] order.le(b, a) by {
        lemma_text_le_total(lowercase(a.name), lowercase(b.name));
        lemma_text_le_total(a.last_seen, b.last_seen);
        lemma_text_le_total(a.first_seen, b.first_seen);
    }
    assert forall|a: KnownDeviceView, b: KnownDeviceView, c: KnownDeviceView| #[trigger]
        order.le(a, b) && #[trigger] order.le(b, c) implies order.le(a, c) by {
        if order.ascending {
            lemma_rises_transitive(order.mode, a, b, c);
        } else {
            lemma_rises_transitive(order.mode, c, b, a);
        }
    }
}

/// The rising order of every mode is transitive.
proof fn lemma_rises_transitive(
    mode: SortMode,
    a: KnownDeviceView,
    b: KnownDeviceView,
    c: KnownDeviceView,
)
    requires
        rises(mode, a, b),
        rises(mode, b, c),
    ensures
        rises(mode, a, c),
{
    match mode {
        SortMode::Status => {
            if a.currently_connected == b.currently_connected && b.currently_connected
                == c.currently_connected {
                lemma_text_le_transitive(
                    lowercase(a.name),
                    lowercase(b.name),
                    lowercase(c.name),
                );
            }
        },
        SortMode::Name => {
            lemma_text_le_transitive(lowercase(a.name), lowercase(b.name), lowercase(c.name));
        },
        SortMode::LastSeen => {
            lemma_text_le_transitive(a.last_seen, b.last_seen, c.last_seen);
        },
        SortMode::TimesSeen => {},
        SortMode::FirstSeen => {
            lemma_text_le_transitive(a.first_seen, b.first_seen, c.first_seen);
        },
    }
}

/// Whether a search for `query` finds the device: every device for an empty
/// query, else each whose name, identifier, class, manufacturer,
/// vendor/product tag or nickname contains the query, without regard to case.
pub open spec fn found_by(d: KnownDeviceView, query: Seq<char>) -> bool {
    let q = lowercase(query);
    ||| q.len() == 0
    ||| contains_text(lowercase(d.name), q)
    ||| contains_text(lowercase(d.device_id), q)
    ||| contains_text(lowercase(d.class), q)
    ||| contains_text(lowercase(d.manufacturer), q)
    ||| contains_text(lowercase(d.vid_pid), q)
    ||| contains_text(lowercase(text_or_empty(d.nickname)), q)
}

/// Whether `field` contains `wanted` once it is put in lower case.
fn field_contains(field: &str, wanted: &Vec<char>) -> (r: bool)
    ensures
        r == contains_text(lowercase(field@), wanted@),
{
    contains(&chars_of(field.to_lowercase().as_str()), wanted)
}

/// Whether a search for `query` finds the device `d`.
pub fn matches_query(d: &KnownDevice, query: &str) -> (r: bool)
    ensures
        r == found_by(d@, query@),
{
    let q = chars_of(query.to_lowercase().as_str());
    if q.len() == 0 {
        return true;
    }
    let nick: &str = match &d.nickname {
        Some(n) => n.as_str(),
        None => "",
    };
    assert(nick@ == text_or_empty(d@.nickname)) by {
        reveal_strlit("");
        assert(""@.len() == 0);
        assert(""@ =~= Seq::<char>::empty());
    }
    field_contains(d.name.as_str(), &q) || field_contains(d.device_id.as_str(), &q)
        || field_contains(d.class.as_str(), &q) || field_contains(d.manufacturer.as_str(), &q)
        || field_contains(d.vid_pid.as_str(), &q) || field_contains(nick, &q)
}

/// The devices among `items` that a search for `query` finds, in their order.
pub open spec fn found(items: Seq<KnownDeviceView>, query: Seq<char>) -> Seq<KnownDeviceView>
    decreases items.len(),
{
    if items.len() == 0 {
        Seq::empty()
    } else {
        let before = found(items.drop_last(), query);
        if found_by(items.last(), query) {
            before.push(items.last())
        } else {
            before
        }
    }
}

/// The known devices to show: those that the search finds, in listing order.
pub open spec fn arranged(
    items: Seq<KnownDeviceView>,
    query: Seq<char>,
    order: KnownOrder,
) -> Seq<KnownDeviceView> {
    sorted_by::<KnownDevice, KnownOrder>(order, found(items, query))
}

/// What is shown is in listing order and holds exactly the devices that the
/// search finds.
pub proof fn lemma_arranged(items: Seq<KnownDeviceView>, query: Seq<char>, order: KnownOrder)
    ensures
        ordered_by::<KnownDevice, KnownOrder>(order, arranged(items, query, order)),
        arranged(items, query, order).to_multiset() == found(items, query).to_multiset(),
{
    lemma_known_order_is_an_order(order);
    lemma_sorted_by::<KnownDevice, KnownOrder>(order, found(items, query));
}

/// The known devices to show for the search `query`, listed by `mode`,
/// rising or falling. Devices that rank alike stay in ledger order.
pub fn arrange_known(
    devices: &DeviceMap<KnownDevice>,
    query: &str,
    mode: SortMode,
    ascending: bool,
) -> (out: Vec<KnownDevice>)
    requires
        devices.wf(),
    ensures
        out.deep_view() == arranged(devices.items(), query@, KnownOrder { mode, ascending }),
{
    let ghost items = devices.items();
    let mut hits: Vec<KnownDevice> = Vec::new();
    let n: usize = devices.len();
    let mut i: usize = 0;
    assert(items.take(0) =~= Seq::<KnownDeviceView>::empty());
    assert(hits.deep_view() =~= Seq::<KnownDeviceView>::empty());
    while i < n
        invariant
            devices.wf(),
            items == devices.items(),
            n == items.len(),
            n == devices.order().len(),
            i <= n,
            hits.deep_view() == found(items.take(i as int), query@),
        decreases n - i,
    {
        proof {
            assert(items.take(i + 1).drop_last() == items.take(i as int));
        }
        let d = devices.value_at(i);
        if matches_query(d, query) {
            let ghost before = hits.deep_view();
            hits.push(d.clone());
            assert(hits.deep_view() =~= before.push(items[i as int]));
        }
        i = i + 1;
    }
    assert(items.take(n as int) == items);
    sort_by(&hits, &KnownOrder { mode, ascending })
}

/// The number of devices among `items` that are attached.
pub open spec fn connected_among(items: Seq<KnownDeviceView>) -> nat
    decreases items.len(),
{
    if items.len() == 0 {
        0
    } else if items.last().currently_connected {
        connected_among(items.drop_last()) + 1
    } else {
        connected_among(items.drop_last())
    }
}

/// The number of known devices that are attached.
pub fn connected_count(devices: &DeviceMap<KnownDevice>) -> (count: usize)
    requires
        devices.wf(),
    ensures
        count == connected_among(devices.items()),
{
    let ghost items = devices.items();
    let n: usize = devices.len();
    let mut count: usize = 0;
    let mut i: usize = 0;
    assert(items.take(0) =~= Seq::<KnownDeviceView>::empty());
    while i < n
        invariant
            devices.wf(),
            items == devices.items(),
            n == items.len(),
            n == devices.order().len(),
            i <= n,
            count <= i,
            count == connected_among(items.take(i as int)),
        decreases n - i,
    {
        proof {
            assert(items.take(i + 1).drop_last() == items.take(i as int));
        }
        if devices.value_at(i).currently_connected {
            count = count + 1;
        }
        i = i + 1;
    }
    assert(items.take(n as int) == items);
    count
}

} // verus!
