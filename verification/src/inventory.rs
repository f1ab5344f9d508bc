//! Inventory snapshots and the difference between two of them.
//!
//! A snapshot maps the identifier of each attached device to its record.
//! Connect and disconnect are decided by membership alone: an identifier that
//! both snapshots hold gives no event, whatever has changed in its record.

use crate::device::{event_for, event_of};
use crate::device_map::DeviceMap;
use crate::types::{DeviceEvent, DeviceEventView, UsbDevice, UsbDeviceView};
use vstd::prelude::*;

verus! {

/// The kind of a connect event.
pub open spec fn kind_connect() -> Seq<char> {
    "connect"@
}

/// The kind of a disconnect event.
pub open spec fn kind_disconnect() -> Seq<char> {
    "disconnect"@
}

/// The two kinds differ.
pub proof fn lemma_kinds_differ()
    ensures
        kind_connect() != kind_disconnect(),
{
    reveal_strlit("connect");
    reveal_strlit("disconnect");
    assert("connect"@.len() == 7);
    assert("disconnect"@.len() == 10);
}

/// The identifiers that the records carry, in the order of first appearance.
pub open spec fn record_ids(records: Seq<UsbDeviceView>) -> Seq<Seq<char>>
    decreases records.len(),
{
    if records.len() == 0 {
        Seq::empty()
    } else {
        let before = record_ids(records.drop_last());
        match records.last().device_id {
            Some(id) => if before.contains(id) {
                before
            } else {
                before.push(id)
            },
            None => before,
        }
    }
}

/// The snapshot that the records make: each identifier with the last record
/// that carries it. Records without an identifier are left out.
pub open spec fn record_map(records: Seq<UsbDeviceView>) -> Map<Seq<char>, UsbDeviceView>
    decreases records.len(),
{
    if records.len() == 0 {
        Map::empty()
    } else {
        let before = record_map(records.drop_last());
        match records.last().device_id {
            Some(id) => before.insert(id, records.last()),
            None => before,
        }
    }
}

/// Builds the snapshot of the records that the inventory source returned.
pub fn inventory_from_records(records: &Vec<UsbDevice>) -> (inv: DeviceMap<UsbDevice>)
    ensures
        inv.wf(),
        inv.order() == record_ids(records.deep_view()),
        inv@ == record_map(records.deep_view()),
{
    let mut inv: DeviceMap<UsbDevice> = DeviceMap::new();
    let ghost all = records.deep_view();
    let mut i: usize = 0;
    assert(all.take(0) =~= Seq::<UsbDeviceView>::empty());
    while i < records.len()
        invariant
            all == records.deep_view(),
            i <= records.len(),
            inv.wf(),
            inv.order() == record_ids(all.take(i as int)),
            inv@ == record_map(all.take(i as int)),
        decreases records.len() - i,
    {
        proof {
            assert(all.take(i + 1).drop_last() == all.take(i as int));
            assert(all.take(i + 1).last() == records@[i as int].deep_view());
        }
        match &records[i].DeviceID {
            Some(id) => {
                inv.insert(id.clone(), records[i].clone());
            },
            None => {},
        }
        i = i + 1;
    }
    assert(all.take(records.len() as int) == all);
    inv
}

/// One event of kind `kind` for each identifier of `order` that `other`
/// lacks, in the order of `order`; `items[i]` is the record of `order[i]`.
pub open spec fn events_for(
    kind: Seq<char>,
    timestamp: Seq<char>,
    order: Seq<Seq<char>>,
    items: Seq<UsbDeviceView>,
    other: Seq<Seq<char>>,
) -> Seq<DeviceEventView>
    decreases order.len(),
{
    if order.len() == 0 {
        Seq::empty()
    } else {
        let before = events_for(kind, timestamp, order.drop_last(), items.drop_last(), other);
        if other.contains(order.last()) {
            before
        } else {
            before.push(event_of(kind, timestamp, order.last(), items.last()))
        }
    }
}

/// The events between two snapshots: a disconnect for each identifier that
/// only the previous one holds, then a connect for each that only the current
/// one holds.
pub open spec fn diff_events(
    prev_order: Seq<Seq<char>>,
    prev_items: Seq<UsbDeviceView>,
    cur_order: Seq<Seq<char>>,
    cur_items: Seq<UsbDeviceView>,
    timestamp: Seq<char>,
) -> Seq<DeviceEventView> {
    events_for(kind_disconnect(), timestamp, prev_order, prev_items, cur_order) + events_for(
        kind_connect(),
        timestamp,
        cur_order,
        cur_items,
        prev_order,
    )
}

/// Appends to `out` one event of kind `kind` for each device of `from` that
/// `other` lacks.
fn collect_events(
    kind: &str,
    timestamp: &str,
    from: &DeviceMap<UsbDevice>,
    other: &DeviceMap<UsbDevice>,
    out: &mut Vec<DeviceEvent>,
)
    requires
        from.wf(),
        other.wf(),
    ensures
        final(out).deep_view() == old(out).deep_view() + events_for(
            kind@,
            timestamp@,
            from.order(),
            from.items(),
            other.order(),
        ),
{
    let ghost start = out.deep_view();
    let ghost order = from.order();
    let ghost items = from.items();
    let n: usize = from.len();
    let mut i: usize = 0;
    assert(order.take(0) =~= Seq::<Seq<char>>::empty());
    assert(out.deep_view() =~= start + Seq::<DeviceEventView>::empty());
    while i < n
        invariant
            from.wf(),
            other.wf(),
            order == from.order(),
            items == from.items(),
            n == order.len(),
            n == items.len(),
            i <= n,
            out.deep_view() == start + events_for(
                kind@,
                timestamp@,
                order.take(i as int),
                items.take(i as int),
                other.order(),
            ),
        decreases n - i,
    {
        proof {
            assert(order.take(i + 1).drop_last() == order.take(i as int));
            assert(items.take(i + 1).drop_last() == items.take(i as int));
        }
        let id = from.key_at(i);
        if !other.contains_key(id.as_str()) {
            let ghost before = out.deep_view();
            let ev = event_for(kind, timestamp, id.as_str(), from.value_at(i));
            out.push(ev);
            assert(out.deep_view() =~= before.push(ev@));
            assert(out.deep_view() =~= start + events_for(
                kind@,
                timestamp@,
                order.take(i + 1),
                items.take(i + 1),
                other.order(),
            ));
        }
        i = i + 1;
    }
    assert(order.take(n as int) == order);
    assert(items.take(n as int) == items);
}

/// The events between the snapshot `prev` and the snapshot `current` that
/// follows it, stamped with `timestamp`.
pub fn diff(prev: &DeviceMap<UsbDevice>, current: &DeviceMap<UsbDevice>, timestamp: &str) -> (events:
    Vec<DeviceEvent>)
    requires
        prev.wf(),
        current.wf(),
    ensures
        events.deep_view() == diff_events(
            prev.order(),
            prev.items(),
            current.order(),
            current.items(),
            timestamp@,
        ),
{
    let mut events: Vec<DeviceEvent> = Vec::new();
    assert(events.deep_view() =~= Seq::<DeviceEventView>::empty());
    collect_events("disconnect", timestamp, prev, current, &mut events);
    collect_events("connect", timestamp, current, prev, &mut events);
    events
}

/// Each event of `events_for` stems from an identifier that `other` lacks.
pub proof fn lemma_event_source(
    kind: Seq<char>,
    timestamp: Seq<char>,
    order: Seq<Seq<char>>,
    items: Seq<UsbDeviceView>,
    other: Seq<Seq<char>>,
    e: int,
) -> (j: int)
    requires
        order.len() == items.len(),
        0 <= e < events_for(kind, timestamp, order, items, other).len(),
    ensures
        0 <= j < order.len(),
        !other.contains(order[j]),
        events_for(kind, timestamp, order, items, other)[e] == event_of(
            kind,
            timestamp,
            order[j],
            items[j],
        ),
    decreases order.len(),
{
    let before = events_for(kind, timestamp, order.drop_last(), items.drop_last(), other);
    if e < before.len() {
        lemma_event_source(kind, timestamp, order.drop_last(), items.drop_last(), other, e)
    } else {
        order.len() - 1
    }
}

/// Each identifier that `other` lacks has its event in `events_for`.
pub proof fn lemma_event_present(
    kind: Seq<char>,
    timestamp: Seq<char>,
    order: Seq<Seq<char>>,
    items: Seq<UsbDeviceView>,
    other: Seq<Seq<char>>,
    j: int,
) -> (e: int)
    requires
        order.len() == items.len(),
        0 <= j < order.len(),
        !other.contains(order[j]),
    ensures
        0 <= e < events_for(kind, timestamp, order, items, other).len(),
        events_for(kind, timestamp, order, items, other)[e] == event_of(
            kind,
            timestamp,
            order[j],
            items[j],
        ),
    decreases order.len(),
{
    let before = events_for(kind, timestamp, order.drop_last(), items.drop_last(), other);
    if j < order.len() - 1 {
        lemma_event_present(kind, timestamp, order.drop_last(), items.drop_last(), other, j)
    } else {
        before.len() as int
    }
}

/// No two events of `events_for` speak of the same identifier.
pub proof fn lemma_events_distinct(
    kind: Seq<char>,
    timestamp: Seq<char>,
    order: Seq<Seq<char>>,
    items: Seq<UsbDeviceView>,
    other: Seq<Seq<char>>,
    e: int,
    f: int,
)
    requires
        order.len() == items.len(),
        order.no_duplicates(),
        0 <= e < f < events_for(kind, timestamp, order, items, other).len(),
    ensures
        events_for(kind, timestamp, order, items, other)[e].device_id != events_for(
            kind,
            timestamp,
            order,
            items,
            other,
        )[f].device_id,
    decreases order.len(),
{
    let before = events_for(kind, timestamp, order.drop_last(), items.drop_last(), other);
    if f < before.len() {
        lemma_events_distinct(
            kind,
            timestamp,
            order.drop_last(),
            items.drop_last(),
            other,
            e,
            f,
        );
    } else {
        let j = lemma_event_source(
            kind,
            timestamp,
            order.drop_last(),
            items.drop_last(),
            other,
            e,
        );
        assert(order.drop_last()[j] == order[j]);
    }
}

/// Among `events`, the event at `e` is the only one that speaks of `id`.
pub open spec fn is_only_event_of(events: Seq<DeviceEventView>, e: int, id: Seq<char>) -> bool {
    &&& 0 <= e < events.len()
    &&& events[e].device_id == id
    &&& forall|f: int| 0 <= f < events.len() && events[f].device_id == id ==> f == e
}

/// The events between two snapshots are the symmetric difference of their
/// identifiers: an identifier that only the previous snapshot holds has
/// exactly one event, a disconnect with the attributes it had there; one that
/// only the current snapshot holds has exactly one event, a connect with the
/// attributes it has there; an identifier that both or neither hold has no
/// event, whatever its records say; and no disconnect follows a connect.
pub proof fn lemma_diff_is_symmetric_difference(
    prev: DeviceMap<UsbDevice>,
    current: DeviceMap<UsbDevice>,
    timestamp: Seq<char>,
    id: Seq<char>,
)
    requires
        prev.wf(),
        current.wf(),
    ensures
        ({
            let events = diff_events(
                prev.order(),
                prev.items(),
                current.order(),
                current.items(),
                timestamp,
            );
            let gone = prev@.contains_key(id) && !current@.contains_key(id);
            let come = current@.contains_key(id) && !prev@.contains_key(id);
            &&& gone ==> exists|e: int|
                is_only_event_of(events, e, id) && #[trigger] events[e] == event_of(
                    kind_disconnect(),
                    timestamp,
                    id,
                    prev@[id],
                )
            &&& come ==> exists|e: int|
                is_only_event_of(events, e, id) && #[trigger] events[e] == event_of(
                    kind_connect(),
                    timestamp,
                    id,
                    current@[id],
                )
            &&& !gone && !come ==> forall|e: int|
                0 <= e < events.len() ==> (#[trigger] events[e]).device_id != id
            &&& forall|e: int, f: int|
                0 <= e < f < events.len() && (#[trigger] events[e]).kind == kind_connect()
                    ==> (#[trigger] events[f]).kind == kind_connect()
        }),
{
    prev.lemma_wf();
    current.lemma_wf();
    lemma_kinds_differ();
    let po = prev.order();
    let pi = prev.items();
    let co = current.order();
    let ci = current.items();
    let gone_events = events_for(kind_disconnect(), timestamp, po, pi, co);
    let events = diff_events(po, pi, co, ci, timestamp);
    let gone = prev@.contains_key(id) && !current@.contains_key(id);
    let come = current@.contains_key(id) && !prev@.contains_key(id);
    // Where each event comes from.
    assert forall|e: int| 0 <= e < events.len() implies ({
        let ev = #[trigger] events[e];
        if e < gone_events.len() {
            ev.kind == kind_disconnect() && po.contains(ev.device_id) && !co.contains(
                ev.device_id,
            )
        } else {
            ev.kind == kind_connect() && co.contains(ev.device_id) && !po.contains(ev.device_id)
        }
    }) by {
        if e < gone_events.len() {
            let j = lemma_event_source(kind_disconnect(), timestamp, po, pi, co, e);
            assert(po[j] == events[e].device_id);
        } else {
            let j = lemma_event_source(
                kind_connect(),
                timestamp,
                co,
                ci,
                po,
                e - gone_events.len(),
            );
            assert(co[j] == events[e].device_id);
        }
    }
    // No two events speak of the same identifier.
    assert forall|e: int, f: int| 0 <= e < f < events.len() implies (#[trigger] events[e]).device_id
        != (#[trigger] events[f]).device_id by {
        if f < gone_events.len() {
            lemma_events_distinct(kind_disconnect(), timestamp, po, pi, co, e, f);
        } else if e >= gone_events.len() {
            lemma_events_distinct(
                kind_connect(),
                timestamp,
                co,
                ci,
                po,
                e - gone_events.len(),
                f - gone_events.len(),
            );
        }
    }
    if gone {
        let j = po.index_of(id);
        let e = lemma_event_present(kind_disconnect(), timestamp, po, pi, co, j);
        crate::device_map::lemma_assoc_at(po, pi, j);
        assert(events[e] == event_of(kind_disconnect(), timestamp, id, prev@[id]));
        assert(is_only_event_of(events, e, id));
    }
    if come {
        let j = co.index_of(id);
        let e0 = lemma_event_present(kind_connect(), timestamp, co, ci, po, j);
        let e = gone_events.len() + e0;
        crate::device_map::lemma_assoc_at(co, ci, j);
        assert(events[e] == event_of(kind_connect(), timestamp, id, current@[id]));
        assert(is_only_event_of(events, e, id));
    }
}

/// Identifiers that `other` holds give no events.
pub proof fn lemma_no_events_for_held(
    kind: Seq<char>,
    timestamp: Seq<char>,
    order: Seq<Seq<char>>,
    items: Seq<UsbDeviceView>,
    other: Seq<Seq<char>>,
)
    requires
        forall|i: int| 0 <= i < order.len() ==> other.contains(#[trigger] order[i]),
    ensures
        events_for(kind, timestamp, order, items, other) == Seq::<DeviceEventView>::empty(),
    decreases order.len(),
{
    if order.len() > 0 {
        assert forall|i: int| 0 <= i < order.drop_last().len() implies other.contains(
            #[trigger] order.drop_last()[i],
        ) by {
            assert(order.drop_last()[i] == order[i]);
        }
        lemma_no_events_for_held(kind, timestamp, order.drop_last(), items.drop_last(), other);
        assert(other.contains(order[order.len() - 1]));
    }
}

/// Two snapshots that hold the same identifiers give no events, whatever
/// has changed in the records.
pub proof fn lemma_same_identifiers_give_no_events(
    prev: DeviceMap<UsbDevice>,
    current: DeviceMap<UsbDevice>,
    timestamp: Seq<char>,
)
    requires
        prev.wf(),
        current.wf(),
        prev@.dom() == current@.dom(),
    ensures
        diff_events(prev.order(), prev.items(), current.order(), current.items(), timestamp)
            == Seq::<DeviceEventView>::empty(),
{
    assert forall|i: int| 0 <= i < prev.order().len() implies current.order().contains(
        #[trigger] prev.order()[i],
    ) by {
        assert(prev@.dom().contains(prev.order()[i]));
        assert(current@.contains_key(prev.order()[i]));
    }
    assert forall|i: int| 0 <= i < current.order().len() implies prev.order().contains(
        #[trigger] current.order()[i],
    ) by {
        assert(current@.dom().contains(current.order()[i]));
        assert(prev@.contains_key(current.order()[i]));
    }
    lemma_no_events_for_held(
        kind_disconnect(),
        timestamp,
        prev.order(),
        prev.items(),
        current.order(),
    );
    lemma_no_events_for_held(
        kind_connect(),
        timestamp,
        current.order(),
        current.items(),
        prev.order(),
    );
}

} // verus!
