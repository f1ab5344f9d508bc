//! The loop around the ticks, as a function from state and event to next
//! state and action.
//!
//! The caller performs each action outside (sleeps, asks the enrichment
//! source, asks the inventory source) and hands the answer back as the next
//! event. The order of a tick is fixed here: the lookups that are due come
//! first, then the inventory, then the merge of its events with the
//! observers' changes folded in, and only then a snapshot for observers. A
//! failed inventory query skips the rest of the tick and leaves ledger and
//! snapshot untouched; a failed first query is fatal and starts no loop.

use crate::device_map::{with_key, DeviceMap};
use crate::inventory::diff_events;
use crate::ledger::{enriched, KnownDeviceCache};
use crate::monitor::{
    asks_for_change, counters_fit, live_after_departures, live_order_after_departures,
    live_order_reconciled, live_reconciled, order_reconciled, order_with_new, scheduled, started,
    storage_ids, ticked, Monitor,
};
use crate::state::AppState;
use crate::scheduler::{due_ids, not_due};
use crate::types::{
    DeviceEvent, KnownDevice, KnownDeviceView, StorageInfo, StorageInfoView, UsbDevice,
};
use vstd::prelude::*;

verus! {

/// How long the loop sleeps between two ticks, in milliseconds.
pub const POLL_INTERVAL_MILLIS: u64 = 500;

/// The error that observers are shown where the first inventory query fails.
pub open spec fn no_inventory_message() -> Seq<char> {
    "Failed to query USB devices"@
}

/// Records a fatal startup failure: observers are shown `message` from now
/// on, and nothing else of the shared state changes. The caller ends the
/// loop; no polling follows.
pub fn startup_failure(state: &mut AppState, message: String)
    ensures
        final(state).error.deep_view() == Some(message@),
        *final(state) == (AppState { error: final(state).error, ..*old(state) }),
{
    state.error = Some(message);
}

/// What the loop waits for.
#[derive(Debug, Clone, Copy, PartialEq, Eq, Structural)]
pub enum Phase {
    /// The answer to a lookup made at start, before the first snapshot is published.
    StartupLookup,
    /// The end of the sleep between two ticks.
    Sleeping,
    /// The answer to a lookup that became due in this tick.
    TickLookup,
    /// The answer of the inventory source.
    Polling,
}

/// What the caller is to do next.
#[derive(Debug)]
pub enum LoopAction {
    /// Sleep for the poll interval, read the monotonic clock, report `Woke`.
    Sleep,
    /// Ask the enrichment source for this device, report `Looked`.
    Lookup { device_id: String },
    /// Ask the inventory source, read the clocks and the observers' ledger
    /// copy, report `Polled`.
    Poll,
}

/// What the caller reports back.
pub enum LoopEvent {
    /// The sleep has ended at the clock reading `now`.
    Woke { now: u64 },
    /// The enrichment source has answered; nothing found is the usual answer
    /// while a device is still mounting.
    Looked { info: Option<StorageInfo> },
    /// The inventory source has answered, or failed.
    Polled {
        inventory: Option<DeviceMap<UsbDevice>>,
        time_of_day: String,
        date_time: String,
        now: u64,
        external: DeviceMap<KnownDevice>,
    },
}

/// What a step has decided beside the next action.
pub struct StepResult {
    /// What the caller is to do next.
    pub action: LoopAction,
    /// The events of this step, to be appended to the observers' log when
    /// publishing.
    pub events: Vec<DeviceEvent>,
    /// Whether the ledger is to be persisted.
    pub persist: bool,
    /// Whether observers are to be handed a new snapshot.
    pub publish: bool,
}

/// The tracker with its place in the loop.
pub struct Tracker {
    /// The tracker's own state.
    pub monitor: Monitor,
    /// What the loop waits for.
    pub phase: Phase,
    /// The lookups of the current pass, in the order in which they are made.
    pub lookups: Vec<String>,
    /// The position in `lookups` of the lookup that is under way.
    pub cursor: usize,
}

impl LoopEvent {
    /// An inventory answer is only handed in where no counter would overflow.
    pub open spec fn fits(self, monitor: Monitor) -> bool {
        match self {
            LoopEvent::Polled { inventory: Some(current), external, .. } => {
                &&& current.wf()
                &&& external.wf()
                &&& counters_fit(monitor.ledger.devices@, monitor.prev@, current@, external@)
            },
            LoopEvent::Polled { inventory: None, external, .. } => external.wf(),
            _ => true,
        }
    }
}

impl LoopAction {
    /// The action is a lookup for the device `id`.
    pub open spec fn is_lookup_of(self, id: Seq<char>) -> bool {
        self matches LoopAction::Lookup { device_id } && device_id@ == id
    }
}

impl Tracker {
    /// The tracker's maps are well-formed, and while a lookup is awaited the
    /// cursor points at it.
    pub open spec fn wf(&self) -> bool {
        &&& self.monitor.wf()
        &&& (self.phase == Phase::StartupLookup || self.phase == Phase::TickLookup)
            ==> self.cursor < self.lookups@.len()
    }

    /// Nothing but the phase has changed.
    pub open spec fn monitor_kept(&self, after: Tracker) -> bool {
        &&& after.monitor == self.monitor
        &&& after.lookups == self.lookups
        &&& after.cursor == self.cursor
    }

    /// The tracker's state after the enrichment source has answered for the
    /// device `id`: a find is stored, nothing found changes nothing.
    pub open spec fn looked(&self, after: Tracker, id: Seq<char>, info: Option<StorageInfo>) -> bool {
        match info {
            Some(found) => {
                &&& after.monitor.live@ == self.monitor.live@.insert(id, found@)
                &&& after.monitor.live.order() == with_key(self.monitor.live.order(), id)
                &&& after.monitor.ledger.devices@ == enriched(
                    self.monitor.ledger.devices@,
                    id,
                    found@,
                )
                &&& after.monitor.ledger.devices.order() == self.monitor.ledger.devices.order()
                &&& after.monitor.ledger.version == self.monitor.ledger.version
                &&& after.monitor.enriched
                &&& after.monitor.prev == self.monitor.prev
                &&& after.monitor.pending == self.monitor.pending
            },
            None => after.monitor == self.monitor,
        }
    }

    /// What follows a lookup: the next lookup of the pass, or, at its end,
    /// the first snapshot and the sleep (at start) or the inventory query (in
    /// a tick).
    pub open spec fn after_lookup(&self, after: Tracker, result: StepResult) -> bool {
        &&& after.lookups == self.lookups
        &&& after.cursor == self.cursor + 1
        &&& if self.cursor + 1 < self.lookups@.len() {
            &&& after.phase == self.phase
            &&& result.action.is_lookup_of(self.lookups@[self.cursor + 1]@)
            &&& !result.publish
        } else if self.phase == Phase::StartupLookup {
            &&& after.phase == Phase::Sleeping
            &&& result.action is Sleep
            &&& result.publish
        } else {
            &&& after.phase == Phase::Polling
            &&& result.action is Poll
            &&& !result.publish
        }
    }

    /// The tracker's state after the sleep has ended at `now`: the lookups
    /// that are due have left the queue and make up the pass.
    pub open spec fn woke(&self, after: Tracker, now: u64, result: StepResult) -> bool {
        &&& after.lookups.deep_view() == due_ids(self.monitor.pending.deep_view(), now)
        &&& after.monitor.pending.deep_view() == not_due(self.monitor.pending.deep_view(), now)
        &&& !after.monitor.enriched
        &&& after.monitor.prev == self.monitor.prev
        &&& after.monitor.ledger == self.monitor.ledger
        &&& after.monitor.live == self.monitor.live
        &&& after.cursor == 0
        &&& !result.persist
        &&& !result.publish
        &&& result.events@.len() == 0
        &&& if after.lookups@.len() > 0 {
            after.phase == Phase::TickLookup && result.action.is_lookup_of(after.lookups@[0]@)
        } else {
            after.phase == Phase::Polling && result.action is Poll
        }
    }

    /// The tracker's state after the inventory source has answered with
    /// `current`: the tick is made, and the loop sleeps.
    pub open spec fn polled(
        &self,
        after: Tracker,
        current: DeviceMap<UsbDevice>,
        time_of_day: Seq<char>,
        date_time: Seq<char>,
        now: u64,
        external: Map<Seq<char>, KnownDeviceView>,
        result: StepResult,
    ) -> bool {
        let ledger = self.monitor.ledger.devices@;
        &&& result.events.deep_view() == diff_events(
            self.monitor.prev.order(),
            self.monitor.prev.items(),
            current.order(),
            current.items(),
            time_of_day,
        )
        &&& after.monitor.prev == current
        &&& after.monitor.ledger.version == self.monitor.ledger.version
        &&& after.monitor.ledger.devices@ == ticked(
            ledger,
            self.monitor.prev@,
            current@,
            date_time,
            external,
        )
        &&& after.monitor.ledger.devices.order() == order_with_new(
            order_reconciled(self.monitor.ledger.devices.order(), external),
            current.order(),
            self.monitor.prev.order(),
        )
        &&& after.monitor.live@ == live_reconciled(
            live_after_departures(self.monitor.live@, self.monitor.prev@, current@),
            ledger,
            external,
        )
        &&& after.monitor.live.order() == live_order_reconciled(
            live_order_after_departures(self.monitor.live.order(), self.monitor.prev@, current@),
            ledger,
            external,
        )
        &&& after.monitor.pending.deep_view() == self.monitor.pending.deep_view() + scheduled(
            current.order(),
            current.items(),
            self.monitor.prev.order(),
            now,
        )
        &&& !after.monitor.enriched
        &&& result.persist == (result.events@.len() > 0 || asks_for_change(ledger, external))
        &&& result.publish == (result.events@.len() > 0 || self.monitor.enriched
            || self.monitor.prev.order().len() != current.order().len())
        &&& after.phase == Phase::Sleeping
        &&& after.lookups == self.lookups
        &&& after.cursor == self.cursor
        &&& result.action is Sleep
    }

    /// What holds when tracking has started at `date_time` with the stored
    /// ledger `cache` and the first snapshot `inventory`: the ledger is
    /// merged and to be persisted, nothing is queued, and the storage
    /// devices of the snapshot make up the first pass of lookups. The first
    /// snapshot is published when the last lookup has answered, or at once
    /// where there is none.
    pub open spec fn begins(
        cache: KnownDeviceCache,
        inventory: DeviceMap<UsbDevice>,
        date_time: Seq<char>,
        tracker: Tracker,
        result: StepResult,
    ) -> bool {
        &&& tracker.wf()
        &&& tracker.monitor.prev == inventory
        &&& tracker.monitor.ledger.version == cache.version
        &&& tracker.monitor.ledger.devices@ == started(cache.devices@, inventory@, date_time)
        &&& tracker.monitor.ledger.devices.order() == order_with_new(
            cache.devices.order(),
            inventory.order(),
            Seq::empty(),
        )
        &&& tracker.monitor.live@ == Map::<Seq<char>, StorageInfoView>::empty()
        &&& tracker.monitor.live.order() == Seq::<Seq<char>>::empty()
        &&& tracker.monitor.pending@.len() == 0
        &&& !tracker.monitor.enriched
        &&& tracker.lookups.deep_view() == storage_ids(inventory.order(), inventory.items())
        &&& tracker.cursor == 0
        &&& result.persist
        &&& result.events@.len() == 0
        &&& if tracker.lookups@.len() > 0 {
            &&& tracker.phase == Phase::StartupLookup
            &&& result.action.is_lookup_of(tracker.lookups@[0]@)
            &&& !result.publish
        } else {
            &&& tracker.phase == Phase::Sleeping
            &&& result.action is Sleep
            &&& result.publish
        }
    }

    /// Starts tracking at `date_time` with the stored ledger and the first
    /// inventory snapshot. The merged ledger is to be persisted. The storage
    /// devices of the snapshot are looked up at once, one after the other;
    /// the first snapshot is published when the last has answered, or at
    /// once where there is none.
    pub fn start(cache: KnownDeviceCache, inventory: DeviceMap<UsbDevice>, date_time: &str) -> (out: (
        Tracker,
        StepResult,
    ))
        requires
            cache.devices.wf(),
            inventory.wf(),
        ensures
            Tracker::begins(cache, inventory, date_time@, out.0, out.1),
    {
        let monitor = Monitor::start(cache, inventory, date_time);
        let lookups = monitor.startup_lookups();
        if lookups.len() > 0 {
            let first = lookups[0].clone();
            (
                Tracker { monitor, phase: Phase::StartupLookup, lookups, cursor: 0 },
                StepResult {
                    action: LoopAction::Lookup { device_id: first },
                    events: Vec::new(),
                    persist: true,
                    publish: false,
                },
            )
        } else {
            (
                Tracker { monitor, phase: Phase::Sleeping, lookups, cursor: 0 },
                StepResult {
                    action: LoopAction::Sleep,
                    events: Vec::new(),
                    persist: true,
                    publish: true,
                },
            )
        }
    }

    /// Starts tracking with the answer of the first inventory query.
    ///
    /// Where the query has failed, the failure is fatal: observers are
    /// shown the error from now on, nothing else of the shared state
    /// changes, the stored ledger is neither merged nor persisted, and no
    /// tracker comes to be, so that no further action follows. Where it has
    /// answered, tracking starts as `start` says and the shared state is
    /// left as it is.
    pub fn launch(
        cache: KnownDeviceCache,
        first: Option<DeviceMap<UsbDevice>>,
        date_time: &str,
        state: &mut AppState,
    ) -> (out: Option<(Tracker, StepResult)>)
        requires
            cache.devices.wf(),
            first matches Some(inventory) ==> inventory.wf(),
        ensures
            match first {
                None => {
                    &&& out is None
                    &&& final(state).error.deep_view() == Some(no_inventory_message())
                    &&& *final(state) == (AppState { error: final(state).error, ..*old(state) })
                },
                Some(inventory) => {
                    &&& out matches Some(pair) && Tracker::begins(
                        cache,
                        inventory,
                        date_time@,
                        pair.0,
                        pair.1,
                    )
                    &&& *final(state) == *old(state)
                },
            },
    {
        match first {
            None => {
                startup_failure(state, "Failed to query USB devices".to_owned());
                None
            },
            Some(inventory) => Some(Tracker::start(cache, inventory, date_time)),
        }
    }

    /// The action that the loop waits on: what `step` last decided.
    pub fn awaited(&self) -> (action: LoopAction)
        requires
            self.wf(),
        ensures
            match self.phase {
                Phase::Sleeping => action is Sleep,
                Phase::Polling => action is Poll,
                _ => action.is_lookup_of(self.lookups@[self.cursor as int]@),
            },
    {
        match self.phase {
            Phase::Sleeping => LoopAction::Sleep,
            Phase::Polling => LoopAction::Poll,
            _ => LoopAction::Lookup { device_id: self.lookups[self.cursor].clone() },
        }
    }

    /// One step of the loop: takes the answer to the action that was decided
    /// last and decides the next.
    ///
    /// An answer that the loop does not wait for changes nothing; the action
    /// that is awaited is decided again.
    pub fn step(&mut self, event: LoopEvent) -> (result: StepResult)
        requires
            old(self).wf(),
            event.fits(old(self).monitor),
        ensures
            final(self).wf(),
            match (old(self).phase, event) {
                (Phase::Sleeping, LoopEvent::Woke { now }) => old(self).woke(
                    *final(self),
                    now,
                    result,
                ),
                (Phase::StartupLookup, LoopEvent::Looked { info }) | (
                    Phase::TickLookup,
                    LoopEvent::Looked { info },
                ) => {
                    &&& old(self).looked(
                        *final(self),
                        old(self).lookups@[old(self).cursor as int]@,
                        info,
                    )
                    &&& old(self).after_lookup(*final(self), result)
                    &&& result.persist == info is Some
                    &&& result.events@.len() == 0
                },
                (
                    Phase::Polling,
                    LoopEvent::Polled { inventory: Some(current), time_of_day, date_time, now, external },
                ) => old(self).polled(
                    *final(self),
                    current,
                    time_of_day@,
                    date_time@,
                    now,
                    external@,
                    result,
                ),
                (Phase::Polling, LoopEvent::Polled { inventory: None, .. }) => {
                    &&& old(self).monitor_kept(*final(self))
                    &&& final(self).phase == Phase::Sleeping
                    &&& result.action is Sleep
                    &&& !result.persist
                    &&& !result.publish
                    &&& result.events@.len() == 0
                },
                _ => {
                    &&& *final(self) == *old(self)
                    &&& !result.persist
                    &&& !result.publish
                    &&& result.events@.len() == 0
                    &&& match old(self).phase {
                        Phase::Sleeping => result.action is Sleep,
                        Phase::Polling => result.action is Poll,
                        _ => result.action.is_lookup_of(
                            old(self).lookups@[old(self).cursor as int]@,
                        ),
                    }
                },
            },
    {
        match (self.phase, event) {
            (Phase::Sleeping, LoopEvent::Woke { now }) => {
                let ready = self.monitor.begin_tick(now);
                self.cursor = 0;
                if ready.len() > 0 {
                    let first = ready[0].clone();
                    self.lookups = ready;
                    self.phase = Phase::TickLookup;
                    StepResult {
                        action: LoopAction::Lookup { device_id: first },
                        events: Vec::new(),
                        persist: false,
                        publish: false,
                    }
                } else {
                    self.lookups = ready;
                    self.phase = Phase::Polling;
                    StepResult {
                        action: LoopAction::Poll,
                        events: Vec::new(),
                        persist: false,
                        publish: false,
                    }
                }
            },
            (Phase::StartupLookup, LoopEvent::Looked { info }) => self.finish_lookup(info),
            (Phase::TickLookup, LoopEvent::Looked { info }) => self.finish_lookup(info),
            (
                Phase::Polling,
                LoopEvent::Polled { inventory: Some(current), time_of_day, date_time, now, external },
            ) => {
                let outcome = self.monitor.tick(
                    current,
                    time_of_day.as_str(),
                    date_time.as_str(),
                    now,
                    &external,
                );
                self.phase = Phase::Sleeping;
                StepResult {
                    action: LoopAction::Sleep,
                    events: outcome.events,
                    persist: outcome.persist,
                    publish: outcome.publish,
                }
            },
            (Phase::Polling, LoopEvent::Polled { inventory: None, .. }) => {
                self.phase = Phase::Sleeping;
                StepResult {
                    action: LoopAction::Sleep,
                    events: Vec::new(),
                    persist: false,
                    publish: false,
                }
            },
            _ => StepResult {
                action: self.awaited(),
                events: Vec::new(),
                persist: false,
                publish: false,
            },
        }
    }

    /// Takes the answer to the lookup under way and decides what follows it.
    fn finish_lookup(&mut self, info: Option<StorageInfo>) -> (result: StepResult)
        requires
            old(self).wf(),
            old(self).phase == Phase::StartupLookup || old(self).phase == Phase::TickLookup,
        ensures
            final(self).wf(),
            old(self).looked(*final(self), old(self).lookups@[old(self).cursor as int]@, info),
            old(self).after_lookup(*final(self), result),
            result.persist == info is Some,
            result.events@.len() == 0,
    {
        let persist = match info {
            Some(found) => {
                self.monitor.record_enrichment(self.lookups[self.cursor].as_str(), found);
                true
            },
            None => false,
        };
        let count: usize = self.lookups.len();
        self.cursor = self.cursor + 1;
        if self.cursor < count {
            StepResult {
                action: LoopAction::Lookup { device_id: self.lookups[self.cursor].clone() },
                events: Vec::new(),
                persist,
                publish: false,
            }
        } else if self.phase == Phase::StartupLookup {
            self.phase = Phase::Sleeping;
            StepResult { action: LoopAction::Sleep, events: Vec::new(), persist, publish: true }
        } else {
            self.phase = Phase::Polling;
            StepResult { action: LoopAction::Poll, events: Vec::new(), persist, publish: false }
        }
    }
}

} // verus!
