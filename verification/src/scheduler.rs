//! The delay queue of enrichment lookups.
//!
//! Volumes mount some time after a storage device attaches, so a lookup made
//! at once finds nothing. Each storage connect is queued with the reading of
//! a monotonic clock, in nanoseconds, and handed out once the grace period
//! has passed. An entry is handed out once; nothing is queued again.

use vstd::prelude::*;

verus! {

/// How long a lookup waits after its connect event: two seconds.
pub const GRACE_PERIOD_NANOS: u64 = 2_000_000_000;

/// A lookup that waits for its grace period to pass.
#[derive(Debug)]
pub struct PendingEnrichment {
    pub device_id: String,
    pub scheduled_at: u64,
}

/// Model of [`PendingEnrichment`].
pub struct PendingEnrichmentView {
    pub device_id: Seq<char>,
    pub scheduled_at: u64,
}

impl DeepView for PendingEnrichment {
    type V = PendingEnrichmentView;

    open spec fn deep_view(&self) -> PendingEnrichmentView {
        PendingEnrichmentView { device_id: self.device_id@, scheduled_at: self.scheduled_at }
    }
}

impl View for PendingEnrichment {
    type V = PendingEnrichmentView;

    open spec fn view(&self) -> PendingEnrichmentView {
        self.deep_view()
    }
}

/// Whether a lookup queued at `scheduled_at` may be made at `now`: not before
/// the grace period has passed in full. A clock reading that lies before the
/// queueing counts as no time passed.
pub open spec fn is_due(scheduled_at: u64, now: u64) -> bool {
    now - scheduled_at >= GRACE_PERIOD_NANOS
}

/// The devices whose lookups are due at `now`, in queue order.
pub open spec fn due_ids(pending: Seq<PendingEnrichmentView>, now: u64) -> Seq<Seq<char>>
    decreases pending.len(),
{
    if pending.len() == 0 {
        Seq::empty()
    } else {
        let before = due_ids(pending.drop_last(), now);
        if is_due(pending.last().scheduled_at, now) {
            before.push(pending.last().device_id)
        } else {
            before
        }
    }
}

/// The lookups that are not due at `now`, in queue order.
pub open spec fn not_due(pending: Seq<PendingEnrichmentView>, now: u64) -> Seq<
    PendingEnrichmentView,
>
    decreases pending.len(),
{
    if pending.len() == 0 {
        Seq::empty()
    } else {
        let before = not_due(pending.drop_last(), now);
        if is_due(pending.last().scheduled_at, now) {
            before
        } else {
            before.push(pending.last())
        }
    }
}

/// Whether a lookup queued at `scheduled_at` may be made at `now`.
pub fn due(scheduled_at: u64, now: u64) -> (r: bool)
    ensures
        r == is_due(scheduled_at, now),
{
    now >= scheduled_at && now - scheduled_at >= GRACE_PERIOD_NANOS
}

/// Queues a lookup for the device `device_id` at the clock reading `now`.
pub fn schedule(pending: &mut Vec<PendingEnrichment>, device_id: String, now: u64)
    ensures
        final(pending).deep_view() == old(pending).deep_view().push(
            PendingEnrichmentView { device_id: device_id@, scheduled_at: now },
        ),
{
    let ghost before = pending.deep_view();
    pending.push(PendingEnrichment { device_id, scheduled_at: now });
    assert(pending.deep_view() =~= before.push(
        PendingEnrichmentView { device_id: device_id@, scheduled_at: now },
    ));
}

/// Takes out of the queue the lookups that are due at `now` and returns
/// their devices; the others stay queued in their order.
pub fn take_due(pending: &mut Vec<PendingEnrichment>, now: u64) -> (ready: Vec<String>)
    ensures
        ready.deep_view() == due_ids(old(pending).deep_view(), now),
        final(pending).deep_view() == not_due(old(pending).deep_view(), now),
{
    let ghost all = pending.deep_view();
    let mut ready: Vec<String> = Vec::new();
    let mut rest: Vec<PendingEnrichment> = Vec::new();
    let mut i: usize = 0;
    assert(all.take(0) =~= Seq::<PendingEnrichmentView>::empty());
    assert(ready.deep_view() =~= Seq::<Seq<char>>::empty());
    assert(rest.deep_view() =~= Seq::<PendingEnrichmentView>::empty());
    while i < pending.len()
        invariant
            all == pending.deep_view(),
            i <= pending.len(),
            ready.deep_view() == due_ids(all.take(i as int), now),
            rest.deep_view() == not_due(all.take(i as int), now),
        decreases pending.len() - i,
    {
        proof {
            assert(all.take(i + 1).drop_last() == all.take(i as int));
            assert(all.take(i + 1).last() == pending@[i as int]@);
        }
        let ghost ready_before = ready.deep_view();
        let ghost rest_before = rest.deep_view();
        if due(pending[i].scheduled_at, now) {
            ready.push(pending[i].device_id.clone());
            assert(ready.deep_view() =~= ready_before.push(pending@[i as int].device_id@));
        } else {
            rest.push(
                PendingEnrichment {
                    device_id: pending[i].device_id.clone(),
                    scheduled_at: pending[i].scheduled_at,
                },
            );
            assert(rest.deep_view() =~= rest_before.push(pending@[i as int]@));
        }
        i = i + 1;
    }
    assert(all.take(pending.len() as int) == all);
    *pending = rest;
    ready
}

/// No lookup is handed out before its grace period has passed: each device
/// that `due_ids` names was queued at least a full grace period before `now`.
pub proof fn lemma_due_only_after_grace(pending: Seq<PendingEnrichmentView>, now: u64, i: int) -> (j:
    int)
    requires
        0 <= i < due_ids(pending, now).len(),
    ensures
        0 <= j < pending.len(),
        pending[j].device_id == due_ids(pending, now)[i],
        now >= pending[j].scheduled_at + GRACE_PERIOD_NANOS,
    decreases pending.len(),
{
    let before = due_ids(pending.drop_last(), now);
    if i < before.len() {
        lemma_due_only_after_grace(pending.drop_last(), now, i)
    } else {
        pending.len() - 1
    }
}

/// While no grace period has passed, nothing is handed out and the queue
/// stays as it is.
pub proof fn lemma_nothing_due_before_grace(pending: Seq<PendingEnrichmentView>, now: u64)
    requires
        forall|j: int|
            0 <= j < pending.len() ==> now < (#[trigger] pending[j]).scheduled_at
                + GRACE_PERIOD_NANOS,
    ensures
        due_ids(pending, now) == Seq::<Seq<char>>::empty(),
        not_due(pending, now) == pending,
    decreases pending.len(),
{
    if pending.len() > 0 {
        assert forall|j: int| 0 <= j < pending.drop_last().len() implies now < (
        #[trigger] pending.drop_last()[j]).scheduled_at + GRACE_PERIOD_NANOS by {
            assert(pending.drop_last()[j] == pending[j]);
        }
        lemma_nothing_due_before_grace(pending.drop_last(), now);
        assert(pending.drop_last().push(pending.last()) =~= pending);
    }
}

/// What is not handed out stays queued, and what stays queued is not due:
/// every lookup leaves the queue exactly when its grace period has passed.
pub proof fn lemma_not_due_stays(pending: Seq<PendingEnrichmentView>, now: u64, i: int) -> (j: int)
    requires
        0 <= i < not_due(pending, now).len(),
    ensures
        0 <= j < pending.len(),
        pending[j] == not_due(pending, now)[i],
        !is_due(pending[j].scheduled_at, now),
    decreases pending.len(),
{
    let before = not_due(pending.drop_last(), now);
    if i < before.len() {
        lemma_not_due_stays(pending.drop_last(), now, i)
    } else {
        pending.len() - 1
    }
}

/// A lookup queued at the clock reading `at` is not handed out at any
/// reading before `at` plus the grace period: it stays queued.
pub proof fn lemma_queued_lookup_waits(
    pending: Seq<PendingEnrichmentView>,
    id: Seq<char>,
    at: u64,
    now: u64,
)
    requires
        now < at + GRACE_PERIOD_NANOS,
    ensures
        due_ids(pending.push(PendingEnrichmentView { device_id: id, scheduled_at: at }), now)
            == due_ids(pending, now),
        not_due(pending.push(PendingEnrichmentView { device_id: id, scheduled_at: at }), now)
            == not_due(pending, now).push(
            PendingEnrichmentView { device_id: id, scheduled_at: at },
        ),
{
    let entry = PendingEnrichmentView { device_id: id, scheduled_at: at };
    assert(pending.push(entry).drop_last() =~= pending);
}

} // verus!
