//! Scheduled deletions: when a file is due, and the sweep that separates
//! the due entries from those that stay.
use vstd::prelude::*;

verus! {

/// Seconds in a day.
pub const SECONDS_PER_DAY: u64 = 86400;

/// A file to delete once `delete_at` (seconds since the Unix epoch) is
/// reached.
#[derive(Clone, Debug, PartialEq, Eq)]
pub struct ScheduledDeletion {
    pub file_path: String,
    pub delete_at: u64,
}

// ---------------------------------------------------------------------------
// Specifications
// ---------------------------------------------------------------------------

/// When a deletion scheduled at `now` with a delay of `delay_days` is due.
pub open spec fn due_time(now: u64, delay_days: u32) -> int {
    now + delay_days * SECONDS_PER_DAY
}

/// Whether the entry is due at `now`.
pub open spec fn is_due(entry: ScheduledDeletion, now: u64) -> bool {
    now >= entry.delete_at
}

/// The test that keeps an entry in the registry at `now`.
pub open spec fn waits_at(now: u64) -> spec_fn(ScheduledDeletion) -> bool {
    |e: ScheduledDeletion| !is_due(e, now)
}

/// The test that takes an entry out of the registry at `now`.
pub open spec fn due_at(now: u64) -> spec_fn(ScheduledDeletion) -> bool {
    |e: ScheduledDeletion| is_due(e, now)
}

// ---------------------------------------------------------------------------
// Implementations
// ---------------------------------------------------------------------------

/// When a deletion scheduled at `now` with a delay of `delay_days` is due.
pub fn deletion_time(now: u64, delay_days: u32) -> (at: u64)
    requires
        due_time(now, delay_days) <= u64::MAX,
    ensures
        at == due_time(now, delay_days),
{
    let delay: u64 = delay_days as u64 * SECONDS_PER_DAY;
    now + delay
}

/// Adds a deletion of `file_path`, scheduled at `now` with a delay of
/// `delay_days`, to the end of the registry.
pub fn schedule_deletion(
    registry: &mut Vec<ScheduledDeletion>,
    file_path: String,
    now: u64,
    delay_days: u32,
)
    requires
        due_time(now, delay_days) <= u64::MAX,
    ensures
        final(registry)@.len() == old(registry)@.len() + 1,
        final(registry)@.take(old(registry)@.len() as int) == old(registry)@,
        final(registry)@.last().file_path@ == file_path@,
        final(registry)@.last().delete_at == due_time(now, delay_days),
{
    let delete_at = deletion_time(now, delay_days);
    registry.push(ScheduledDeletion { file_path, delete_at });
    assert(final(registry)@.take(old(registry)@.len() as int) =~= old(registry)@);
}

/// Takes the entries that are due at `now` out of the registry and returns
/// them; both keep their order.
pub fn sweep_deletions(registry: &mut Vec<ScheduledDeletion>, now: u64) -> (due: Vec<ScheduledDeletion>)
    ensures
        final(registry)@ == old(registry)@.filter(waits_at(now)),
        due@ == old(registry)@.filter(due_at(now)),
{
    let ghost start = registry@;
    let mut kept: Vec<ScheduledDeletion> = Vec::new();
    let mut due: Vec<ScheduledDeletion> = Vec::new();
    let mut i: usize = 0;
    assert(start.take(0) =~= Seq::<ScheduledDeletion>::empty());
    proof {
        reveal(Seq::filter);
    }
    while i < registry.len()
        invariant
            registry@ == start,
            i <= start.len(),
            kept@ == start.take(i as int).filter(waits_at(now)),
            due@ == start.take(i as int).filter(due_at(now)),
        decreases registry.len() - i,
    {
        let e = registry[i].duplicate();
        assert(start.take(i + 1).drop_last() =~= start.take(i as int));
        assert(start.take(i + 1).last() == e);
        proof {
            reveal(Seq::filter);
        }
        if now >= e.delete_at {
            due.push(e);
        } else {
            kept.push(e);
        }
        i = i + 1;
    }
    assert(start.take(i as int) =~= start);
    *registry = kept;
    due
}

impl ScheduledDeletion {
    /// An equal entry.
    pub fn duplicate(&self) -> (e: ScheduledDeletion)
        ensures
            e == *self,
    {
        ScheduledDeletion { file_path: self.file_path.clone(), delete_at: self.delete_at }
    }
}


// ---------------------------------------------------------------------------
// Laws
// ---------------------------------------------------------------------------

/// A sweep splits the registry: every entry either stays or is due, none is
/// lost and none is added; what stays is not due and what is taken is.
pub proof fn lemma_sweep_partitions(registry: Seq<ScheduledDeletion>, now: u64)
    ensures
        registry.filter(waits_at(now)).len() + registry.filter(due_at(now)).len() == registry.len(),
        forall|k: int|
            0 <= k < registry.filter(waits_at(now)).len() ==> !is_due(
                #[trigger] registry.filter(waits_at(now))[k],
                now,
            ),
        forall|k: int|
            0 <= k < registry.filter(due_at(now)).len() ==> is_due(
                #[trigger] registry.filter(due_at(now))[k],
                now,
            ),
    decreases registry.len(),
{
    broadcast use vstd::seq_lib::group_filter_ensures;
    reveal(Seq::filter);
    if registry.len() > 0 {
        lemma_sweep_partitions(registry.drop_last(), now);
    }
    assert forall|k: int| 0 <= k < registry.filter(waits_at(now)).len() implies !is_due(
        #[trigger] registry.filter(waits_at(now))[k],
        now,
    ) by {
        assert(waits_at(now)(registry.filter(waits_at(now))[k]));
    }
    assert forall|k: int| 0 <= k < registry.filter(due_at(now)).len() implies is_due(
        #[trigger] registry.filter(due_at(now))[k],
        now,
    ) by {
        assert(due_at(now)(registry.filter(due_at(now))[k]));
    }
}

proof fn lemma_filter_all_kept(s: Seq<ScheduledDeletion>, now: u64)
    requires
        forall|k: int| 0 <= k < s.len() ==> !is_due(#[trigger] s[k], now),
    ensures
        s.filter(waits_at(now)) == s,
        s.filter(due_at(now)) == Seq::<ScheduledDeletion>::empty(),
    decreases s.len(),
{
    reveal(Seq::filter);
    if s.len() > 0 {
        let init = s.drop_last();
        assert forall|k: int| 0 <= k < init.len() implies !is_due(#[trigger] init[k], now) by {
            assert(init[k] == s[k]);
        }
        lemma_filter_all_kept(init, now);
        assert(!is_due(s[s.len() - 1], now));
        assert(init.push(s.last()) =~= s);
    }
}

/// Sweeping twice at the same time: the second sweep finds nothing due and
/// leaves the registry as the first left it.
pub proof fn lemma_sweep_idempotent(registry: Seq<ScheduledDeletion>, now: u64)
    ensures
        registry.filter(waits_at(now)).filter(waits_at(now)) == registry.filter(waits_at(now)),
        registry.filter(waits_at(now)).filter(due_at(now)) == Seq::<ScheduledDeletion>::empty(),
{
    lemma_sweep_partitions(registry, now);
    lemma_filter_all_kept(registry.filter(waits_at(now)), now);
}

/// A deletion scheduled at `scheduled` with a delay of `delay_days` is due
/// exactly from `delay_days` whole days later on.
pub proof fn lemma_due_after_delay(file_path: String, scheduled: u64, delay_days: u32, now: u64)
    requires
        due_time(scheduled, delay_days) <= u64::MAX,
    ensures
        is_due(
            ScheduledDeletion { file_path, delete_at: due_time(scheduled, delay_days) as u64 },
            now,
        ) <==> now >= scheduled + delay_days * SECONDS_PER_DAY,
{
}

} // verus!
