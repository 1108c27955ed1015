//! The decisions of the folder watcher: when a file has been quiet long
//! enough to be processed (with a back-off after failures), which files were
//! just put back by an undo and must be left alone, and what to do after
//! each action of a rule. Times are nanoseconds on a monotonic clock.
use vstd::prelude::*;
use crate::file_name::{is_partial_download, is_partial_download_name};
use crate::path::{file_name, file_name_of, same_path};
use crate::path_map::{
    expired_entry, has_place, live_entry, place_index, with_value, Expiring, PathEntry, PathMap,
};
use crate::rules::{first_match, get_matching_rule, Action, Rule};

verus! {

/// Nanoseconds in a millisecond.
pub const NANOS_PER_MILLI: u64 = 1_000_000;

/// How long a file that was put back by an undo is left alone.
pub const IGNORE_WINDOW_NANOS: u64 = 5_000_000_000;

// ---------------------------------------------------------------------------
// Back-off
// ---------------------------------------------------------------------------

/// How long a file must stay quiet before it is processed, after `retries`
/// failed attempts: 1.5 s, 5 s, 30 s, then 5 minutes.
pub open spec fn retry_delay(retries: u32) -> int {
    if retries == 0 {
        1500 * NANOS_PER_MILLI
    } else if retries == 1 {
        5000 * NANOS_PER_MILLI
    } else if retries == 2 {
        30000 * NANOS_PER_MILLI
    } else {
        300000 * NANOS_PER_MILLI
    }
}

/// The time from `since` to `now`, or zero when `since` is later.
pub open spec fn elapsed(now: u64, since: u64) -> int {
    if now >= since {
        now - since
    } else {
        0
    }
}

/// How long a file must stay quiet after `retries` failed attempts.
pub fn retry_delay_nanos(retries: u32) -> (delay: u64)
    ensures
        delay == retry_delay(retries),
{
    let millis: u64 = match retries {
        0 => 1500,
        1 => 5000,
        2 => 30000,
        _ => 300000,
    };
    millis * NANOS_PER_MILLI
}

/// The time from `since` to `now`, or zero when `since` is later.
pub fn elapsed_nanos(now: u64, since: u64) -> (e: u64)
    ensures
        e == elapsed(now, since),
{
    if now >= since {
        now - since
    } else {
        0
    }
}

// ---------------------------------------------------------------------------
// Files waiting to be processed
// ---------------------------------------------------------------------------

/// When a waiting file last changed, and how many attempts on it failed.
#[derive(Clone, Copy, Debug, PartialEq, Eq)]
pub struct Pending {
    pub last_event: u64,
    pub retries: u32,
}

/// Whether a waiting file has been quiet long enough at `now`.
pub open spec fn is_ready(p: Pending, now: u64) -> bool {
    elapsed(now, p.last_event) > retry_delay(p.retries)
}

impl Expiring for Pending {
    open spec fn expired_at(&self, now: u64) -> bool {
        is_ready(*self, now)
    }

    fn is_expired(&self, now: u64) -> (b: bool) {
        elapsed_nanos(now, self.last_event) > retry_delay_nanos(self.retries)
    }
}

/// The files that changed and wait to be processed.
pub type PendingFiles = PathMap<Pending>;

impl PathMap<Pending> {
    /// A change of `path` at `now`: a file already waiting waits again from
    /// `now` and keeps its count of failed attempts; a new one waits with no
    /// failed attempts.
    pub fn record_event(&mut self, path: String, now: u64)
        ensures
            final(self)@ == with_value(
                old(self)@,
                path,
                Pending {
                    last_event: now,
                    retries: match place_index(old(self)@, path@) {
                        Some(i) => old(self)@[i].value.retries,
                        None => 0,
                    },
                },
            ),
    {
        let retries = match self.get(path.as_str()) {
            Some(p) => p.retries,
            None => 0,
        };
        self.insert(path, Pending { last_event: now, retries });
    }

    /// Takes out the files that have been quiet long enough at `now`; both
    /// parts keep their order.
    pub fn take_ready(&mut self, now: u64) -> (ready: Vec<PathEntry<Pending>>)
        ensures
            ready@ == old(self)@.filter(expired_entry(now)),
            final(self)@ == old(self)@.filter(live_entry(now)),
    {
        self.take_expired(now)
    }
}

// ---------------------------------------------------------------------------
// Files put back by an undo
// ---------------------------------------------------------------------------

/// When an undo put a file back.
#[derive(Clone, Copy, Debug, PartialEq, Eq)]
pub struct UndoneAt {
    pub since: u64,
}

/// Whether the file is no longer left alone at `now`.
pub open spec fn window_passed(u: UndoneAt, now: u64) -> bool {
    elapsed(now, u.since) >= IGNORE_WINDOW_NANOS
}

impl Expiring for UndoneAt {
    open spec fn expired_at(&self, now: u64) -> bool {
        window_passed(*self, now)
    }

    fn is_expired(&self, now: u64) -> (b: bool) {
        elapsed_nanos(now, self.since) >= IGNORE_WINDOW_NANOS
    }
}

/// The files that an undo put back recently; the watcher leaves them alone.
pub type IgnoreList = PathMap<UndoneAt>;

impl PathMap<UndoneAt> {
    /// Leaves `path` alone from `now` on.
    pub fn remember(&mut self, path: String, now: u64)
        ensures
            final(self)@ == with_value(old(self)@, path, UndoneAt { since: now }),
    {
        self.insert(path, UndoneAt { since: now });
    }

    /// Forgets the files whose window has passed at `now`.
    pub fn prune(&mut self, now: u64)
        ensures
            final(self)@ == old(self)@.filter(live_entry(now)),
    {
        let _ = self.take_expired(now);
    }
}

/// What the application keeps between its commands and the watcher.
pub struct AppState {
    pub ignore_list: IgnoreList,
}

impl AppState {
    /// A state with nothing ignored.
    pub fn new() -> (s: AppState)
        ensures
            s.ignore_list@ == Seq::<PathEntry<UndoneAt>>::empty(),
    {
        AppState { ignore_list: PathMap::new() }
    }
}

// ---------------------------------------------------------------------------
// What to do with a file
// ---------------------------------------------------------------------------

/// What the watcher does with a file that has been quiet long enough.
#[derive(Clone, Debug, PartialEq, Eq)]
pub enum FileDecision {
    /// Leave it: it is a browser's partial download.
    PartialDownload,
    /// Leave it: an undo put it back recently.
    RecentlyUndone,
    /// Leave it: no rule applies.
    NoRule,
    /// Run the actions of this rule on it.
    Apply(Rule),
}

/// The file name of a path, or the empty name when it has none.
pub open spec fn name_or_empty(path: Seq<char>) -> Seq<char> {
    match file_name_of(path) {
        Some(n) => n,
        None => Seq::empty(),
    }
}

/// The decision for the file at `path` whose size is `size`: partial
/// downloads and files that an undo put back recently are left alone;
/// otherwise the first rule that applies to its name and size is run.
pub fn decide_file(path: &str, size: u64, ignore_list: &IgnoreList, rules: &[Rule]) -> (d: FileDecision)
    ensures
        is_partial_download(name_or_empty(path@)) ==> d == FileDecision::PartialDownload,
        !is_partial_download(name_or_empty(path@)) && has_place(ignore_list@, path@) ==> d
            == FileDecision::RecentlyUndone,
        !is_partial_download(name_or_empty(path@)) && !has_place(ignore_list@, path@) ==> match d {
            FileDecision::Apply(r) => first_match(rules@, name_or_empty(path@), size) matches Some(i)
                && r@ == rules@[i]@,
            FileDecision::NoRule => first_match(rules@, name_or_empty(path@), size) is None,
            _ => false,
        },
{
    let name = match file_name(path) {
        Some(n) => n,
        None => String::new(),
    };
    assert(name@ == name_or_empty(path@));
    if is_partial_download_name(name.as_str()) {
        return FileDecision::PartialDownload;
    }
    if ignore_list.contains(path) {
        return FileDecision::RecentlyUndone;
    }
    match get_matching_rule(rules, name.as_str(), size) {
        Some(r) => FileDecision::Apply(r),
        None => FileDecision::NoRule,
    }
}

// ---------------------------------------------------------------------------
// Running the actions of a rule
// ---------------------------------------------------------------------------

/// What the watcher does for one action.
#[derive(Clone, Debug, PartialEq, Eq)]
pub enum ActionPlan {
    /// Move the file into this folder.
    MoveTo { target_folder: String },
    /// Rename the file by this pattern.
    RenameWith { pattern: String },
    /// Delete the file now.
    DeleteNow,
    /// Move the file into the archive, then schedule the deletion of the
    /// archived file after this many days.
    ArchiveAndSchedule { delay_days: u32 },
}

/// How an action went.
#[derive(Clone, Copy, Debug, PartialEq, Eq)]
pub enum ActionOutcome {
    /// The action was done.
    Done,
    /// The action was tried and failed.
    Failed,
    /// The action did not apply to the file (no file name, no extension).
    Skipped,
}

/// What follows an action.
#[derive(Clone, Copy, Debug, PartialEq, Eq)]
pub enum NextStep {
    /// Go on with the action at this index.
    Continue(usize),
    /// Stop, and queue the file again with this count of failed attempts.
    Requeue(u32),
    /// Stop.
    Stop,
}

/// The plan for an action: a deletion with no delay is done at once; one
/// with a delay first moves the file into the archive and schedules the
/// archived file's deletion.
pub open spec fn plan_of(action: Action) -> ActionPlan {
    match action {
        Action::Move { target_folder } => ActionPlan::MoveTo { target_folder },
        Action::Rename { pattern } => ActionPlan::RenameWith { pattern },
        Action::Delete { delay_days } => if delay_days == 0 {
            ActionPlan::DeleteNow
        } else {
            ActionPlan::ArchiveAndSchedule { delay_days }
        },
    }
}

/// What follows the action at `index` after `outcome`: a failure (of a
/// move, a rename, a deletion or a move into the archive) queues the file
/// again with one more failed attempt; a deletion, done at once or archived
/// and scheduled, ends the rule; a move or rename that was done or skipped
/// goes on to the next action.
pub open spec fn next_step(action: Action, index: usize, outcome: ActionOutcome, retries: u32) -> NextStep {
    match action {
        Action::Delete { .. } => if outcome == ActionOutcome::Failed {
            NextStep::Requeue((retries + 1) as u32)
        } else {
            NextStep::Stop
        },
        _ => if outcome == ActionOutcome::Failed {
            NextStep::Requeue((retries + 1) as u32)
        } else {
            NextStep::Continue((index + 1) as usize)
        },
    }
}

/// The plan for `action`.
pub fn plan_action(action: &Action) -> (plan: ActionPlan)
    ensures
        plan == plan_of(*action),
{
    match action {
        Action::Move { target_folder } => ActionPlan::MoveTo { target_folder: target_folder.clone() },
        Action::Rename { pattern } => ActionPlan::RenameWith { pattern: pattern.clone() },
        Action::Delete { delay_days } => if *delay_days == 0 {
            ActionPlan::DeleteNow
        } else {
            ActionPlan::ArchiveAndSchedule { delay_days: *delay_days }
        },
    }
}

/// What follows the action at `index` after `outcome`, for a file that had
/// failed `retries` times before.
pub fn after_action(action: &Action, index: usize, outcome: ActionOutcome, retries: u32) -> (next: NextStep)
    requires
        retries < u32::MAX,
        index < usize::MAX,
    ensures
        next == next_step(*action, index, outcome, retries),
{
    let failed = match outcome {
        ActionOutcome::Failed => true,
        _ => false,
    };
    match action {
        Action::Delete { .. } => if failed {
            NextStep::Requeue(retries + 1)
        } else {
            NextStep::Stop
        },
        _ => if failed {
            NextStep::Requeue(retries + 1)
        } else {
            NextStep::Continue(index + 1)
        },
    }
}


// ---------------------------------------------------------------------------
// Laws
// ---------------------------------------------------------------------------

/// The back-off never shrinks: more failed attempts never mean a shorter
/// wait, and it is bounded by five minutes.
pub proof fn lemma_backoff_grows(fewer: u32, more: u32)
    requires
        fewer <= more,
    ensures
        retry_delay(fewer) <= retry_delay(more),
        retry_delay(more) <= 300000 * NANOS_PER_MILLI,
{
}

/// A path that an undo put back stays left alone through any pruning
/// within its window.
pub proof fn lemma_recent_undo_survives_prune(entries: Seq<PathEntry<UndoneAt>>, k: int, now: u64)
    requires
        0 <= k < entries.len(),
        elapsed(now, entries[k].value.since) < IGNORE_WINDOW_NANOS,
    ensures
        has_place(entries.filter(live_entry(now)), entries[k].path@),
{
    broadcast use vstd::seq_lib::group_filter_ensures;
    assert(live_entry::<UndoneAt>(now)(entries[k]));
    assert(entries.filter(live_entry(now)).contains(entries[k]));
    let m = choose|m: int|
        0 <= m < entries.filter(live_entry(now)).len() && entries.filter(live_entry(now))[m]
            == entries[k];
    assert(same_path(entries.filter(live_entry(now))[m].path@, entries[k].path@));
}


/// A deletion, at once or archived and scheduled, ends the rule: no later
/// action of the rule runs after it, and only a failure queues the file
/// again.
pub proof fn lemma_deletion_ends_rule(delay_days: u32, index: usize, outcome: ActionOutcome, retries: u32)
    ensures
        !(next_step((Action::Delete { delay_days }), index, outcome, retries) is Continue),
        (next_step((Action::Delete { delay_days }), index, outcome, retries) is Requeue) <==> (
        outcome == ActionOutcome::Failed),
        delay_days > 0 ==> (plan_of((Action::Delete { delay_days })) == (
        ActionPlan::ArchiveAndSchedule { delay_days })),
{
}


/// Only a Delete or a failure ends the actions of a rule: after a Move or a
/// Rename that was done or skipped the next action runs; any failure
/// queues the file again with one more failed attempt.
pub proof fn lemma_what_follows_an_action(
    target_folder: String,
    pattern: String,
    delay_days: u32,
    index: usize,
    outcome: ActionOutcome,
    retries: u32,
)
    requires
        index < usize::MAX,
        retries < u32::MAX,
    ensures
        outcome != ActionOutcome::Failed ==> next_step(
            (Action::Move { target_folder }),
            index,
            outcome,
            retries,
        ) == NextStep::Continue((index + 1) as usize),
        outcome != ActionOutcome::Failed ==> next_step(
            (Action::Rename { pattern }),
            index,
            outcome,
            retries,
        ) == NextStep::Continue((index + 1) as usize),
        outcome != ActionOutcome::Failed ==> next_step(
            (Action::Delete { delay_days }),
            index,
            outcome,
            retries,
        ) == NextStep::Stop,
        outcome == ActionOutcome::Failed ==> next_step(
            (Action::Move { target_folder }),
            index,
            outcome,
            retries,
        ) == NextStep::Requeue((retries + 1) as u32),
        outcome == ActionOutcome::Failed ==> next_step(
            (Action::Rename { pattern }),
            index,
            outcome,
            retries,
        ) == NextStep::Requeue((retries + 1) as u32),
        outcome == ActionOutcome::Failed ==> next_step(
            (Action::Delete { delay_days }),
            index,
            outcome,
            retries,
        ) == NextStep::Requeue((retries + 1) as u32),
{
}

/// A waiting file is ready exactly when it has been quiet for longer than
/// the back-off of its own count of failed attempts: more than 1.5 s with
/// none, 5 s with one, 30 s with two, and 5 minutes with three or more.
pub proof fn lemma_ready_after_backoff(p: Pending, now: u64)
    ensures
        p.expired_at(now) <==> now >= p.last_event && now - p.last_event > (if p.retries == 0 {
            1_500_000_000int
        } else if p.retries == 1 {
            5_000_000_000int
        } else if p.retries == 2 {
            30_000_000_000int
        } else {
            300_000_000_000int
        }),
        p.retries >= 3 ==> (p.expired_at(now) <==> now >= p.last_event && now - p.last_event
            > 300_000_000_000),
        now < p.last_event ==> !p.expired_at(now),
{
}

/// A file put back by an undo stays left alone for less than five seconds
/// after the undo and is forgotten from then on.
pub proof fn lemma_undo_window(u: UndoneAt, now: u64)
    ensures
        u.expired_at(now) <==> now >= u.since && now - u.since >= 5_000_000_000,
{
}


/// What each action plans: a Move moves into its own folder, a Rename
/// renames by its own pattern, a Delete without delay deletes at once and
/// one with a delay archives and schedules after exactly that delay.
pub proof fn lemma_plans(target_folder: String, pattern: String, delay_days: u32)
    ensures
        plan_of((Action::Move { target_folder })) == (ActionPlan::MoveTo { target_folder }),
        plan_of((Action::Rename { pattern })) == (ActionPlan::RenameWith { pattern }),
        delay_days == 0 ==> plan_of((Action::Delete { delay_days })) == ActionPlan::DeleteNow,
        delay_days > 0 ==> plan_of((Action::Delete { delay_days })) == (
        ActionPlan::ArchiveAndSchedule { delay_days }),
{
}

} // verus!
