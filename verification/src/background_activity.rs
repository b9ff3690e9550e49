//! What unattended background work is doing, in task names and counters.
//!
//! The functions work on one [`ActivityState`]; the clock is given by the
//! caller, in milliseconds.
use crate::text;
use vstd::prelude::*;
use vstd::string::*;

verus! {

/// How often a summary is due, in milliseconds.
pub const SUMMARY_INTERVAL_MS: u64 = 30_000;

#[derive(Debug, Clone, Copy, PartialEq, Eq, Structural)]
pub enum WorkSource {
    Staged,
    Archive,
}

impl WorkSource {
    pub open spec fn name(self) -> Seq<char> {
        match self {
            WorkSource::Staged => "staged"@,
            WorkSource::Archive => "archive"@,
        }
    }

    pub fn as_str(self) -> (result: &'static str)
        ensures
            result@ == self.name(),
    {
        match self {
            WorkSource::Staged => "staged",
            WorkSource::Archive => "archive",
        }
    }
}

#[derive(Debug, Clone, Copy, PartialEq, Eq, Structural)]
pub enum ClassificationPhase {
    Idle,
    InFlight,
    AckPending,
}

impl ClassificationPhase {
    pub open spec fn name(self) -> Seq<char> {
        match self {
            ClassificationPhase::Idle => "idle"@,
            ClassificationPhase::InFlight => "in_flight"@,
            ClassificationPhase::AckPending => "ack_pending"@,
        }
    }

    pub fn as_str(self) -> (result: &'static str)
        ensures
            result@ == self.name(),
    {
        match self {
            ClassificationPhase::Idle => "idle",
            ClassificationPhase::InFlight => "in_flight",
            ClassificationPhase::AckPending => "ack_pending",
        }
    }
}

/// Work that is going on.
#[derive(Debug)]
pub struct ActiveWork {
    pub name: String,
    pub source: WorkSource,
    pub started_ms: u64,
    pub processed: u64,
}

/// Why each task is blocked. No task is listed twice.
#[derive(Debug)]
pub struct BlockedReasons {
    entries: Vec<(String, String)>,
}

/// The tasks and reasons of a list.
pub open spec fn reason_views(entries: Seq<(String, String)>) -> Seq<(Seq<char>, Seq<char>)> {
    entries.map_values(|entry: (String, String)| (entry.0@, entry.1@))
}

/// The map of a list without repeated tasks.
pub open spec fn reason_map(entries: Seq<(Seq<char>, Seq<char>)>) -> Map<Seq<char>, Seq<char>>
    decreases entries.len(),
{
    if entries.len() == 0 {
        Map::empty()
    } else {
        reason_map(entries.drop_last()).insert(entries.last().0, entries.last().1)
    }
}

/// No task occurs twice.
pub open spec fn tasks_distinct(entries: Seq<(Seq<char>, Seq<char>)>) -> bool {
    forall|i: int, j: int|
        0 <= i < j < entries.len() ==> (#[trigger] entries[i]).0 != (#[trigger] entries[j]).0
}

proof fn lemma_reason_map(entries: Seq<(Seq<char>, Seq<char>)>)
    requires
        tasks_distinct(entries),
    ensures
        forall|i: int|
            0 <= i < entries.len() ==> reason_map(entries).dom().contains(
                (#[trigger] entries[i]).0,
            ) && reason_map(entries)[entries[i].0] == entries[i].1,
        forall|task: Seq<char>| #[trigger]
            reason_map(entries).dom().contains(task) ==> exists|i: int|
                0 <= i < entries.len() && (#[trigger] entries[i]).0 == task,
    decreases entries.len(),
{
    if entries.len() > 0 {
        let rest = entries.drop_last();
        assert forall|i: int, j: int| 0 <= i < j < rest.len() implies (#[trigger] rest[i]).0 != (
        #[trigger] rest[j]).0 by {
            assert(rest[i] == entries[i] && rest[j] == entries[j]);
        }
        lemma_reason_map(rest);
        assert forall|i: int| 0 <= i < entries.len() implies reason_map(entries).dom().contains(
            (#[trigger] entries[i]).0,
        ) && reason_map(entries)[entries[i].0] == entries[i].1 by {
            if i < rest.len() {
                assert(rest[i] == entries[i]);
                assert(entries[i].0 != entries[entries.len() - 1].0);
            }
        }
        assert forall|task: Seq<char>| #[trigger]
            reason_map(entries).dom().contains(task) implies exists|i: int|
            0 <= i < entries.len() && (#[trigger] entries[i]).0 == task by {
            if task == entries.last().0 {
                assert(entries[entries.len() - 1].0 == task);
            } else {
                assert(reason_map(rest).dom().contains(task));
                let i = choose|i: int| 0 <= i < rest.len() && (#[trigger] rest[i]).0 == task;
                assert(entries[i].0 == task);
            }
        }
    }
}

/// Removing the one entry of a task removes the task from the map.
proof fn lemma_reason_map_remove(entries: Seq<(Seq<char>, Seq<char>)>, at: int)
    requires
        tasks_distinct(entries),
        0 <= at < entries.len(),
    ensures
        tasks_distinct(entries.remove(at)),
        reason_map(entries.remove(at)) == reason_map(entries).remove(entries[at].0),
{
    let rest = entries.remove(at);
    assert forall|i: int, j: int| 0 <= i < j < rest.len() implies (#[trigger] rest[i]).0 != (
    #[trigger] rest[j]).0 by {
        let a = if i < at {
            i
        } else {
            i + 1
        };
        let b = if j < at {
            j
        } else {
            j + 1
        };
        assert(rest[i] == entries[a] && rest[j] == entries[b]);
    }
    lemma_reason_map(entries);
    lemma_reason_map(rest);
    let left = reason_map(rest);
    let right = reason_map(entries).remove(entries[at].0);
    assert forall|task: Seq<char>| left.dom().contains(task) <==> right.dom().contains(task) by {
        if left.dom().contains(task) {
            let i = choose|i: int| 0 <= i < rest.len() && (#[trigger] rest[i]).0 == task;
            let a = if i < at {
                i
            } else {
                i + 1
            };
            assert(rest[i] == entries[a]);
            assert(entries[a].0 != entries[at].0);
        }
        if right.dom().contains(task) {
            let i = choose|i: int| 0 <= i < entries.len() && (#[trigger] entries[i]).0 == task;
            let a = if i < at {
                i
            } else {
                i - 1
            };
            assert(rest[a] == entries[i]);
        }
    }
    assert forall|task: Seq<char>| left.dom().contains(task) implies left[task] == right[task] by {
        let i = choose|i: int| 0 <= i < rest.len() && (#[trigger] rest[i]).0 == task;
        let a = if i < at {
            i
        } else {
            i + 1
        };
        assert(rest[i] == entries[a]);
    }
    assert(left =~= right);
}

impl View for BlockedReasons {
    type V = Map<Seq<char>, Seq<char>>;

    closed spec fn view(&self) -> Map<Seq<char>, Seq<char>> {
        reason_map(reason_views(self.entries@))
    }
}

impl BlockedReasons {
    pub closed spec fn wf(&self) -> bool {
        tasks_distinct(reason_views(self.entries@))
    }

    pub fn new() -> (result: Self)
        ensures
            result.wf(),
            result@ == Map::<Seq<char>, Seq<char>>::empty(),
    {
        let result = BlockedReasons { entries: Vec::new() };
        assert(reason_views(result.entries@) =~= Seq::<(Seq<char>, Seq<char>)>::empty());
        result
    }

    fn position(&self, task: &str) -> (result: Option<usize>)
        ensures
            match result {
                Some(at) => at < self.entries@.len() && self.entries@[at as int].0@ == task@,
                None => forall|i: int|
                    0 <= i < self.entries@.len() ==> (#[trigger] self.entries@[i]).0@ != task@,
            },
    {
        let mut i: usize = 0;
        while i < self.entries.len()
            invariant
                i <= self.entries@.len(),
                forall|j: int| 0 <= j < i ==> (#[trigger] self.entries@[j]).0@ != task@,
            decreases self.entries@.len() - i,
        {
            if text::same(&self.entries[i].0, task) {
                return Some(i);
            }
            i = i + 1;
        }
        None
    }

    /// The reason of a task.
    pub fn get(&self, task: &str) -> (result: Option<&str>)
        requires
            self.wf(),
        ensures
            match result {
                Some(reason) => self@.dom().contains(task@) && self@[task@] == reason@,
                None => !self@.dom().contains(task@),
            },
    {
        proof {
            lemma_reason_map(reason_views(self.entries@));
        }
        match self.position(task) {
            Some(at) => {
                assert(reason_views(self.entries@)[at as int].0 == task@);
                Some(self.entries[at].1.as_str())
            },
            None => {
                proof {
                    let views = reason_views(self.entries@);
                    if self@.dom().contains(task@) {
                        let i = choose|i: int|
                            0 <= i < views.len() && (#[trigger] views[i]).0 == task@;
                        assert(views[i].0 == self.entries@[i].0@);
                    }
                }
                None
            },
        }
    }

    /// Whether a task is blocked.
    pub fn contains_key(&self, task: &str) -> (result: bool)
        requires
            self.wf(),
        ensures
            result == self@.dom().contains(task@),
    {
        self.get(task).is_some()
    }

    /// Whether no task is blocked.
    pub fn is_empty(&self) -> (result: bool)
        requires
            self.wf(),
        ensures
            result == (self@ == Map::<Seq<char>, Seq<char>>::empty()),
    {
        proof {
            lemma_reason_map(reason_views(self.entries@));
            if self.entries@.len() > 0 {
                assert(self@.dom().contains(reason_views(self.entries@)[0].0));
            } else {
                assert(reason_views(self.entries@) =~= Seq::<(Seq<char>, Seq<char>)>::empty());
            }
        }
        self.entries.len() == 0
    }

    /// Unblocks a task.
    pub fn remove(&mut self, task: &str)
        requires
            old(self).wf(),
        ensures
            final(self).wf(),
            final(self)@ == old(self)@.remove(task@),
    {
        let ghost views = reason_views(self.entries@);
        match self.position(task) {
            Some(at) => {
                proof {
                    lemma_reason_map_remove(views, at as int);
                }
                let removed = self.entries.remove(at);
                assert(reason_views(self.entries@) =~= views.remove(at as int));
                assert(views[at as int].0 == task@);
            },
            None => {
                proof {
                    lemma_reason_map(views);
                    if self@.dom().contains(task@) {
                        let i = choose|i: int|
                            0 <= i < views.len() && (#[trigger] views[i]).0 == task@;
                        assert(views[i].0 == self.entries@[i].0@);
                    }
                }
                assert(self@ =~= self@.remove(task@));
            },
        }
    }

    /// Blocks a task for a reason.
    pub fn insert(&mut self, task: &str, reason: &str)
        requires
            old(self).wf(),
        ensures
            final(self).wf(),
            final(self)@ == old(self)@.insert(task@, reason@),
    {
        let ghost before = self@;
        self.remove(task);
        let ghost views = reason_views(self.entries@);
        proof {
            lemma_reason_map(views);
            assert forall|i: int| 0 <= i < views.len() implies (#[trigger] views[i]).0 != task@ by {
                assert(self@.dom().contains(views[i].0));
            }
        }
        self.entries.push((task.to_owned(), reason.to_owned()));
        proof {
            let after = reason_views(self.entries@);
            assert(after =~= views.push((task@, reason@)));
            assert(after.drop_last() =~= views);
            assert forall|i: int, j: int| 0 <= i < j < after.len() implies (#[trigger] after[i]).0
                != (#[trigger] after[j]).0 by {
                assert(after[i] == views[i]);
                if j < views.len() {
                    assert(after[j] == views[j]);
                }
            }
            assert(self@ =~= before.insert(task@, reason@));
        }
    }

    /// Unblocks every task.
    pub fn clear(&mut self)
        ensures
            final(self).wf(),
            final(self)@ == Map::<Seq<char>, Seq<char>>::empty(),
    {
        *self = BlockedReasons::new();
    }

    /// Unblocks every task but one.
    pub fn keep_only(&mut self, task: &str)
        requires
            old(self).wf(),
        ensures
            final(self).wf(),
            final(self)@ == if old(self)@.dom().contains(task@) {
                Map::<Seq<char>, Seq<char>>::empty().insert(task@, old(self)@[task@])
            } else {
                Map::<Seq<char>, Seq<char>>::empty()
            },
    {
        let kept: Option<String> = match self.get(task) {
            Some(reason) => Some(reason.to_owned()),
            None => None,
        };
        self.clear();
        match kept {
            Some(reason) => {
                self.insert(task, &reason);
            },
            None => {},
        }
    }
}

/// What the background is doing.
#[derive(Debug)]
pub struct ActivityState {
    pub index: Option<ActiveWork>,
    pub classification: Option<ActiveWork>,
    pub classification_phase: ClassificationPhase,
    pub maintenance: Option<ActiveWork>,
    pub global_maintenance: Option<ActiveWork>,
    pub last_progress_ms: u64,
    pub last_blocked: BlockedReasons,
    pub no_work: bool,
    pub classification_committed: u64,
    pub classification_ack_pending: u64,
}

impl ActivityState {
    /// Nothing has happened yet.
    pub fn new(now_ms: u64) -> (result: Self)
        ensures
            result.index is None,
            result.classification is None,
            result.classification_phase == ClassificationPhase::Idle,
            result.maintenance is None,
            result.global_maintenance is None,
            result.last_progress_ms == now_ms,
            result.last_blocked.wf(),
            result.last_blocked@ == Map::<Seq<char>, Seq<char>>::empty(),
            !result.no_work,
            result.classification_committed == 0,
            result.classification_ack_pending == 0,
    {
        ActivityState {
            index: None,
            classification: None,
            classification_phase: ClassificationPhase::Idle,
            maintenance: None,
            global_maintenance: None,
            last_progress_ms: now_ms,
            last_blocked: BlockedReasons::new(),
            no_work: false,
            classification_committed: 0,
            classification_ack_pending: 0,
        }
    }
}

/// Work that begins now.
pub open spec fn is_active(work: ActiveWork, name: Seq<char>, source: WorkSource, now_ms: u64) -> bool {
    &&& work.name@ == name
    &&& work.source == source
    &&& work.started_ms == now_ms
    &&& work.processed == 0
}

/// Work that begins now.
pub fn active(name: &str, source: WorkSource, now_ms: u64) -> (result: ActiveWork)
    ensures
        is_active(result, name@, source, now_ms),
{
    ActiveWork { name: name.to_owned(), source, started_ms: now_ms, processed: 0 }
}

/// `a + b`, or the largest number where that does not fit.
pub open spec fn capped(a: u64, b: u64) -> u64 {
    if a + b > u64::MAX {
        u64::MAX
    } else {
        (a + b) as u64
    }
}

/// `a - b`, or zero where `b` is larger.
pub open spec fn since(a: u64, b: u64) -> u64 {
    if a > b {
        (a - b) as u64
    } else {
        0
    }
}

/// Work with more records done.
pub open spec fn advanced(work: Option<ActiveWork>, processed: u64) -> Option<ActiveWork> {
    match work {
        Some(w) => Some(ActiveWork { processed: capped(w.processed, processed), ..w }),
        None => None,
    }
}

/// An indexing slice begins.
pub fn index_start(state: &mut ActivityState, name: &str, source: WorkSource, now_ms: u64)
    ensures
        final(state).index is Some,
        is_active(final(state).index->0, name@, source, now_ms),
        *final(state) == (ActivityState {
            index: final(state).index,
            last_progress_ms: now_ms,
            no_work: false,
            ..*old(state)
        }),
{
    state.index = Some(active(name, source, now_ms));
    state.last_progress_ms = now_ms;
    state.no_work = false;
}

/// The indexing slice has done more records.
pub fn index_progress(state: &mut ActivityState, processed: u64, now_ms: u64)
    ensures
        *final(state) == if processed == 0 || old(state).index is None {
            *old(state)
        } else {
            ActivityState {
                index: advanced(old(state).index, processed),
                last_progress_ms: now_ms,
                ..*old(state)
            }
        },
{
    if processed == 0 {
        return ;
    }
    match state.index.take() {
        Some(work) => {
            let total: u64 = work.processed.saturating_add(processed);
            state.index = Some(
                ActiveWork {
                    name: work.name,
                    source: work.source,
                    started_ms: work.started_ms,
                    processed: total,
                },
            );
            state.last_progress_ms = now_ms;
        },
        None => {},
    }
}

/// How many records the indexing slice has done.
pub fn index_processed(state: &ActivityState) -> (result: u64)
    ensures
        result == match state.index {
            Some(work) => work.processed,
            None => 0,
        },
{
    match &state.index {
        Some(work) => work.processed,
        None => 0,
    }
}

/// The indexing slice is over.
pub fn index_finish(state: &mut ActivityState)
    ensures
        *final(state) == (ActivityState { index: None, ..*old(state) }),
{
    state.index = None;
}

/// A classification was dispatched.
pub fn classification_started(state: &mut ActivityState, now_ms: u64)
    ensures
        final(state).classification is Some,
        is_active(
            final(state).classification->0,
            "classification"@,
            WorkSource::Staged,
            now_ms,
        ),
        *final(state) == (ActivityState {
            classification: final(state).classification,
            classification_phase: ClassificationPhase::InFlight,
            last_progress_ms: now_ms,
            no_work: false,
            ..*old(state)
        }),
{
    state.classification = Some(active("classification", WorkSource::Staged, now_ms));
    state.classification_phase = ClassificationPhase::InFlight;
    state.last_progress_ms = now_ms;
    state.no_work = false;
}

/// The phase that follows from the receipts alone.
pub open spec fn pending_phase(ack_pending: u64) -> ClassificationPhase {
    if ack_pending > 0 {
        ClassificationPhase::AckPending
    } else {
        ClassificationPhase::Idle
    }
}

/// The state once nothing in flight is left unless it still is.
pub open spec fn reconciled(state: ActivityState) -> ActivityState {
    if state.classification_phase == ClassificationPhase::InFlight {
        state
    } else {
        ActivityState {
            classification: None,
            classification_phase: pending_phase(state.classification_ack_pending),
            ..state
        }
    }
}

/// Work in flight stays; otherwise the receipts decide on the phase.
pub fn reconcile_classification_state(state: &mut ActivityState)
    ensures
        *final(state) == reconciled(*old(state)),
{
    if state.classification_phase == ClassificationPhase::InFlight {
        return ;
    }
    state.classification = None;
    state.classification_phase = classification_phase_for_pending(state.classification_ack_pending);
}

/// The phase that follows from the receipts alone.
pub fn classification_phase_for_pending(ack_pending: u64) -> (result: ClassificationPhase)
    ensures
        result == pending_phase(ack_pending),
{
    if ack_pending > 0 {
        ClassificationPhase::AckPending
    } else {
        ClassificationPhase::Idle
    }
}

/// The state with nothing in flight.
pub open spec fn landed(state: ActivityState) -> ActivityState {
    reconciled(ActivityState { classification_phase: ClassificationPhase::Idle, ..state })
}

/// The dispatch was not taken.
pub fn classification_dispatch_rejected(state: &mut ActivityState)
    ensures
        *final(state) == landed(*old(state)),
{
    state.classification_phase = ClassificationPhase::Idle;
    reconcile_classification_state(state);
}

/// The dispatched classification was put off.
pub fn classification_deferred(state: &mut ActivityState)
    ensures
        *final(state) == landed(*old(state)),
{
    state.classification_phase = ClassificationPhase::Idle;
    reconcile_classification_state(state);
}

/// A classification was committed, and `ack_pending` receipts are open.
pub fn classification_committed(
    state: &mut ActivityState,
    first_commit: bool,
    ack_pending: u64,
    now_ms: u64,
)
    ensures
        *final(state) == landed(
            ActivityState {
                classification_committed: if first_commit {
                    capped(old(state).classification_committed, 1)
                } else {
                    old(state).classification_committed
                },
                classification_ack_pending: ack_pending,
                last_progress_ms: if first_commit {
                    now_ms
                } else {
                    old(state).last_progress_ms
                },
                ..*old(state)
            },
        ),
{
    if first_commit {
        state.classification_committed = state.classification_committed.saturating_add(1);
    }
    state.classification_ack_pending = ack_pending;
    state.classification_phase = ClassificationPhase::Idle;
    reconcile_classification_state(state);
    if first_commit {
        state.last_progress_ms = now_ms;
    }
}

/// Holds the activity against the durable lease: work counts as in flight
/// only while its lease lives.
pub fn classification_pending(
    state: &mut ActivityState,
    ack_pending: u64,
    live_classification_lease: bool,
)
    ensures
        *final(state) == if live_classification_lease {
            reconciled(
                ActivityState { classification_ack_pending: ack_pending, ..*old(state) },
            )
        } else {
            landed(ActivityState { classification_ack_pending: ack_pending, ..*old(state) })
        },
{
    state.classification_ack_pending = ack_pending;
    if !live_classification_lease {
        state.classification_phase = ClassificationPhase::Idle;
    }
    reconcile_classification_state(state);
}

/// Receipts were acknowledged.
pub fn classification_acknowledged(state: &mut ActivityState, count: u64, now_ms: u64)
    ensures
        *final(state) == if count == 0 {
            *old(state)
        } else {
            reconciled(
                ActivityState {
                    classification_ack_pending: since(
                        old(state).classification_ack_pending,
                        count,
                    ),
                    last_progress_ms: now_ms,
                    ..*old(state)
                },
            )
        },
{
    if count == 0 {
        return ;
    }
    state.classification_ack_pending = state.classification_ack_pending.saturating_sub(count);
    reconcile_classification_state(state);
    state.last_progress_ms = now_ms;
}

/// A maintenance task begins.
pub fn maintenance_start(state: &mut ActivityState, name: &str, now_ms: u64)
    ensures
        final(state).maintenance is Some,
        is_active(final(state).maintenance->0, name@, WorkSource::Staged, now_ms),
        *final(state) == (ActivityState {
            maintenance: final(state).maintenance,
            no_work: false,
            ..*old(state)
        }),
{
    state.maintenance = Some(active(name, WorkSource::Staged, now_ms));
    state.no_work = false;
}

/// The maintenance task has done more records.
pub fn maintenance_progress(state: &mut ActivityState, processed: u64, now_ms: u64)
    ensures
        *final(state) == if processed == 0 || old(state).maintenance is None {
            *old(state)
        } else {
            ActivityState {
                maintenance: advanced(old(state).maintenance, processed),
                last_progress_ms: now_ms,
                ..*old(state)
            }
        },
{
    if processed == 0 {
        return ;
    }
    match state.maintenance.take() {
        Some(work) => {
            let total: u64 = work.processed.saturating_add(processed);
            state.maintenance = Some(
                ActiveWork {
                    name: work.name,
                    source: work.source,
                    started_ms: work.started_ms,
                    processed: total,
                },
            );
            state.last_progress_ms = now_ms;
        },
        None => {},
    }
}

/// What finished work amounts to: records and milliseconds.
pub open spec fn amount(work: Option<ActiveWork>, now_ms: u64) -> (u64, u64) {
    match work {
        Some(w) => (w.processed, since(now_ms, w.started_ms)),
        None => (0, 0),
    }
}

/// The maintenance task is over.
pub fn maintenance_finish(state: &mut ActivityState, now_ms: u64) -> (result: (u64, u64))
    ensures
        result == amount(old(state).maintenance, now_ms),
        *final(state) == (ActivityState { maintenance: None, ..*old(state) }),
{
    match state.maintenance.take() {
        Some(work) => (work.processed, now_ms.saturating_sub(work.started_ms)),
        None => (0, 0),
    }
}

/// Maintenance of the whole store begins.
pub fn global_maintenance_start(state: &mut ActivityState, name: &str, now_ms: u64)
    ensures
        final(state).global_maintenance is Some,
        is_active(final(state).global_maintenance->0, name@, WorkSource::Archive, now_ms),
        *final(state) == (ActivityState {
            global_maintenance: final(state).global_maintenance,
            no_work: false,
            ..*old(state)
        }),
{
    state.global_maintenance = Some(active(name, WorkSource::Archive, now_ms));
    state.no_work = false;
}

/// Maintenance of the whole store is over.
pub fn global_maintenance_finish(state: &mut ActivityState, now_ms: u64) -> (result: (u64, u64))
    ensures
        result == amount(old(state).global_maintenance, now_ms),
        *final(state) == (ActivityState { global_maintenance: None, ..*old(state) }),
{
    match state.global_maintenance.take() {
        Some(work) => (work.processed, now_ms.saturating_sub(work.started_ms)),
        None => (0, 0),
    }
}

/// The task is known to be blocked for this reason.
pub open spec fn known(
    blocked: Map<Seq<char>, Seq<char>>,
    task: Seq<char>,
    reason: Seq<char>,
) -> bool {
    blocked.dom().contains(task) && blocked[task] == reason
}

/// Notes a reason, and tells whether it is new for the task.
pub fn update_blocked(blocked: &mut BlockedReasons, task: &str, reason: &str) -> (result: bool)
    requires
        old(blocked).wf(),
    ensures
        final(blocked).wf(),
        result == !known(old(blocked)@, task@, reason@),
        final(blocked)@ == old(blocked)@.insert(task@, reason@),
{
    let unchanged = match blocked.get(task) {
        Some(current) => text::same(current, reason),
        None => false,
    };
    if unchanged {
        assert(blocked@ =~= blocked@.insert(task@, reason@));
        return false;
    }
    blocked.insert(task, reason);
    true
}

/// Everything but the blocked tasks is as before.
pub open spec fn same_but_blocked(after: ActivityState, before: ActivityState) -> bool {
    after == (ActivityState { last_blocked: after.last_blocked, ..before })
}

/// Notes that a task is blocked, and tells whether that is news.
pub fn blocked(state: &mut ActivityState, task: &str, reason: &str) -> (result: bool)
    requires
        old(state).last_blocked.wf(),
    ensures
        final(state).last_blocked.wf(),
        result == !known(old(state).last_blocked@, task@, reason@),
        final(state).last_blocked@ == old(state).last_blocked@.insert(task@, reason@),
        same_but_blocked(
            *final(state),
            (ActivityState { no_work: old(state).no_work && !result, ..*old(state) }),
        ),
{
    if !update_blocked(&mut state.last_blocked, task, reason) {
        return false;
    }
    state.no_work = false;
    true
}

/// Notes that a task is no longer blocked.
pub fn clear_blocked(state: &mut ActivityState, task: &str)
    requires
        old(state).last_blocked.wf(),
    ensures
        final(state).last_blocked.wf(),
        final(state).last_blocked@ == old(state).last_blocked@.remove(task@),
        same_but_blocked(*final(state), *old(state)),
{
    state.last_blocked.remove(task);
}

/// Unblocks classification once nothing of it is left.
pub fn clear_classification_blocked(state: &mut ActivityState)
    requires
        old(state).last_blocked.wf(),
    ensures
        final(state).last_blocked.wf(),
        final(state).last_blocked@ == if old(state).classification_phase
            == ClassificationPhase::Idle && old(state).classification_ack_pending == 0 {
            old(state).last_blocked@.remove("classification"@)
        } else {
            old(state).last_blocked@
        },
        same_but_blocked(*final(state), *old(state)),
{
    if state.classification_phase == ClassificationPhase::Idle && state.classification_ack_pending
        == 0 {
        state.last_blocked.remove("classification");
    }
}

/// Unblocks classification once nothing of it is left.
pub fn clear_classification_blocked_if_idle(state: &mut ActivityState)
    requires
        old(state).last_blocked.wf(),
    ensures
        final(state).last_blocked.wf(),
        final(state).last_blocked@ == if old(state).classification_phase
            == ClassificationPhase::Idle && old(state).classification_ack_pending == 0 {
            old(state).last_blocked@.remove("classification"@)
        } else {
            old(state).last_blocked@
        },
        same_but_blocked(*final(state), *old(state)),
{
    clear_classification_blocked(state);
}

/// Nothing runs, waits for a receipt or is blocked.
pub open spec fn idle(state: ActivityState) -> bool {
    &&& state.index is None
    &&& state.classification is None
    &&& state.classification_ack_pending == 0
    &&& state.maintenance is None
    &&& state.global_maintenance is None
    &&& state.last_blocked@ == Map::<Seq<char>, Seq<char>>::empty()
}

/// Nothing runs, waits for a receipt or is blocked.
pub fn is_idle(state: &ActivityState) -> (result: bool)
    requires
        state.last_blocked.wf(),
    ensures
        result == idle(*state),
{
    state.index.is_none() && state.classification.is_none() && state.classification_ack_pending == 0
        && state.maintenance.is_none() && state.global_maintenance.is_none()
        && state.last_blocked.is_empty()
}

/// A reason that is new for a task.
#[derive(Debug)]
pub struct BlockedTransition {
    pub task: String,
    pub reason: String,
}

/// The tasks and reasons of the transitions.
pub open spec fn transition_views(transitions: Seq<BlockedTransition>) -> Seq<
    (Seq<char>, Seq<char>),
> {
    transitions.map_values(|t: BlockedTransition| (t.task@, t.reason@))
}

/// The blocked tasks after a list of them was noted, in order.
pub open spec fn noted(
    blocked: Map<Seq<char>, Seq<char>>,
    list: Seq<(Seq<char>, Seq<char>)>,
) -> Map<Seq<char>, Seq<char>>
    decreases list.len(),
{
    if list.len() == 0 {
        blocked
    } else {
        noted(blocked, list.drop_last()).insert(list.last().0, list.last().1)
    }
}

/// The entries of the list that were news when they were noted.
pub open spec fn news(
    blocked: Map<Seq<char>, Seq<char>>,
    list: Seq<(Seq<char>, Seq<char>)>,
) -> Seq<(Seq<char>, Seq<char>)>
    decreases list.len(),
{
    if list.len() == 0 {
        Seq::empty()
    } else {
        let before = news(blocked, list.drop_last());
        if known(noted(blocked, list.drop_last()), list.last().0, list.last().1) {
            before
        } else {
            before.push(list.last())
        }
    }
}

/// What is kept of the blocked tasks between two looks at the queue.
pub open spec fn kept_reasons(blocked: Map<Seq<char>, Seq<char>>) -> Map<Seq<char>, Seq<char>> {
    if blocked.dom().contains("classification"@) {
        Map::<Seq<char>, Seq<char>>::empty().insert(
            "classification"@,
            blocked["classification"@],
        )
    } else {
        Map::<Seq<char>, Seq<char>>::empty()
    }
}

/// Takes over what the scheduler found blocked while it had nothing to run.
/// Tells what is news, and whether everything became idle.
pub fn apply_scheduler_state(state: &mut ActivityState, list: Vec<(String, String)>) -> (result: (
    Vec<BlockedTransition>,
    bool,
))
    requires
        old(state).last_blocked.wf(),
    ensures
        final(state).last_blocked.wf(),
        ({
            let views = reason_views(list@);
            let kept = kept_reasons(old(state).last_blocked@);
            let armed = !old(state).no_work || list@.len() > 0;
            let now_idle = idle(
                (ActivityState { last_blocked: final(state).last_blocked, ..*old(state) }),
            );
            &&& final(state).last_blocked@ == noted(kept, views)
            &&& transition_views(result.0@) == news(kept, views)
            &&& result.1 == (armed && now_idle)
            &&& same_but_blocked(
                *final(state),
                (ActivityState { no_work: !armed || now_idle, ..*old(state) }),
            )
        }),
{
    let ghost kept = kept_reasons(state.last_blocked@);
    let ghost views = reason_views(list@);
    state.last_blocked.keep_only("classification");
    let mut transitions: Vec<BlockedTransition> = Vec::new();
    let has_blocked = list.len() > 0;
    let mut i: usize = 0;
    assert(views.take(0) =~= Seq::<(Seq<char>, Seq<char>)>::empty());
    assert(transition_views(transitions@) =~= Seq::<(Seq<char>, Seq<char>)>::empty());
    while i < list.len()
        invariant
            i <= list@.len(),
            views == reason_views(list@),
            state.last_blocked.wf(),
            state.last_blocked@ == noted(kept, views.take(i as int)),
            transition_views(transitions@) == news(kept, views.take(i as int)),
            same_but_blocked(*state, *old(state)),
        decreases list@.len() - i,
    {
        let task = &list[i].0;
        let reason = &list[i].1;
        assert(views.take(i + 1).drop_last() =~= views.take(i as int));
        assert(views.take(i + 1).last() == (task@, reason@));
        let ghost before = transition_views(transitions@);
        if update_blocked(&mut state.last_blocked, task, reason) {
            transitions.push(BlockedTransition { task: task.clone(), reason: reason.clone() });
            assert(transition_views(transitions@) =~= before.push((task@, reason@)));
        }
        i = i + 1;
    }
    assert(views.take(views.len() as int) =~= views);
    if has_blocked {
        state.no_work = false;
    }
    let became_idle = !state.no_work && is_idle(state);
    if became_idle {
        state.no_work = true;
    }
    (transitions, became_idle)
}

/// The line that tells of a blocked task.
pub open spec fn blocked_line(task: Seq<char>, reason: Seq<char>) -> Seq<char> {
    "[BACKGROUND] event=blocked task="@ + task + " reason="@ + reason
}

/// Takes over what the scheduler found blocked, and gives the lines to log.
pub fn scheduler_no_work(state: &mut ActivityState, list: Vec<(String, String)>) -> (result: Vec<
    String,
>)
    requires
        old(state).last_blocked.wf(),
    ensures
        final(state).last_blocked.wf(),
        ({
            let views = reason_views(list@);
            let kept = kept_reasons(old(state).last_blocked@);
            let fresh = news(kept, views);
            let armed = !old(state).no_work || list@.len() > 0;
            let now_idle = idle(
                (ActivityState { last_blocked: final(state).last_blocked, ..*old(state) }),
            );
            &&& final(state).last_blocked@ == noted(kept, views)
            &&& same_but_blocked(
                *final(state),
                (ActivityState { no_work: !armed || now_idle, ..*old(state) }),
            )
            &&& result@.len() == fresh.len() + if armed && now_idle {
                1int
            } else {
                0int
            }
            &&& forall|i: int|
                0 <= i < fresh.len() ==> (#[trigger] result@[i])@ == blocked_line(
                    fresh[i].0,
                    fresh[i].1,
                )
            &&& armed && now_idle ==> result@.last()@
                == "[BACKGROUND] event=idle reason=no_work"@
        }),
{
    let (transitions, became_idle) = apply_scheduler_state(state, list);
    let mut lines: Vec<String> = Vec::new();
    let mut i: usize = 0;
    while i < transitions.len()
        invariant
            i <= transitions@.len(),
            lines@.len() == i,
            forall|j: int|
                0 <= j < i ==> (#[trigger] lines@[j])@ == blocked_line(
                    transition_views(transitions@)[j].0,
                    transition_views(transitions@)[j].1,
                ),
        decreases transitions@.len() - i,
    {
        let mut line = text::join3(
            "[BACKGROUND] event=blocked task=",
            &transitions[i].task,
            " reason=",
        );
        line.append(&transitions[i].reason);
        lines.push(line);
        i = i + 1;
    }
    if became_idle {
        lines.push("[BACKGROUND] event=idle reason=no_work".to_owned());
    }
    lines
}

/// Work in words.
pub open spec fn described(work: Option<ActiveWork>, now_ms: u64) -> Seq<char> {
    match work {
        None => "idle"@,
        Some(w) => w.name@ + ":"@ + w.source.name() + ":processed="@ + text::decimal(
            w.processed as nat,
        ) + ":elapsed_s="@ + text::decimal((since(now_ms, w.started_ms) / 1000) as nat),
    }
}

/// Work in words.
pub fn describe(work: &Option<ActiveWork>, now_ms: u64) -> (result: String)
    ensures
        result@ == described(*work, now_ms),
{
    match work {
        None => "idle".to_owned(),
        Some(w) => {
            let mut line = text::join3(&w.name, ":", w.source.as_str());
            line.append(":processed=");
            line.append(&text::decimal_string(w.processed));
            line.append(":elapsed_s=");
            line.append(&text::decimal_string(now_ms.saturating_sub(w.started_ms) / 1000));
            line
        },
    }
}

/// Classification in words.
pub open spec fn classification_described(state: ActivityState, now_ms: u64) -> Seq<char> {
    match state.classification {
        None => state.classification_phase.name(),
        Some(w) => state.classification_phase.name() + ":elapsed_s="@ + text::decimal(
            (since(now_ms, w.started_ms) / 1000) as nat,
        ),
    }
}

/// Classification in words.
pub fn describe_classification(state: &ActivityState, now_ms: u64) -> (result: String)
    ensures
        result@ == classification_described(*state, now_ms),
{
    match &state.classification {
        None => state.classification_phase.as_str().to_owned(),
        Some(w) => text::join3(
            state.classification_phase.as_str(),
            ":elapsed_s=",
            &text::decimal_string(now_ms.saturating_sub(w.started_ms) / 1000),
        ),
    }
}

/// Maintenance in words; that of the whole store goes first.
pub open spec fn maintenance_described(state: ActivityState, now_ms: u64) -> Seq<char> {
    match state.global_maintenance {
        None => described(state.maintenance, now_ms),
        Some(w) => w.name@ + ":elapsed_s="@ + text::decimal(
            (since(now_ms, w.started_ms) / 1000) as nat,
        ),
    }
}

/// Maintenance in words; that of the whole store goes first.
pub fn describe_maintenance(state: &ActivityState, now_ms: u64) -> (result: String)
    ensures
        result@ == maintenance_described(*state, now_ms),
{
    match &state.global_maintenance {
        None => describe(&state.maintenance, now_ms),
        Some(w) => text::join3(
            &w.name,
            ":elapsed_s=",
            &text::decimal_string(now_ms.saturating_sub(w.started_ms) / 1000),
        ),
    }
}

/// The summary to log, and the one of classification where there is any.
pub fn emit_summary(state: &ActivityState, now_ms: u64) -> (result: (String, Option<String>))
    ensures
        result.0@ == "[BACKGROUND] event=summary index="@ + described(state.index, now_ms)
            + " classification="@ + classification_described(*state, now_ms) + " maintenance="@
            + maintenance_described(*state, now_ms) + " since_progress_s="@ + text::decimal(
            (since(now_ms, state.last_progress_ms) / 1000) as nat,
        ),
        match result.1 {
            None => state.classification_committed == 0 && state.classification_ack_pending == 0,
            Some(line) => {
                &&& state.classification_committed > 0 || state.classification_ack_pending > 0
                &&& line@ == "[BACKGROUND] event=classification_summary committed="@
                    + text::decimal(state.classification_committed as nat) + " ack_pending="@
                    + text::decimal(state.classification_ack_pending as nat)
            },
        },
{
    let mut line = text::join2(
        "[BACKGROUND] event=summary index=",
        &describe(&state.index, now_ms),
    );
    line.append(" classification=");
    line.append(&describe_classification(state, now_ms));
    line.append(" maintenance=");
    line.append(&describe_maintenance(state, now_ms));
    line.append(" since_progress_s=");
    line.append(&text::decimal_string(now_ms.saturating_sub(state.last_progress_ms) / 1000));
    let second: Option<String> = if state.classification_committed > 0
        || state.classification_ack_pending > 0 {
        let mut more = text::join3(
            "[BACKGROUND] event=classification_summary committed=",
            &text::decimal_string(state.classification_committed),
            " ack_pending=",
        );
        more.append(&text::decimal_string(state.classification_ack_pending));
        Some(more)
    } else {
        None
    };
    (line, second)
}

/// An in-flight dispatch is given up only when it lands or its lease is gone:
/// receipts alone never end it.
pub proof fn law_in_flight_survives_receipts(state: ActivityState, ack_pending: u64)
    requires
        state.classification_phase == ClassificationPhase::InFlight,
    ensures
        reconciled(
            (ActivityState { classification_ack_pending: ack_pending, ..state }),
        ).classification_phase == ClassificationPhase::InFlight,
        reconciled(
            (ActivityState { classification_ack_pending: ack_pending, ..state }),
        ).classification == state.classification,
{
}

/// Once nothing is in flight, the phase is that of the receipts: receipts that
/// wait for their acknowledgement keep it from being idle, and no work is shown.
pub proof fn law_landed_work_waits_for_its_receipts(state: ActivityState)
    ensures
        landed(state).classification is None,
        state.classification_ack_pending == 0 <==> landed(state).classification_phase
            == ClassificationPhase::Idle,
        state.classification_ack_pending > 0 <==> landed(state).classification_phase
            == ClassificationPhase::AckPending,
        landed(state).index == state.index,
        landed(state).maintenance == state.maintenance,
        landed(state).classification_ack_pending == state.classification_ack_pending,
        landed(state).classification_committed == state.classification_committed,
        state.classification_phase != ClassificationPhase::InFlight ==> reconciled(state)
            == landed(state),
{
}

/// Nothing is going on only if there is no index work, no classification and no
/// receipt of one, no maintenance and nothing that is blocked.
pub proof fn law_idle_is_without_any_work(state: ActivityState, task: Seq<char>)
    requires
        idle(state),
    ensures
        state.index is None,
        state.classification is None,
        state.classification_ack_pending == 0,
        state.maintenance is None,
        state.global_maintenance is None,
        !state.last_blocked@.dom().contains(task),
{
}

/// Each task that the scheduler tells of is noted with its reason, the last one
/// where it is told of twice; what it does not tell of stays as it was.
pub proof fn law_told_reasons_are_noted(
    blocked: Map<Seq<char>, Seq<char>>,
    list: Seq<(Seq<char>, Seq<char>)>,
    i: int,
    other: Seq<char>,
)
    ensures
        0 <= i < list.len() && (forall|j: int|
            i < j < list.len() ==> (#[trigger] list[j]).0 != list[i].0) ==> noted(
            blocked,
            list,
        ).dom().contains(list[i].0) && noted(blocked, list)[list[i].0] == list[i].1,
        (forall|j: int| 0 <= j < list.len() ==> (#[trigger] list[j]).0 != other) ==> (noted(
            blocked,
            list,
        ).dom().contains(other) <==> blocked.dom().contains(other)) && noted(blocked, list)[other]
            == blocked[other],
    decreases list.len(),
{
    if list.len() > 0 {
        let rest = list.drop_last();
        law_told_reasons_are_noted(blocked, rest, i, other);
        if 0 <= i < rest.len() {
            assert(rest[i] == list[i]);
            if forall|j: int| i < j < list.len() ==> (#[trigger] list[j]).0 != list[i].0 {
                assert(list[list.len() - 1].0 != list[i].0);
                assert forall|j: int| i < j < rest.len() implies (#[trigger] rest[j]).0
                    != rest[i].0 by {
                    assert(rest[j] == list[j]);
                }
            }
        }
        if forall|j: int| 0 <= j < list.len() ==> (#[trigger] list[j]).0 != other {
            assert(list[list.len() - 1].0 != other);
            assert forall|j: int| 0 <= j < rest.len() implies (#[trigger] rest[j]).0 != other by {
                assert(rest[j] == list[j]);
            }
        }
    }
}

/// Only what is new is told: a task for which its reason is known already is not
/// told of again, and one for which it is not is.
pub proof fn law_only_news_is_told(
    blocked: Map<Seq<char>, Seq<char>>,
    list: Seq<(Seq<char>, Seq<char>)>,
)
    requires
        tasks_distinct(list),
    ensures
        (forall|i: int|
            0 <= i < list.len() ==> blocked.dom().contains((#[trigger] list[i]).0)
                && blocked[list[i].0] == list[i].1) ==> news(blocked, list).len() == 0,
        (forall|i: int|
            0 <= i < list.len() ==> !(blocked.dom().contains((#[trigger] list[i]).0)
                && blocked[list[i].0] == list[i].1)) ==> news(blocked, list) == list,
    decreases list.len(),
{
    if list.len() > 0 {
        let rest = list.drop_last();
        let last = list.last();
        assert forall|i: int, j: int| 0 <= i < j < rest.len() implies (#[trigger] rest[i]).0 != (
        #[trigger] rest[j]).0 by {
            assert(rest[i] == list[i] && rest[j] == list[j]);
        }
        law_only_news_is_told(blocked, rest);
        assert forall|j: int| 0 <= j < rest.len() implies (#[trigger] rest[j]).0 != last.0 by {
            assert(rest[j] == list[j] && last == list[list.len() - 1]);
        }
        law_told_reasons_are_noted(blocked, rest, 0, last.0);
        if forall|i: int|
            0 <= i < list.len() ==> blocked.dom().contains((#[trigger] list[i]).0)
                && blocked[list[i].0] == list[i].1 {
            assert(last == list[list.len() - 1]);
            assert forall|i: int| 0 <= i < rest.len() implies blocked.dom().contains(
                (#[trigger] rest[i]).0,
            ) && blocked[rest[i].0] == rest[i].1 by {
                assert(rest[i] == list[i]);
            }
        }
        if forall|i: int|
            0 <= i < list.len() ==> !(blocked.dom().contains((#[trigger] list[i]).0)
                && blocked[list[i].0] == list[i].1) {
            assert(last == list[list.len() - 1]);
            assert forall|i: int| 0 <= i < rest.len() implies !(blocked.dom().contains(
                (#[trigger] rest[i]).0,
            ) && blocked[rest[i].0] == rest[i].1) by {
                assert(rest[i] == list[i]);
            }
            assert(list =~= rest.push(last));
        }
    } else {
        assert(news(blocked, list) =~= list);
    }
}

/// When the scheduler tells of its rows anew, only what the classification waits
/// for outlasts it.
pub proof fn law_only_the_classification_outlasts(
    blocked: Map<Seq<char>, Seq<char>>,
    task: Seq<char>,
)
    ensures
        kept_reasons(blocked).dom().contains(task) <==> task == "classification"@
            && blocked.dom().contains(task),
        kept_reasons(blocked).dom().contains(task) ==> kept_reasons(blocked)[task]
            == blocked[task],
{
}

/// Progress adds up, and is shown for the work that is going on only.
pub proof fn law_progress_adds_up(work: ActiveWork, a: u64, b: u64, now_ms: u64)
    requires
        work.processed + a + b <= u64::MAX,
        work.started_ms <= now_ms,
    ensures
        advanced(advanced(Some(work), a), b) == Some(
            ActiveWork { processed: (work.processed + a + b) as u64, ..work },
        ),
        advanced(None, a) is None,
        amount(Some(work), now_ms) == (work.processed, (now_ms - work.started_ms) as u64),
        amount(None, now_ms) == (0u64, 0u64),
{
}

} // verus!
