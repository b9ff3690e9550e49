//! Scheduling of automatic index and cluster work.
//!
//! The tasks own their queues. What is decided here is which slice may claim
//! the one semantic worker next, and what becomes of a slice that ran.
use crate::{background_policy, text};
use vstd::prelude::*;
use vstd::string::*;

verus! {

pub const TASK_SEMANTIC_INDEX: &'static str = "semantic_index";

pub const TASK_CLIP_INDEX: &'static str = "clip_index";

pub const TASK_SMART_CLUSTER: &'static str = "smart_cluster";

pub const TASK_ANN_BUILD: &'static str = "ann_build";

/// Automatic work may wait behind requested work for ten minutes.
pub const AUTO_AGING_LIMIT_MS: i64 = 600_000;

pub const CLIP_AUTO_QUANTUM_MS: u64 = 60_000;

pub const MINILM_AUTO_QUANTUM_MS: u64 = 30_000;

pub const TICK_INTERVAL_MS: i64 = 2000;

pub const MAX_RETRY_DELAY_SECS: u64 = 3600;

#[derive(Debug, Clone, Copy, PartialEq, Eq, Structural)]
pub enum BackgroundTaskKind {
    SemanticIndex,
    ClipIndex,
    SmartCluster,
    AnnBuild,
}

/// The kind of task with this name.
pub open spec fn parsed(value: Seq<char>) -> Option<BackgroundTaskKind> {
    if value == "semantic_index"@ {
        Some(BackgroundTaskKind::SemanticIndex)
    } else if value == "clip_index"@ {
        Some(BackgroundTaskKind::ClipIndex)
    } else if value == "smart_cluster"@ {
        Some(BackgroundTaskKind::SmartCluster)
    } else if value == "ann_build"@ {
        Some(BackgroundTaskKind::AnnBuild)
    } else {
        None
    }
}

impl BackgroundTaskKind {
    /// The name of the task.
    pub open spec fn name(self) -> Seq<char> {
        match self {
            BackgroundTaskKind::SemanticIndex => "semantic_index"@,
            BackgroundTaskKind::ClipIndex => "clip_index"@,
            BackgroundTaskKind::SmartCluster => "smart_cluster"@,
            BackgroundTaskKind::AnnBuild => "ann_build"@,
        }
    }

    /// The place of the name in alphabetical order.
    pub open spec fn rank(self) -> int {
        match self {
            BackgroundTaskKind::AnnBuild => 0,
            BackgroundTaskKind::ClipIndex => 1,
            BackgroundTaskKind::SemanticIndex => 2,
            BackgroundTaskKind::SmartCluster => 3,
        }
    }

    pub fn as_str(self) -> (result: &'static str)
        ensures
            result@ == self.name(),
    {
        match self {
            BackgroundTaskKind::SemanticIndex => TASK_SEMANTIC_INDEX,
            BackgroundTaskKind::ClipIndex => TASK_CLIP_INDEX,
            BackgroundTaskKind::SmartCluster => TASK_SMART_CLUSTER,
            BackgroundTaskKind::AnnBuild => TASK_ANN_BUILD,
        }
    }

    pub fn parse(value: &str) -> (result: Option<Self>)
        ensures
            result == parsed(value@),
    {
        if text::same(value, TASK_SEMANTIC_INDEX) {
            Some(BackgroundTaskKind::SemanticIndex)
        } else if text::same(value, TASK_CLIP_INDEX) {
            Some(BackgroundTaskKind::ClipIndex)
        } else if text::same(value, TASK_SMART_CLUSTER) {
            Some(BackgroundTaskKind::SmartCluster)
        } else if text::same(value, TASK_ANN_BUILD) {
            Some(BackgroundTaskKind::AnnBuild)
        } else {
            None
        }
    }

    fn order(self) -> (result: u8)
        ensures
            result == self.rank(),
    {
        match self {
            BackgroundTaskKind::AnnBuild => 0,
            BackgroundTaskKind::ClipIndex => 1,
            BackgroundTaskKind::SemanticIndex => 2,
            BackgroundTaskKind::SmartCluster => 3,
        }
    }

    /// How long an automatic slice of a single-model indexer may take, in
    /// milliseconds.
    pub fn automatic_quantum(self) -> (result: Option<u64>)
        ensures
            result == match self {
                BackgroundTaskKind::ClipIndex => Some(60_000u64),
                BackgroundTaskKind::SemanticIndex => Some(30_000u64),
                _ => None,
            },
    {
        match self {
            BackgroundTaskKind::ClipIndex => Some(CLIP_AUTO_QUANTUM_MS),
            BackgroundTaskKind::SemanticIndex => Some(MINILM_AUTO_QUANTUM_MS),
            BackgroundTaskKind::SmartCluster => None,
            BackgroundTaskKind::AnnBuild => None,
        }
    }
}

/// Every kind of task is known by its name, and by no other.
pub proof fn law_kind_names_read_back(kind: BackgroundTaskKind, value: Seq<char>)
    ensures
        parsed(kind.name()) == Some(kind),
        parsed(value) == Some(kind) ==> value == kind.name(),
{
    reveal_strlit("semantic_index");
    reveal_strlit("clip_index");
    reveal_strlit("smart_cluster");
    reveal_strlit("ann_build");
    assert("semantic_index"@[1] == 'e');
    assert("clip_index"@[1] == 'l');
    assert("smart_cluster"@[1] == 'm');
    assert("ann_build"@[1] == 'n');
}

/// Automatic text work and scoring need the feature; requested work and the
/// rest do not.
pub fn task_feature_enabled_with_config(
    kind: BackgroundTaskKind,
    manual: bool,
    smart_cluster_enabled: bool,
) -> (result: bool)
    ensures
        result == (manual || smart_cluster_enabled || kind == BackgroundTaskKind::ClipIndex || kind
            == BackgroundTaskKind::AnnBuild),
{
    if manual {
        return true;
    }
    match kind {
        BackgroundTaskKind::SemanticIndex => smart_cluster_enabled,
        BackgroundTaskKind::SmartCluster => smart_cluster_enabled,
        BackgroundTaskKind::ClipIndex => true,
        BackgroundTaskKind::AnnBuild => true,
    }
}

#[derive(Debug, Clone, Copy, PartialEq, Eq, Structural)]
pub enum AutomaticSliceStopReason {
    BudgetExpired,
    ManualRequestPending,
    ExternalBackgroundRequest,
}

impl AutomaticSliceStopReason {
    pub open spec fn code(self) -> Seq<char> {
        match self {
            AutomaticSliceStopReason::BudgetExpired => "quantum_expired"@,
            AutomaticSliceStopReason::ManualRequestPending => "manual_request_pending"@,
            AutomaticSliceStopReason::ExternalBackgroundRequest => "external_background_request"@,
        }
    }

    pub fn as_str(self) -> (result: &'static str)
        ensures
            result@ == self.code(),
    {
        match self {
            AutomaticSliceStopReason::BudgetExpired => "quantum_expired",
            AutomaticSliceStopReason::ManualRequestPending => "manual_request_pending",
            AutomaticSliceStopReason::ExternalBackgroundRequest => "external_background_request",
        }
    }
}

/// The note beside a deferred reason code: which side asked the pass to stand
/// down.
pub open spec fn release_note(reason: Seq<char>) -> Seq<char> {
    if reason == AutomaticSliceStopReason::BudgetExpired.code() {
        "the automatic model quantum reached its time budget"@
    } else if reason == AutomaticSliceStopReason::ManualRequestPending.code() {
        "a manual request is waiting for the scheduler"@
    } else if reason == AutomaticSliceStopReason::ExternalBackgroundRequest.code() {
        "an external background request is waiting for the semantic worker"@
    } else {
        "another background model request owned the semantic worker"@
    }
}

/// The note beside a deferred reason code.
pub fn deferred_release_note(reason: &str) -> (result: &'static str)
    ensures
        result@ == release_note(reason@),
{
    if text::same(reason, AutomaticSliceStopReason::BudgetExpired.as_str()) {
        "the automatic model quantum reached its time budget"
    } else if text::same(reason, AutomaticSliceStopReason::ManualRequestPending.as_str()) {
        "a manual request is waiting for the scheduler"
    } else if text::same(reason, AutomaticSliceStopReason::ExternalBackgroundRequest.as_str()) {
        "an external background request is waiting for the semantic worker"
    } else {
        "another background model request owned the semantic worker"
    }
}

/// The permission for one automatic single-model quantum.
#[derive(Debug, Clone, Copy)]
pub struct AutomaticSliceContext {
    pub started_ms: u64,
    pub deadline_ms: u64,
    pub manual_generation_at_admission: u64,
}

impl AutomaticSliceContext {
    /// A quantum that begins now.
    pub fn new(budget_ms: u64, manual_generation_at_admission: u64, now_ms: u64) -> (result: Self)
        requires
            now_ms + budget_ms <= u64::MAX,
        ensures
            result.started_ms == now_ms,
            result.deadline_ms == now_ms + budget_ms,
            result.manual_generation_at_admission == manual_generation_at_admission,
    {
        AutomaticSliceContext {
            started_ms: now_ms,
            deadline_ms: now_ms + budget_ms,
            manual_generation_at_admission,
        }
    }

    /// Why no further model request should be made, if so. The budget does not
    /// count before the task has made some progress.
    pub open spec fn stopped_by(
        &self,
        manual_generation: u64,
        external_waiting: bool,
        made_progress: bool,
        now_ms: u64,
    ) -> Option<AutomaticSliceStopReason> {
        if manual_generation != self.manual_generation_at_admission {
            Some(AutomaticSliceStopReason::ManualRequestPending)
        } else if external_waiting {
            Some(AutomaticSliceStopReason::ExternalBackgroundRequest)
        } else if made_progress && now_ms >= self.deadline_ms {
            Some(AutomaticSliceStopReason::BudgetExpired)
        } else {
            None
        }
    }

    /// Why the slice ends, if it does.
    pub fn stop_reason(
        &self,
        manual_generation: u64,
        external_waiting: bool,
        made_progress: bool,
        now_ms: u64,
    ) -> (result: Option<AutomaticSliceStopReason>)
        ensures
            result == self.stopped_by(
                manual_generation,
                external_waiting,
                made_progress,
                now_ms,
            ),
    {
        if manual_generation != self.manual_generation_at_admission {
            return Some(AutomaticSliceStopReason::ManualRequestPending);
        }
        if external_waiting {
            return Some(AutomaticSliceStopReason::ExternalBackgroundRequest);
        }
        if made_progress && now_ms >= self.deadline_ms {
            return Some(AutomaticSliceStopReason::BudgetExpired);
        }
        None
    }

    /// How long the quantum has run.
    pub fn elapsed_ms(&self, now_ms: u64) -> (result: u64)
        ensures
            result == background_policy::since(now_ms, self.started_ms),
    {
        now_ms.saturating_sub(self.started_ms)
    }
}

/// The durable row of a task.
#[derive(Debug, Clone)]
pub struct BackgroundTaskState {
    pub task_kind: String,
    pub ready_since_ms: i64,
    pub next_attempt_at_ms: i64,
    pub failure_count: u32,
    pub last_served_seq: u64,
    pub last_error: Option<String>,
    pub last_completed_at_ms: Option<i64>,
    pub status: String,
    pub manual_pending: bool,
    pub manual_in_flight: bool,
}

impl BackgroundTaskState {
    /// The task waits to be run, and its time has come.
    pub open spec fn eligible(&self, now_ms: i64) -> bool {
        (self.status@ == "queued"@ || self.status@ == "retry_wait"@) && self.next_attempt_at_ms
            <= now_ms
    }

    /// The task waits to be run, and its time has come.
    pub fn is_eligible(&self, now_ms: i64) -> (result: bool)
        ensures
            result == self.eligible(now_ms),
    {
        (text::same(&self.status, "queued") || text::same(&self.status, "retry_wait"))
            && self.next_attempt_at_ms <= now_ms
    }
}

/// A task as the order sees it.
#[derive(Debug, Clone, Copy, PartialEq, Eq, Structural)]
pub struct SchedulerCandidate {
    pub kind: BackgroundTaskKind,
    pub ready_since_ms: i64,
    pub last_served_seq: u64,
    pub manual_pending: bool,
}

/// The task can be chosen.
pub open spec fn candidate(tasks: Seq<BackgroundTaskState>, admitted: Seq<bool>, now: i64, i: int) -> bool {
    &&& 0 <= i < tasks.len()
    &&& admitted[i]
    &&& tasks[i].eligible(now)
    &&& parsed(tasks[i].task_kind@) is Some
}

/// The task as the order sees it.
pub open spec fn as_candidate(task: BackgroundTaskState) -> SchedulerCandidate {
    SchedulerCandidate {
        kind: parsed(task.task_kind@)->0,
        ready_since_ms: task.ready_since_ms,
        last_served_seq: task.last_served_seq,
        manual_pending: task.manual_pending,
    }
}

/// `a - b`, kept within 64 bits.
pub open spec fn waited(a: i64, b: i64) -> int {
    if a - b > i64::MAX {
        i64::MAX as int
    } else if a - b < i64::MIN {
        i64::MIN as int
    } else {
        a - b
    }
}

/// Automatic work that has waited long enough to pass requested work.
pub open spec fn aged(task: SchedulerCandidate, now: i64, limit: i64) -> bool {
    !task.manual_pending && waited(now, task.ready_since_ms) >= limit
}

/// Some task that can be chosen has aged.
pub open spec fn some_aged(
    tasks: Seq<BackgroundTaskState>,
    admitted: Seq<bool>,
    now: i64,
    limit: i64,
) -> bool {
    exists|i: int| #[trigger]
        candidate(tasks, admitted, now, i) && aged(as_candidate(tasks[i]), now, limit)
}

/// The task competes: once some task has aged, only aged ones do.
pub open spec fn competes(
    tasks: Seq<BackgroundTaskState>,
    admitted: Seq<bool>,
    now: i64,
    limit: i64,
    i: int,
) -> bool {
    &&& candidate(tasks, admitted, now, i)
    &&& some_aged(tasks, admitted, now, limit) ==> aged(as_candidate(tasks[i]), now, limit)
}

/// `a` is served before `b`: requested work first, then the one that is ready
/// for longer, then the one served longest ago, then by name.
pub open spec fn precedes(a: SchedulerCandidate, b: SchedulerCandidate) -> bool {
    if a.manual_pending != b.manual_pending {
        a.manual_pending
    } else if a.ready_since_ms != b.ready_since_ms {
        a.ready_since_ms < b.ready_since_ms
    } else if a.last_served_seq != b.last_served_seq {
        a.last_served_seq < b.last_served_seq
    } else {
        a.kind.rank() < b.kind.rank()
    }
}

/// The task competes, and none that competes is served before it.
pub open spec fn is_next(
    tasks: Seq<BackgroundTaskState>,
    admitted: Seq<bool>,
    now: i64,
    limit: i64,
    i: int,
) -> bool {
    &&& competes(tasks, admitted, now, limit, i)
    &&& forall|j: int| #[trigger]
        competes(tasks, admitted, now, limit, j) ==> !precedes(
            as_candidate(tasks[j]),
            as_candidate(tasks[i]),
        )
}

/// Every task is admitted.
pub open spec fn all_admitted(n: nat) -> Seq<bool> {
    Seq::new(n, |i: int| true)
}

/// The order names one kind: whichever rows are next, they are of one kind.
pub proof fn law_next_kind_is_unique(
    tasks: Seq<BackgroundTaskState>,
    admitted: Seq<bool>,
    now: i64,
    limit: i64,
    i: int,
    j: int,
)
    requires
        is_next(tasks, admitted, now, limit, i),
        is_next(tasks, admitted, now, limit, j),
    ensures
        as_candidate(tasks[i]) == as_candidate(tasks[j]),
{
    assert(!precedes(as_candidate(tasks[j]), as_candidate(tasks[i])));
    assert(!precedes(as_candidate(tasks[i]), as_candidate(tasks[j])));
}

/// Once automatic work has aged, no requested work is chosen before it.
pub proof fn law_aged_work_is_not_starved(
    tasks: Seq<BackgroundTaskState>,
    admitted: Seq<bool>,
    now: i64,
    limit: i64,
    old_one: int,
    chosen: int,
)
    requires
        candidate(tasks, admitted, now, old_one),
        aged(as_candidate(tasks[old_one]), now, limit),
        is_next(tasks, admitted, now, limit, chosen),
    ensures
        !tasks[chosen].manual_pending,
        tasks[chosen].ready_since_ms <= tasks[old_one].ready_since_ms,
{
    assert(competes(tasks, admitted, now, limit, old_one));
}

fn wait_of(a: i64, b: i64) -> (result: i64)
    ensures
        result == waited(a, b),
{
    let d: i128 = a as i128 - b as i128;
    if d > 0x7FFF_FFFF_FFFF_FFFF {
        i64::MAX
    } else if d < -0x8000_0000_0000_0000 {
        i64::MIN
    } else {
        d as i64
    }
}

fn has_aged(task: &SchedulerCandidate, now: i64, limit: i64) -> (result: bool)
    ensures
        result == aged(*task, now, limit),
{
    !task.manual_pending && wait_of(now, task.ready_since_ms) >= limit
}

fn goes_first(a: &SchedulerCandidate, b: &SchedulerCandidate) -> (result: bool)
    ensures
        result == precedes(*a, *b),
{
    if a.manual_pending != b.manual_pending {
        a.manual_pending
    } else if a.ready_since_ms != b.ready_since_ms {
        a.ready_since_ms < b.ready_since_ms
    } else if a.last_served_seq != b.last_served_seq {
        a.last_served_seq < b.last_served_seq
    } else {
        a.kind.order() < b.kind.order()
    }
}

fn candidate_of(task: &BackgroundTaskState, admitted: bool, now: i64) -> (result: Option<
    SchedulerCandidate,
>)
    ensures
        match result {
            Some(c) => {
                &&& admitted
                &&& task.eligible(now)
                &&& parsed(task.task_kind@) is Some
                &&& c == as_candidate(*task)
            },
            None => !admitted || !task.eligible(now) || parsed(task.task_kind@) is None,
        },
{
    if !admitted || !task.is_eligible(now) {
        return None;
    }
    match BackgroundTaskKind::parse(&task.task_kind) {
        Some(kind) => Some(
            SchedulerCandidate {
                kind,
                ready_since_ms: task.ready_since_ms,
                last_served_seq: task.last_served_seq,
                manual_pending: task.manual_pending,
            },
        ),
        None => None,
    }
}

fn find_aged(tasks: &[BackgroundTaskState], admitted: &[bool], now: i64, limit: i64) -> (result:
    bool)
    requires
        tasks@.len() == admitted@.len(),
    ensures
        result == some_aged(tasks@, admitted@, now, limit),
{
    let mut i: usize = 0;
    while i < tasks.len()
        invariant
            i <= tasks@.len(),
            tasks@.len() == admitted@.len(),
            forall|j: int|
                0 <= j < i ==> !(#[trigger] candidate(tasks@, admitted@, now, j) && aged(
                    as_candidate(tasks@[j]),
                    now,
                    limit,
                )),
        decreases tasks@.len() - i,
    {
        match candidate_of(&tasks[i], admitted[i], now) {
            Some(c) => {
                assert(candidate(tasks@, admitted@, now, i as int));
                if has_aged(&c, now, limit) {
                    return true;
                }
            },
            None => {},
        }
        i = i + 1;
    }
    false
}

fn choose_next(tasks: &[BackgroundTaskState], admitted: &[bool], now: i64, limit: i64) -> (result:
    Option<BackgroundTaskKind>)
    requires
        tasks@.len() == admitted@.len(),
    ensures
        match result {
            Some(kind) => exists|i: int| #[trigger]
                is_next(tasks@, admitted@, now, limit, i) && as_candidate(tasks@[i]).kind == kind,
            None => forall|i: int| !#[trigger] candidate(tasks@, admitted@, now, i),
        },
{
    let by_age = find_aged(tasks, admitted, now, limit);
    let mut best: Option<SchedulerCandidate> = None;
    let ghost mut at: int = -1;
    let mut i: usize = 0;
    while i < tasks.len()
        invariant
            i <= tasks@.len(),
            tasks@.len() == admitted@.len(),
            by_age == some_aged(tasks@, admitted@, now, limit),
            match best {
                Some(c) => {
                    &&& 0 <= at < i
                    &&& competes(tasks@, admitted@, now, limit, at)
                    &&& c == as_candidate(tasks@[at])
                    &&& forall|j: int|
                        0 <= j < i && #[trigger] competes(tasks@, admitted@, now, limit, j)
                            ==> !precedes(as_candidate(tasks@[j]), c)
                },
                None => forall|j: int|
                    0 <= j < i ==> !#[trigger] competes(tasks@, admitted@, now, limit, j),
            },
        decreases tasks@.len() - i,
    {
        match candidate_of(&tasks[i], admitted[i], now) {
            Some(c) => {
                if !by_age || has_aged(&c, now, limit) {
                    assert(competes(tasks@, admitted@, now, limit, i as int));
                    let better = match &best {
                        Some(b) => goes_first(&c, b),
                        None => true,
                    };
                    if better {
                        best = Some(c);
                        proof {
                            at = i as int;
                        }
                    }
                }
            },
            None => {},
        }
        i = i + 1;
    }
    match best {
        Some(c) => {
            proof {
                assert forall|j: int| #[trigger]
                    competes(tasks@, admitted@, now, limit, j) implies !precedes(
                    as_candidate(tasks@[j]),
                    as_candidate(tasks@[at]),
                ) by {
                    assert(0 <= j < tasks@.len());
                }
                assert(is_next(tasks@, admitted@, now, limit, at));
            }
            Some(c.kind)
        },
        None => {
            proof {
                if by_age {
                    let j = choose|j: int| #[trigger]
                        candidate(tasks@, admitted@, now, j) && aged(
                            as_candidate(tasks@[j]),
                            now,
                            limit,
                        );
                    assert(competes(tasks@, admitted@, now, limit, j));
                }
                assert forall|j: int| !#[trigger] candidate(tasks@, admitted@, now, j) by {
                    if candidate(tasks@, admitted@, now, j) {
                        assert(competes(tasks@, admitted@, now, limit, j));
                    }
                }
            }
            None
        },
    }
}

/// The task that is next, whatever its gates say.
pub fn select_next_task(tasks: &[BackgroundTaskState], now_ms: i64, aging_limit_ms: i64) -> (result:
    Option<BackgroundTaskKind>)
    ensures
        match result {
            Some(kind) => exists|i: int| #[trigger]
                is_next(tasks@, all_admitted(tasks@.len()), now_ms, aging_limit_ms, i)
                    && as_candidate(tasks@[i]).kind == kind,
            None => forall|i: int|
                !#[trigger] candidate(tasks@, all_admitted(tasks@.len()), now_ms, i),
        },
{
    let mut admitted: Vec<bool> = Vec::new();
    let mut i: usize = 0;
    while i < tasks.len()
        invariant
            i <= tasks@.len(),
            admitted@ =~= all_admitted(i as nat),
        decreases tasks@.len() - i,
    {
        admitted.push(true);
        i = i + 1;
    }
    choose_next(tasks, &admitted, now_ms, aging_limit_ms)
}

/// The task may run now and is of this kind.
pub open spec fn runnable_as(
    tasks: Seq<BackgroundTaskState>,
    admitted: Seq<bool>,
    now: i64,
    kind: Seq<char>,
    i: int,
) -> bool {
    &&& 0 <= i < tasks.len()
    &&& admitted[i]
    &&& tasks[i].eligible(now)
    &&& tasks[i].task_kind@ == kind
}

/// The first runnable row of this kind.
pub open spec fn first_runnable(
    tasks: Seq<BackgroundTaskState>,
    admitted: Seq<bool>,
    now: i64,
    kind: Seq<char>,
    i: int,
) -> bool {
    &&& runnable_as(tasks, admitted, now, kind, i)
    &&& forall|j: int| 0 <= j < i ==> !#[trigger] runnable_as(tasks, admitted, now, kind, j)
}

/// The user asked for scoring, and it may run.
pub open spec fn drain_requested(
    tasks: Seq<BackgroundTaskState>,
    admitted: Seq<bool>,
    now: i64,
) -> bool {
    exists|i: int| #[trigger]
        runnable_as(tasks, admitted, now, "smart_cluster"@, i) && tasks[i].manual_pending
}

/// The kind and the manual flag that are served next among admitted tasks. A
/// requested scoring goes before everything.
pub open spec fn serves(
    tasks: Seq<BackgroundTaskState>,
    admitted: Seq<bool>,
    now: i64,
    limit: i64,
    kind: BackgroundTaskKind,
    manual: bool,
) -> bool {
    &&& if drain_requested(tasks, admitted, now) {
        kind == BackgroundTaskKind::SmartCluster
    } else {
        exists|i: int| #[trigger]
            is_next(tasks, admitted, now, limit, i) && as_candidate(tasks[i]).kind == kind
    }
    &&& exists|i: int| #[trigger]
        first_runnable(tasks, admitted, now, kind.name(), i) && manual == tasks[i].manual_pending
}

/// The task that runs next among those whose gates are open.
pub fn select_admitted_task(
    tasks: &[BackgroundTaskState],
    admitted: &[bool],
    now_ms: i64,
    aging_limit_ms: i64,
) -> (result: Option<(BackgroundTaskKind, bool)>)
    requires
        tasks@.len() == admitted@.len(),
    ensures
        match result {
            Some((kind, manual)) => serves(
                tasks@,
                admitted@,
                now_ms,
                aging_limit_ms,
                kind,
                manual,
            ),
            None => forall|i: int| !#[trigger] candidate(tasks@, admitted@, now_ms, i),
        },
{
    let mut requested = false;
    let mut i: usize = 0;
    while i < tasks.len()
        invariant
            i <= tasks@.len(),
            tasks@.len() == admitted@.len(),
            requested == exists|j: int|
                0 <= j < i && #[trigger] runnable_as(
                    tasks@,
                    admitted@,
                    now_ms,
                    "smart_cluster"@,
                    j,
                ) && tasks@[j].manual_pending,
        decreases tasks@.len() - i,
    {
        if admitted[i] && tasks[i].is_eligible(now_ms) && text::same(
            &tasks[i].task_kind,
            TASK_SMART_CLUSTER,
        ) && tasks[i].manual_pending {
            assert(runnable_as(tasks@, admitted@, now_ms, "smart_cluster"@, i as int));
            requested = true;
        }
        i = i + 1;
    }
    assert(requested == drain_requested(tasks@, admitted@, now_ms));
    let kind = if requested {
        BackgroundTaskKind::SmartCluster
    } else {
        match choose_next(tasks, admitted, now_ms, aging_limit_ms) {
            Some(kind) => kind,
            None => {
                return None;
            },
        }
    };
    proof {
        if requested {
            let j = choose|j: int| #[trigger]
                runnable_as(tasks@, admitted@, now_ms, "smart_cluster"@, j)
                    && tasks@[j].manual_pending;
            assert(runnable_as(tasks@, admitted@, now_ms, kind.name(), j));
        } else {
            let j = choose|j: int| #[trigger]
                is_next(tasks@, admitted@, now_ms, aging_limit_ms, j) && as_candidate(
                    tasks@[j],
                ).kind == kind;
            law_kind_names_read_back(kind, tasks@[j].task_kind@);
            assert(runnable_as(tasks@, admitted@, now_ms, kind.name(), j));
        }
    }
    i = 0;
    while i < tasks.len()
        invariant
            i <= tasks@.len(),
            tasks@.len() == admitted@.len(),
            requested == drain_requested(tasks@, admitted@, now_ms),
            requested ==> kind == BackgroundTaskKind::SmartCluster,
            !requested ==> exists|j: int| #[trigger]
                is_next(tasks@, admitted@, now_ms, aging_limit_ms, j) && as_candidate(
                    tasks@[j],
                ).kind == kind,
            exists|j: int| #[trigger] runnable_as(tasks@, admitted@, now_ms, kind.name(), j),
            forall|j: int|
                0 <= j < i ==> !#[trigger] runnable_as(tasks@, admitted@, now_ms, kind.name(), j),
        decreases tasks@.len() - i,
    {
        if admitted[i] && tasks[i].is_eligible(now_ms) && text::same(
            &tasks[i].task_kind,
            kind.as_str(),
        ) {
            assert(first_runnable(tasks@, admitted@, now_ms, kind.name(), i as int));
            return Some((kind, tasks[i].manual_pending));
        }
        i = i + 1;
    }
    proof {
        let j = choose|j: int| #[trigger]
            runnable_as(tasks@, admitted@, now_ms, kind.name(), j);
        assert(0 <= j < tasks@.len());
    }
    None
}

/// The places of the eligible rows, in order.
pub open spec fn eligible_rows(tasks: Seq<BackgroundTaskState>, now: i64) -> Seq<int>
    decreases tasks.len(),
{
    if tasks.len() == 0 {
        Seq::empty()
    } else {
        let rest = eligible_rows(tasks.drop_last(), now);
        if tasks.last().eligible(now) {
            rest.push(tasks.len() - 1)
        } else {
            rest
        }
    }
}

/// Which rows may run, by the answers on the eligible rows in order.
pub open spec fn admitted_by(
    tasks: Seq<BackgroundTaskState>,
    answers: Seq<bool>,
    now: i64,
) -> Seq<bool> {
    Seq::new(
        tasks.len(),
        |i: int|
            {
                let k = eligible_rows(tasks.take(i), now).len();
                tasks[i].eligible(now) && k < answers.len() && answers[k as int]
            },
    )
}

/// What choosing the next task does next.
#[derive(Debug)]
pub enum SelectionStep {
    /// The gates of this row are asked.
    Ask { row: usize },
    /// The choice is made.
    Done { choice: Option<(BackgroundTaskKind, bool)> },
}

/// The step is the one to take after these answers.
pub open spec fn step_fits(
    tasks: Seq<BackgroundTaskState>,
    answers: Seq<bool>,
    now: i64,
    limit: i64,
    step: SelectionStep,
) -> bool {
    let rows = eligible_rows(tasks, now);
    match step {
        SelectionStep::Ask { row } => answers.len() < rows.len() && row
            == rows[answers.len() as int],
        SelectionStep::Done { choice } => {
            &&& answers.len() == rows.len()
            &&& match choice {
                Some((kind, manual)) => serves(
                    tasks,
                    admitted_by(tasks, answers, now),
                    now,
                    limit,
                    kind,
                    manual,
                ),
                None => forall|i: int|
                    !#[trigger] candidate(tasks, admitted_by(tasks, answers, now), now, i),
            }
        },
    }
}

proof fn lemma_eligible_prefix(tasks: Seq<BackgroundTaskState>, now: i64, i: int)
    requires
        0 <= i <= tasks.len(),
    ensures
        eligible_rows(tasks.take(i), now).len() <= eligible_rows(tasks, now).len(),
        eligible_rows(tasks.take(i), now) == eligible_rows(tasks, now).take(
            eligible_rows(tasks.take(i), now).len() as int,
        ),
    decreases tasks.len(),
{
    if i == tasks.len() {
        assert(tasks.take(i) =~= tasks);
        assert(eligible_rows(tasks, now).take(eligible_rows(tasks, now).len() as int)
            =~= eligible_rows(tasks, now));
    } else {
        let rest = tasks.drop_last();
        assert(rest.take(i) =~= tasks.take(i));
        lemma_eligible_prefix(rest, now, i);
        let n = eligible_rows(tasks.take(i), now).len() as int;
        assert(eligible_rows(tasks, now).take(n) =~= eligible_rows(rest, now).take(n));
    }
}

proof fn lemma_eligible_rows(tasks: Seq<BackgroundTaskState>, now: i64)
    ensures
        forall|k: int|
            0 <= k < eligible_rows(tasks, now).len() ==> 0 <= #[trigger] eligible_rows(
                tasks,
                now,
            )[k] < tasks.len() && tasks[eligible_rows(tasks, now)[k]].eligible(now),
        forall|k: int, l: int|
            0 <= k < l < eligible_rows(tasks, now).len() ==> #[trigger] eligible_rows(
                tasks,
                now,
            )[k] < #[trigger] eligible_rows(tasks, now)[l],
        forall|i: int|
            0 <= i < tasks.len() && (#[trigger] tasks[i]).eligible(now) ==> eligible_rows(
                tasks,
                now,
            ).contains(i),
    decreases tasks.len(),
{
    if tasks.len() > 0 {
        let rest = tasks.drop_last();
        let rows = eligible_rows(rest, now);
        let all = eligible_rows(tasks, now);
        lemma_eligible_rows(rest, now);
        assert forall|k: int| 0 <= k < all.len() implies 0 <= #[trigger] all[k] < tasks.len()
            && tasks[all[k]].eligible(now) by {
            if k < rows.len() {
                assert(all[k] == rows[k]);
                assert(rest[rows[k]] == tasks[rows[k]]);
            }
        }
        assert forall|k: int, l: int| 0 <= k < l < all.len() implies #[trigger] all[k]
            < #[trigger] all[l] by {
            assert(all[k] == rows[k]);
            if l < rows.len() {
                assert(all[l] == rows[l]);
            }
        }
        assert forall|i: int| 0 <= i < tasks.len() && (#[trigger] tasks[i]).eligible(now) implies all.contains(
        i) by {
            if i < rest.len() {
                assert(rest[i] == tasks[i]);
                assert(rows.contains(i));
                let k = choose|k: int| 0 <= k < rows.len() && rows[k] == i;
                assert(all[k] == i);
            } else {
                assert(all[all.len() - 1] == i);
            }
        }
    }
}

/// The next step of choosing a task, after these answers on the eligible rows.
/// Their gates are asked in order, and the choice follows the last answer.
pub fn selection_step(
    tasks: &[BackgroundTaskState],
    answers: &[bool],
    now_ms: i64,
    aging_limit_ms: i64,
) -> (result: SelectionStep)
    requires
        answers@.len() <= eligible_rows(tasks@, now_ms).len(),
    ensures
        step_fits(tasks@, answers@, now_ms, aging_limit_ms, result),
{
    let ghost by_answers = admitted_by(tasks@, answers@, now_ms);
    let mut admitted: Vec<bool> = Vec::new();
    let mut count: usize = 0;
    let mut i: usize = 0;
    while i < tasks.len()
        invariant
            i <= tasks@.len(),
            count <= answers@.len(),
            count == eligible_rows(tasks@.take(i as int), now_ms).len(),
            by_answers == admitted_by(tasks@, answers@, now_ms),
            admitted@ =~= by_answers.take(i as int),
        decreases tasks@.len() - i,
    {
        proof {
            assert(tasks@.take(i + 1).drop_last() =~= tasks@.take(i as int));
            assert(tasks@.take(i + 1).last() == tasks@[i as int]);
            lemma_eligible_prefix(tasks@, now_ms, i + 1);
        }
        if tasks[i].is_eligible(now_ms) {
            if count == answers.len() {
                assert(eligible_rows(tasks@.take(i + 1), now_ms)[count as int] == i);
                return SelectionStep::Ask { row: i };
            }
            admitted.push(answers[count]);
            count = count + 1;
        } else {
            admitted.push(false);
        }
        assert(by_answers.take(i + 1) =~= by_answers.take(i as int).push(by_answers[i as int]));
        i = i + 1;
    }
    proof {
        assert(tasks@.take(tasks@.len() as int) =~= tasks@);
        assert(by_answers.take(tasks@.len() as int) =~= by_answers);
    }
    SelectionStep::Done {
        choice: select_admitted_task(tasks, &admitted, now_ms, aging_limit_ms),
    }
}

/// Choosing a task asks about each eligible row once, in order, and about no
/// other row.
pub proof fn law_each_eligible_row_is_asked_once(
    tasks: Seq<BackgroundTaskState>,
    answers: Seq<bool>,
    steps: Seq<SelectionStep>,
    now: i64,
    limit: i64,
)
    requires
        steps.len() == answers.len() + 1,
        forall|k: int|
            0 <= k < steps.len() ==> step_fits(
                tasks,
                answers.take(k),
                now,
                limit,
                #[trigger] steps[k],
            ),
        steps.last() is Done,
    ensures
        forall|k: int|
            0 <= k < answers.len() ==> #[trigger] steps[k] is Ask && 0 <= steps[k]->row
                < tasks.len() && tasks[steps[k]->row as int].eligible(now),
        forall|k: int, l: int|
            0 <= k < l < answers.len() ==> (#[trigger] steps[k])->row < (#[trigger] steps[l])->row,
        forall|i: int|
            0 <= i < tasks.len() && (#[trigger] tasks[i]).eligible(now) ==> exists|k: int|
                0 <= k < answers.len() && (#[trigger] steps[k])->row == i,
{
    let rows = eligible_rows(tasks, now);
    lemma_eligible_rows(tasks, now);
    assert(step_fits(tasks, answers.take(answers.len() as int), now, limit, steps.last()));
    assert(answers.len() == rows.len());
    assert forall|k: int| 0 <= k < answers.len() implies #[trigger] steps[k] is Ask
        && steps[k]->row == rows[k] by {
        assert(step_fits(tasks, answers.take(k), now, limit, steps[k]));
        assert(answers.take(k).len() == k);
    }
    assert forall|i: int| 0 <= i < tasks.len() && (#[trigger] tasks[i]).eligible(now) implies exists|
        k: int,
    | 0 <= k < answers.len() && (#[trigger] steps[k])->row == i by {
        assert(rows.contains(i));
        let k = choose|k: int| 0 <= k < rows.len() && rows[k] == i;
        assert(steps[k]->row == i);
    }
}

/// The row is eligible and may run.
pub open spec fn may_run(
    tasks: Seq<BackgroundTaskState>,
    admitted: Seq<bool>,
    now: i64,
    i: int,
) -> bool {
    0 <= i < tasks.len() && admitted[i] && tasks[i].eligible(now)
}

/// The places of the rows that may run, in order.
pub open spec fn runnable_places(
    tasks: Seq<BackgroundTaskState>,
    admitted: Seq<bool>,
    now: i64,
) -> Seq<int>
    decreases tasks.len(),
{
    if tasks.len() == 0 {
        Seq::empty()
    } else {
        let rest = runnable_places(tasks.drop_last(), admitted, now);
        if may_run(tasks, admitted, now, tasks.len() - 1) {
            rest.push(tasks.len() - 1)
        } else {
            rest
        }
    }
}

/// The rows that may run, in order.
pub open spec fn runnable_rows(
    tasks: Seq<BackgroundTaskState>,
    admitted: Seq<bool>,
    now: i64,
) -> Seq<BackgroundTaskState> {
    runnable_places(tasks, admitted, now).map_values(|i: int| tasks[i])
}

proof fn lemma_runnable_places(tasks: Seq<BackgroundTaskState>, admitted: Seq<bool>, now: i64)
    ensures
        forall|k: int|
            0 <= k < runnable_places(tasks, admitted, now).len() ==> may_run(
                tasks,
                admitted,
                now,
                #[trigger] runnable_places(tasks, admitted, now)[k],
            ),
        forall|k: int, l: int|
            0 <= k < l < runnable_places(tasks, admitted, now).len()
                ==> #[trigger] runnable_places(tasks, admitted, now)[k]
                < #[trigger] runnable_places(tasks, admitted, now)[l],
        forall|i: int| #[trigger]
            may_run(tasks, admitted, now, i) ==> runnable_places(tasks, admitted, now).contains(i),
    decreases tasks.len(),
{
    if tasks.len() > 0 {
        let rest = tasks.drop_last();
        let places = runnable_places(rest, admitted, now);
        let all = runnable_places(tasks, admitted, now);
        lemma_runnable_places(rest, admitted, now);
        assert forall|k: int| 0 <= k < all.len() implies may_run(
            tasks,
            admitted,
            now,
            #[trigger] all[k],
        ) by {
            if k < places.len() {
                assert(all[k] == places[k]);
                assert(rest[places[k]] == tasks[places[k]]);
            }
        }
        assert forall|k: int, l: int| 0 <= k < l < all.len() implies #[trigger] all[k]
            < #[trigger] all[l] by {
            assert(all[k] == places[k]);
            if l < places.len() {
                assert(all[l] == places[l]);
            }
        }
        assert forall|i: int| #[trigger] may_run(tasks, admitted, now, i) implies all.contains(
            i,
        ) by {
            if i < rest.len() {
                assert(rest[i] == tasks[i]);
                assert(may_run(rest, admitted, now, i));
                let k = choose|k: int| 0 <= k < places.len() && places[k] == i;
                assert(all[k] == i);
            } else {
                assert(all[all.len() - 1] == i);
            }
        }
    }
}

proof fn lemma_runnable_rows(
    tasks: Seq<BackgroundTaskState>,
    admitted: Seq<bool>,
    now: i64,
    limit: i64,
)
    ensures
        ({
            let places = runnable_places(tasks, admitted, now);
            let rows = runnable_rows(tasks, admitted, now);
            let all = all_admitted(rows.len());
            &&& forall|k: int|
                0 <= k < rows.len() ==> {
                    &&& rows[k] == tasks[places[k]]
                    &&& #[trigger] candidate(rows, all, now, k) == candidate(
                        tasks,
                        admitted,
                        now,
                        places[k],
                    )
                }
            &&& forall|k: int|
                0 <= k < rows.len() ==> #[trigger] is_next(rows, all, now, limit, k) == is_next(
                    tasks,
                    admitted,
                    now,
                    limit,
                    places[k],
                )
        }),
{
    let places = runnable_places(tasks, admitted, now);
    let rows = runnable_rows(tasks, admitted, now);
    let all = all_admitted(rows.len());
    lemma_runnable_places(tasks, admitted, now);
    assert forall|k: int| 0 <= k < rows.len() implies rows[k] == tasks[places[k]]
        && #[trigger] candidate(rows, all, now, k) == candidate(tasks, admitted, now, places[k]) by {
        assert(may_run(tasks, admitted, now, places[k]));
    }
    assert(some_aged(rows, all, now, limit) == some_aged(tasks, admitted, now, limit)) by {
        if some_aged(rows, all, now, limit) {
            let k = choose|k: int| #[trigger]
                candidate(rows, all, now, k) && aged(as_candidate(rows[k]), now, limit);
            assert(candidate(tasks, admitted, now, places[k]));
        }
        if some_aged(tasks, admitted, now, limit) {
            let i = choose|i: int| #[trigger]
                candidate(tasks, admitted, now, i) && aged(as_candidate(tasks[i]), now, limit);
            assert(may_run(tasks, admitted, now, i));
            let k = choose|k: int| 0 <= k < places.len() && places[k] == i;
            assert(candidate(rows, all, now, k));
        }
    }
    assert forall|k: int| 0 <= k < rows.len() implies #[trigger] competes(
        rows,
        all,
        now,
        limit,
        k,
    ) == competes(tasks, admitted, now, limit, places[k]) by {
        assert(candidate(rows, all, now, k) == candidate(tasks, admitted, now, places[k]));
    }
    assert forall|k: int| 0 <= k < rows.len() implies #[trigger] is_next(
        rows,
        all,
        now,
        limit,
        k,
    ) == is_next(tasks, admitted, now, limit, places[k]) by {
        assert(candidate(rows, all, now, k) == candidate(tasks, admitted, now, places[k]));
        assert(competes(rows, all, now, limit, k) == competes(
            tasks,
            admitted,
            now,
            limit,
            places[k],
        ));
        if is_next(rows, all, now, limit, k) {
            assert forall|j: int| #[trigger]
                competes(tasks, admitted, now, limit, j) implies !precedes(
                as_candidate(tasks[j]),
                as_candidate(tasks[places[k]]),
            ) by {
                assert(may_run(tasks, admitted, now, j));
                let l = choose|l: int| 0 <= l < places.len() && places[l] == j;
                assert(competes(rows, all, now, limit, l));
                assert(candidate(rows, all, now, l));
            }
        }
        if is_next(tasks, admitted, now, limit, places[k]) {
            assert forall|l: int| #[trigger]
                competes(rows, all, now, limit, l) implies !precedes(
                as_candidate(rows[l]),
                as_candidate(rows[k]),
            ) by {
                assert(candidate(rows, all, now, l));
                assert(competes(tasks, admitted, now, limit, places[l]));
            }
        }
    }
}

/// The choice is made among the rows that may run as if there were no others:
/// a requested scoring among them goes before everything, else the task is the
/// one that would be next among them, and the flag is that of the first of them
/// with its kind. There is none exactly where none of them is of a known kind.
pub proof fn law_only_runnable_rows_count(
    tasks: Seq<BackgroundTaskState>,
    admitted: Seq<bool>,
    now: i64,
    limit: i64,
    kind: BackgroundTaskKind,
    manual: bool,
)
    ensures
        ({
            let rows = runnable_rows(tasks, admitted, now);
            let all = all_admitted(rows.len());
            &&& serves(tasks, admitted, now, limit, kind, manual) == serves(
                rows,
                all,
                now,
                limit,
                kind,
                manual,
            )
            &&& (forall|i: int| !#[trigger] candidate(tasks, admitted, now, i)) == (forall|k: int|
                0 <= k < rows.len() ==> parsed((#[trigger] rows[k]).task_kind@) is None)
        }),
{
    let places = runnable_places(tasks, admitted, now);
    let rows = runnable_rows(tasks, admitted, now);
    let all = all_admitted(rows.len());
    lemma_runnable_places(tasks, admitted, now);
    lemma_runnable_rows(tasks, admitted, now, limit);
    assert forall|name: Seq<char>, k: int| 0 <= k < rows.len() implies #[trigger] runnable_as(
        rows,
        all,
        now,
        name,
        k,
    ) == runnable_as(tasks, admitted, now, name, places[k]) by {
        assert(may_run(tasks, admitted, now, places[k]));
        assert(candidate(rows, all, now, k) == candidate(tasks, admitted, now, places[k]));
    }
    assert(drain_requested(rows, all, now) == drain_requested(tasks, admitted, now)) by {
        let name = "smart_cluster"@;
        if drain_requested(rows, all, now) {
            let k = choose|k: int| #[trigger]
                runnable_as(rows, all, now, name, k) && rows[k].manual_pending;
            assert(runnable_as(tasks, admitted, now, name, places[k]));
        }
        if drain_requested(tasks, admitted, now) {
            let i = choose|i: int| #[trigger]
                runnable_as(tasks, admitted, now, name, i) && tasks[i].manual_pending;
            assert(may_run(tasks, admitted, now, i));
            let k = choose|k: int| 0 <= k < places.len() && places[k] == i;
            assert(runnable_as(rows, all, now, name, k));
        }
    }
    let next_here = exists|i: int| #[trigger]
        is_next(tasks, admitted, now, limit, i) && as_candidate(tasks[i]).kind == kind;
    let next_there = exists|k: int| #[trigger]
        is_next(rows, all, now, limit, k) && as_candidate(rows[k]).kind == kind;
    assert(next_here == next_there) by {
        if next_there {
            let k = choose|k: int| #[trigger]
                is_next(rows, all, now, limit, k) && as_candidate(rows[k]).kind == kind;
            assert(candidate(rows, all, now, k));
            assert(is_next(tasks, admitted, now, limit, places[k]));
        }
        if next_here {
            let i = choose|i: int| #[trigger]
                is_next(tasks, admitted, now, limit, i) && as_candidate(tasks[i]).kind == kind;
            assert(may_run(tasks, admitted, now, i));
            let k = choose|k: int| 0 <= k < places.len() && places[k] == i;
            assert(is_next(rows, all, now, limit, k));
        }
    }
    let name = kind.name();
    let flag_here = exists|i: int| #[trigger]
        first_runnable(tasks, admitted, now, name, i) && manual == tasks[i].manual_pending;
    let flag_there = exists|k: int| #[trigger]
        first_runnable(rows, all, now, name, k) && manual == rows[k].manual_pending;
    assert(flag_here == flag_there) by {
        if flag_there {
            let k = choose|k: int| #[trigger]
                first_runnable(rows, all, now, name, k) && manual == rows[k].manual_pending;
            assert(runnable_as(rows, all, now, name, k));
            assert forall|j: int| 0 <= j < places[k] implies !#[trigger] runnable_as(
                tasks,
                admitted,
                now,
                name,
                j,
            ) by {
                if runnable_as(tasks, admitted, now, name, j) {
                    assert(may_run(tasks, admitted, now, j));
                    let l = choose|l: int| 0 <= l < places.len() && places[l] == j;
                    assert(runnable_as(rows, all, now, name, l));
                    assert(l < k);
                }
            }
            assert(first_runnable(tasks, admitted, now, name, places[k]));
        }
        if flag_here {
            let i = choose|i: int| #[trigger]
                first_runnable(tasks, admitted, now, name, i) && manual == tasks[i].manual_pending;
            assert(may_run(tasks, admitted, now, i));
            let k = choose|k: int| 0 <= k < places.len() && places[k] == i;
            assert(runnable_as(rows, all, now, name, k));
            assert forall|l: int| 0 <= l < k implies !#[trigger] runnable_as(
                rows,
                all,
                now,
                name,
                l,
            ) by {
                assert(places[l] < places[k]);
                assert(!runnable_as(tasks, admitted, now, name, places[l]));
            }
            assert(first_runnable(rows, all, now, name, k));
        }
    }
    let none_here = forall|i: int| !#[trigger] candidate(tasks, admitted, now, i);
    let none_there = forall|k: int|
        0 <= k < rows.len() ==> parsed((#[trigger] rows[k]).task_kind@) is None;
    assert(none_here == none_there) by {
        if none_here {
            assert forall|k: int| 0 <= k < rows.len() implies parsed(
                (#[trigger] rows[k]).task_kind@,
            ) is None by {
                assert(may_run(tasks, admitted, now, places[k]));
                assert(!candidate(tasks, admitted, now, places[k]));
            }
        }
        if none_there {
            assert forall|i: int| !#[trigger] candidate(tasks, admitted, now, i) by {
                if candidate(tasks, admitted, now, i) {
                    assert(may_run(tasks, admitted, now, i));
                    let k = choose|k: int| 0 <= k < places.len() && places[k] == i;
                    assert(rows[k] == tasks[i]);
                }
            }
        }
    }
}

/// The task that runs next among those that `is_runnable` lets through. It is
/// asked about each eligible task, in order.
pub fn select_next_runnable_task(
    tasks: &[BackgroundTaskState],
    now_ms: i64,
    aging_limit_ms: i64,
    is_runnable: impl Fn(&BackgroundTaskState) -> bool,
) -> (result: Option<(BackgroundTaskKind, bool)>)
    requires
        forall|task: &BackgroundTaskState| #[trigger] call_requires(is_runnable, (task,)),
    ensures
        exists|answers: Seq<bool>|
            {
                &&& forall|k: int|
                    0 <= k < answers.len() ==> call_ensures(
                        is_runnable,
                        (&tasks@[eligible_rows(tasks@, now_ms)[k]],),
                        #[trigger] answers[k],
                    )
                &&& #[trigger] step_fits(
                    tasks@,
                    answers,
                    now_ms,
                    aging_limit_ms,
                    (SelectionStep::Done { choice: result }),
                )
            },
{
    let mut answers: Vec<bool> = Vec::new();
    let ghost rows = eligible_rows(tasks@, now_ms);
    proof {
        lemma_eligible_rows(tasks@, now_ms);
    }
    loop
        invariant
            rows == eligible_rows(tasks@, now_ms),
            answers@.len() <= rows.len(),
            forall|k: int|
                0 <= k < rows.len() ==> 0 <= #[trigger] rows[k] < tasks@.len(),
            forall|task: &BackgroundTaskState| #[trigger] call_requires(is_runnable, (task,)),
            forall|k: int|
                0 <= k < answers@.len() ==> call_ensures(
                    is_runnable,
                    (&tasks@[rows[k]],),
                    #[trigger] answers@[k],
                ),
        decreases rows.len() - answers@.len(),
    {
        match selection_step(tasks, &answers, now_ms, aging_limit_ms) {
            SelectionStep::Ask { row } => {
                let ghost before = answers@;
                let answer = is_runnable(&tasks[row]);
                answers.push(answer);
                assert(answers@[before.len() as int] == answer);
                assert(forall|k: int| 0 <= k < before.len() ==> answers@[k] == before[k]);
            },
            SelectionStep::Done { choice } => {
                assert(step_fits(
                    tasks@,
                    answers@,
                    now_ms,
                    aging_limit_ms,
                    SelectionStep::Done { choice },
                ));
                return choice;
            },
        }
    }
}

/// What a slice came to.
#[derive(Debug)]
pub struct ScheduledSliceResult {
    pub completed: bool,
    pub has_more: bool,
    pub processed: u64,
    pub skipped_reason: Option<String>,
}

impl ScheduledSliceResult {
    pub fn complete(has_more: bool) -> (result: Self)
        ensures
            result == (ScheduledSliceResult {
                completed: true,
                has_more,
                processed: 0,
                skipped_reason: None,
            }),
    {
        ScheduledSliceResult { completed: true, has_more, processed: 0, skipped_reason: None }
    }

    pub fn with_processed(self, processed: u64) -> (result: Self)
        ensures
            result == (ScheduledSliceResult { processed, ..self }),
    {
        ScheduledSliceResult {
            completed: self.completed,
            has_more: self.has_more,
            processed,
            skipped_reason: self.skipped_reason,
        }
    }

    pub fn skipped(reason: &str) -> (result: Self)
        ensures
            !result.completed,
            result.has_more,
            result.processed == 0,
            result.skipped_reason is Some,
            result.skipped_reason->0@ == reason@,
    {
        ScheduledSliceResult {
            completed: false,
            has_more: true,
            processed: 0,
            skipped_reason: Some(reason.to_owned()),
        }
    }
}

/// What is chosen may run now: its row was admitted, waits for its turn or for
/// another try, and the time of its next try has come.
pub proof fn law_chosen_work_may_run(
    tasks: Seq<BackgroundTaskState>,
    admitted: Seq<bool>,
    now: i64,
    limit: i64,
    chosen: int,
)
    requires
        is_next(tasks, admitted, now, limit, chosen),
    ensures
        0 <= chosen < tasks.len(),
        admitted[chosen],
        tasks[chosen].status@ == "queued"@ || tasks[chosen].status@ == "retry_wait"@,
        tasks[chosen].next_attempt_at_ms <= now,
        tasks[chosen].task_kind@ == "semantic_index"@ || tasks[chosen].task_kind@ == "clip_index"@
            || tasks[chosen].task_kind@ == "smart_cluster"@ || tasks[chosen].task_kind@
            == "ann_build"@,
{
}

/// As long as nothing automatic has waited too long, what the user asked for
/// goes first.
pub proof fn law_manual_requests_go_first(
    tasks: Seq<BackgroundTaskState>,
    admitted: Seq<bool>,
    now: i64,
    limit: i64,
    asked: int,
    chosen: int,
)
    requires
        limit >= 0,
        candidate(tasks, admitted, now, asked),
        tasks[asked].manual_pending,
        forall|j: int|
            0 <= j < tasks.len() && !(#[trigger] tasks[j]).manual_pending ==> now
                - tasks[j].ready_since_ms < limit,
        is_next(tasks, admitted, now, limit, chosen),
    ensures
        tasks[chosen].manual_pending,
        tasks[chosen].ready_since_ms <= tasks[asked].ready_since_ms,
{
    assert(!some_aged(tasks, admitted, now, limit)) by {
        assert forall|i: int| #[trigger] candidate(tasks, admitted, now, i) implies !aged(
            as_candidate(tasks[i]),
            now,
            limit,
        ) by {
            assert(tasks[i].manual_pending || now - tasks[i].ready_since_ms < limit);
        }
    }
    assert(competes(tasks, admitted, now, limit, asked));
}

/// Automatic work that has waited too long goes before everything that has not,
/// also before what the user asked for.
pub proof fn law_work_that_waited_too_long_goes_first(
    tasks: Seq<BackgroundTaskState>,
    admitted: Seq<bool>,
    now: i64,
    limit: i64,
    late: int,
    chosen: int,
)
    requires
        0 <= late < tasks.len(),
        admitted[late],
        tasks[late].status@ == "queued"@ || tasks[late].status@ == "retry_wait"@,
        tasks[late].next_attempt_at_ms <= now,
        parsed(tasks[late].task_kind@) is Some,
        !tasks[late].manual_pending,
        now - tasks[late].ready_since_ms >= limit,
        is_next(tasks, admitted, now, limit, chosen),
    ensures
        !tasks[chosen].manual_pending,
        tasks[chosen].ready_since_ms <= tasks[late].ready_since_ms,
        now - tasks[chosen].ready_since_ms >= limit,
{
    assert(candidate(tasks, admitted, now, late));
    assert(aged(as_candidate(tasks[late]), now, limit));
    assert(competes(tasks, admitted, now, limit, late));
}

/// Among what was asked for in the same way, what has been ready longest goes
/// first; of two that became ready together, the one that was served less
/// recently; and of two that agree in that too, the graph goes before the
/// indexes, that of the images before that of the texts, and the clusters go
/// last.
pub proof fn law_the_longest_ready_goes_first(
    tasks: Seq<BackgroundTaskState>,
    admitted: Seq<bool>,
    now: i64,
    limit: i64,
    other: int,
    chosen: int,
)
    requires
        candidate(tasks, admitted, now, other),
        is_next(tasks, admitted, now, limit, chosen),
        tasks[other].manual_pending == tasks[chosen].manual_pending,
    ensures
        tasks[chosen].ready_since_ms <= tasks[other].ready_since_ms,
        tasks[chosen].ready_since_ms == tasks[other].ready_since_ms
            ==> tasks[chosen].last_served_seq <= tasks[other].last_served_seq,
        tasks[chosen].ready_since_ms == tasks[other].ready_since_ms
            && tasks[chosen].last_served_seq == tasks[other].last_served_seq ==> {
            let first = tasks[chosen].task_kind@;
            let second = tasks[other].task_kind@;
            &&& second == "ann_build"@ ==> first == "ann_build"@
            &&& second == "clip_index"@ ==> first == "ann_build"@ || first == "clip_index"@
            &&& second == "semantic_index"@ ==> first != "smart_cluster"@
        },
{
    let a = as_candidate(tasks[chosen]);
    let b = as_candidate(tasks[other]);
    law_kind_names_read_back(BackgroundTaskKind::AnnBuild, tasks[chosen].task_kind@);
    law_kind_names_read_back(BackgroundTaskKind::ClipIndex, tasks[chosen].task_kind@);
    law_kind_names_read_back(BackgroundTaskKind::SemanticIndex, tasks[chosen].task_kind@);
    law_kind_names_read_back(BackgroundTaskKind::SmartCluster, tasks[chosen].task_kind@);
    law_kind_names_read_back(BackgroundTaskKind::AnnBuild, tasks[other].task_kind@);
    law_kind_names_read_back(BackgroundTaskKind::ClipIndex, tasks[other].task_kind@);
    law_kind_names_read_back(BackgroundTaskKind::SemanticIndex, tasks[other].task_kind@);
    law_kind_names_read_back(BackgroundTaskKind::SmartCluster, tasks[other].task_kind@);
    if competes(tasks, admitted, now, limit, other) {
        assert(!precedes(b, a));
    } else {
        assert(aged(a, now, limit) && !aged(b, now, limit));
    }
}

/// A request of the user for the clusters is served before anything else, and
/// without one the work is that of the row that is next. Either way the kind
/// that is served has a row that may run.
pub proof fn law_requested_clusters_are_served(
    tasks: Seq<BackgroundTaskState>,
    admitted: Seq<bool>,
    now: i64,
    limit: i64,
    kind: BackgroundTaskKind,
    manual: bool,
    asked: int,
)
    requires
        serves(tasks, admitted, now, limit, kind, manual),
    ensures
        0 <= asked < tasks.len() && admitted[asked] && tasks[asked].status@ == "queued"@
            && tasks[asked].next_attempt_at_ms <= now && tasks[asked].task_kind@
            == "smart_cluster"@ && tasks[asked].manual_pending ==> kind
            == BackgroundTaskKind::SmartCluster,
        (forall|i: int|
            0 <= i < tasks.len() && (#[trigger] tasks[i]).task_kind@ == "smart_cluster"@
                ==> !tasks[i].manual_pending) ==> exists|i: int|
            #![trigger tasks[i]]
            is_next(tasks, admitted, now, limit, i) && tasks[i].task_kind@ == kind.name(),
        exists|i: int|
            #![trigger tasks[i]]
            0 <= i < tasks.len() && admitted[i] && tasks[i].task_kind@ == kind.name()
                && tasks[i].manual_pending == manual && tasks[i].next_attempt_at_ms <= now,
{
    if 0 <= asked < tasks.len() && admitted[asked] && tasks[asked].status@ == "queued"@
        && tasks[asked].next_attempt_at_ms <= now && tasks[asked].task_kind@ == "smart_cluster"@
        && tasks[asked].manual_pending {
        assert(runnable_as(tasks, admitted, now, "smart_cluster"@, asked));
        assert(drain_requested(tasks, admitted, now));
    }
    if forall|i: int|
        0 <= i < tasks.len() && (#[trigger] tasks[i]).task_kind@ == "smart_cluster"@
            ==> !tasks[i].manual_pending {
        assert(!drain_requested(tasks, admitted, now));
        let i = choose|i: int| #[trigger]
            is_next(tasks, admitted, now, limit, i) && as_candidate(tasks[i]).kind == kind;
        law_kind_names_read_back(kind, tasks[i].task_kind@);
        assert(is_next(tasks, admitted, now, limit, i) && tasks[i].task_kind@ == kind.name());
    }
    let k = choose|i: int| #[trigger]
        first_runnable(tasks, admitted, now, kind.name(), i) && manual == tasks[i].manual_pending;
    assert(tasks[k].task_kind@ == kind.name());
}

/// What is served passed its gates: of the rows of its kind one was asked about,
/// and the answer was yes.
pub proof fn law_served_work_passed_its_gates(
    tasks: Seq<BackgroundTaskState>,
    answers: Seq<bool>,
    steps: Seq<SelectionStep>,
    now: i64,
    limit: i64,
    kind: BackgroundTaskKind,
    manual: bool,
)
    requires
        steps.len() == answers.len() + 1,
        forall|k: int|
            0 <= k < steps.len() ==> step_fits(
                tasks,
                answers.take(k),
                now,
                limit,
                #[trigger] steps[k],
            ),
        steps.last() == (SelectionStep::Done { choice: Some((kind, manual)) }),
    ensures
        exists|k: int|
            #![trigger steps[k]]
            0 <= k < answers.len() && answers[k] && steps[k] is Ask
                && tasks[steps[k]->row as int].task_kind@ == kind.name()
                && tasks[steps[k]->row as int].manual_pending == manual,
{
    let rows = eligible_rows(tasks, now);
    assert(answers.take(answers.len() as int) =~= answers);
    assert(step_fits(tasks, answers.take(answers.len() as int), now, limit, steps.last()));
    let admitted = admitted_by(tasks, answers, now);
    let i = choose|i: int| #[trigger]
        first_runnable(tasks, admitted, now, kind.name(), i) && manual == tasks[i].manual_pending;
    assert(runnable_as(tasks, admitted, now, kind.name(), i));
    let k = eligible_rows(tasks.take(i), now).len() as int;
    assert(admitted[i]);
    assert(k < answers.len() && answers[k]);
    lemma_eligible_prefix(tasks, now, i + 1);
    assert(tasks.take(i + 1).drop_last() =~= tasks.take(i));
    assert(tasks.take(i + 1).last() == tasks[i]);
    assert(eligible_rows(tasks.take(i + 1), now)[k] == i);
    assert(rows[k] == i);
    assert(step_fits(tasks, answers.take(k), now, limit, steps[k]));
    assert(steps[k]->row == i);
}

/// A slice goes on until a request of the user came in, another one waits for
/// the worker, or its time is up; and its time is never up before it did
/// anything.
pub proof fn law_slices_stop_for_a_reason(
    slice: AutomaticSliceContext,
    manual_generation: u64,
    external_waiting: bool,
    made_progress: bool,
    now: u64,
)
    ensures
        slice.stopped_by(manual_generation, external_waiting, made_progress, now) is None <==> {
            &&& manual_generation == slice.manual_generation_at_admission
            &&& !external_waiting
            &&& now < slice.deadline_ms || !made_progress
        },
        slice.stopped_by(manual_generation, external_waiting, made_progress, now) == Some(
            AutomaticSliceStopReason::ManualRequestPending,
        ) <==> manual_generation != slice.manual_generation_at_admission,
        slice.stopped_by(manual_generation, external_waiting, made_progress, now) == Some(
            AutomaticSliceStopReason::BudgetExpired,
        ) ==> made_progress && !external_waiting,
{
}

} // verus!
