//! The scheduler's own state, its admission gates, and what one pass of its
//! loop decides.
//!
//! A pass reads the durable rows, selects a task, admits it, runs its slice and
//! settles the outcome. The reads, the slice and the writes are done outside;
//! each decision between them is a function here.
use crate::adaptive::AdaptiveRuntime;
use crate::background_activity::WorkSource;
use crate::background_policy::{
    ExecutionProfile, PauseStatistics, Qualification, SchedulingMode, SHORT_IDLE_SECS,
};
use crate::background_scheduler::{
    BackgroundTaskKind, BackgroundTaskState, ScheduledSliceResult, AUTO_AGING_LIMIT_MS,
    MAX_RETRY_DELAY_SECS, TASK_ANN_BUILD, TASK_CLIP_INDEX, TASK_SEMANTIC_INDEX,
    TASK_SMART_CLUSTER, TICK_INTERVAL_MS,
};
use crate::{background_policy, background_scheduler, text};
use vstd::prelude::*;
use vstd::string::*;

verus! {

/// What is known of the user and the power supply.
#[derive(Debug, Clone, Copy)]
pub struct IdleState {
    pub is_idle: bool,
    pub ac_connected: bool,
    pub fullscreen_exclusive: bool,
    pub idle_secs: u64,
}

impl IdleState {
    /// A user at a machine on mains power.
    pub fn new() -> (result: Self)
        ensures
            !result.is_idle,
            result.ac_connected,
            !result.fullscreen_exclusive,
            result.idle_secs == 0,
    {
        IdleState { is_idle: false, ac_connected: true, fullscreen_exclusive: false, idle_secs: 0 }
    }
}

/// When work of a sort may run.
#[derive(Debug, Clone, Copy, PartialEq, Eq, Structural)]
pub enum EnvironmentPolicy {
    /// Only while the machine is idle.
    IdleOnly,
    /// Resumable work with a lease of its own.
    Automatic,
    /// Work after a capture and explicit requests: also beside the user.
    Immediate,
}

impl EnvironmentPolicy {
    /// Why work of this sort may not run, if it may not.
    pub open spec fn reason(
        self,
        maintenance_active: bool,
        idle: IdleState,
        foreground_waiting: bool,
    ) -> Option<Seq<char>> {
        if maintenance_active {
            Some("maintenance"@)
        } else if self != EnvironmentPolicy::Immediate && !idle.ac_connected {
            Some("waiting_for_ac_power"@)
        } else if self != EnvironmentPolicy::Immediate && idle.fullscreen_exclusive {
            Some("waiting_for_fullscreen"@)
        } else if self == EnvironmentPolicy::IdleOnly && !idle.is_idle {
            Some("waiting_for_idle"@)
        } else if self == EnvironmentPolicy::Automatic && idle.idle_secs < SHORT_IDLE_SECS {
            Some("waiting_for_idle"@)
        } else if foreground_waiting {
            Some("foreground_request"@)
        } else {
            None
        }
    }

    /// Why work of this sort may not run, if it may not.
    pub fn gate_reason(
        self,
        maintenance_active: bool,
        idle: &IdleState,
        foreground_waiting: bool,
    ) -> (result: Option<&'static str>)
        ensures
            background_policy::shown(result) == self.reason(maintenance_active, *idle, foreground_waiting),
    {
        if maintenance_active {
            return Some("maintenance");
        }
        if self != EnvironmentPolicy::Immediate {
            if !idle.ac_connected {
                return Some("waiting_for_ac_power");
            }
            if idle.fullscreen_exclusive {
                return Some("waiting_for_fullscreen");
            }
            if (self == EnvironmentPolicy::IdleOnly && !idle.is_idle) || (self
                == EnvironmentPolicy::Automatic && idle.idle_secs < SHORT_IDLE_SECS) {
                return Some("waiting_for_idle");
            }
        }
        if foreground_waiting {
            return Some("foreground_request");
        }
        None
    }
}

/// What the gates read.
#[derive(Debug, Clone, Copy)]
pub struct GateFacts {
    pub silent_read_auth_required: bool,
    pub session_valid: bool,
    pub background_authorized: bool,
    pub maintenance_active: bool,
    pub idle: IdleState,
    pub foreground_waiting: bool,
}

/// Why work may not run, by the lease that is held or by the environment.
pub open spec fn environment_reason(
    policy: EnvironmentPolicy,
    lease: Option<Option<&'static str>>,
    facts: GateFacts,
) -> Option<Seq<char>> {
    if policy == EnvironmentPolicy::Automatic && lease is Some {
        match background_policy::shown(lease->0) {
            Some(reason) => Some(reason),
            None => EnvironmentPolicy::Immediate.reason(
                facts.maintenance_active,
                facts.idle,
                facts.foreground_waiting,
            ),
        }
    } else {
        policy.reason(facts.maintenance_active, facts.idle, facts.foreground_waiting)
    }
}

/// Why work may not run. `lease` is the reason of the lease that is held, if
/// one is.
pub fn environment_gate_reason(
    policy: EnvironmentPolicy,
    lease: Option<Option<&'static str>>,
    facts: &GateFacts,
) -> (result: Option<&'static str>)
    ensures
        background_policy::shown(result) == environment_reason(policy, lease, *facts),
{
    if policy == EnvironmentPolicy::Automatic {
        match lease {
            Some(held) => {
                match held {
                    Some(reason) => {
                        return Some(reason);
                    },
                    None => {
                        return EnvironmentPolicy::Immediate.gate_reason(
                            facts.maintenance_active,
                            &facts.idle,
                            facts.foreground_waiting,
                        );
                    },
                }
            },
            None => {},
        }
    }
    policy.gate_reason(facts.maintenance_active, &facts.idle, facts.foreground_waiting)
}

/// Why a task may not run, by credentials and environment.
pub open spec fn task_reason(manual: bool, facts: GateFacts) -> Option<Seq<char>> {
    if facts.silent_read_auth_required {
        Some("waiting_for_verification"@)
    } else if !facts.background_authorized && !(manual && facts.session_valid) {
        Some("waiting_for_unlock"@)
    } else if manual {
        EnvironmentPolicy::Immediate.reason(
            facts.maintenance_active,
            facts.idle,
            facts.foreground_waiting,
        )
    } else {
        EnvironmentPolicy::IdleOnly.reason(
            facts.maintenance_active,
            facts.idle,
            facts.foreground_waiting,
        )
    }
}

/// Why a task may not run, by credentials and environment.
pub fn gate_reason(manual: bool, facts: &GateFacts) -> (result: Option<&'static str>)
    ensures
        background_policy::shown(result) == task_reason(manual, *facts),
{
    if facts.silent_read_auth_required {
        return Some("waiting_for_verification");
    }
    if manual {
        if !facts.session_valid && !facts.background_authorized {
            return Some("waiting_for_unlock");
        }
    } else if !facts.background_authorized {
        return Some("waiting_for_unlock");
    }
    let policy = if manual {
        EnvironmentPolicy::Immediate
    } else {
        EnvironmentPolicy::IdleOnly
    };
    policy.gate_reason(facts.maintenance_active, &facts.idle, facts.foreground_waiting)
}

/// What keeps one sort of background work from starting, besides.
#[derive(Debug, Clone, Copy)]
pub struct KindGateFacts {
    /// The reason of the lease that the work holds itself, if it holds one.
    pub own_lease: Option<Option<&'static str>>,
    /// Staged processing is switched on.
    pub staging_enabled: bool,
    /// Staged work of this kind is ready.
    pub staged_ready: bool,
    /// What the adaptive admission answered, where it could be asked: `None`
    /// inside for a grant.
    pub admission: Option<Option<&'static str>>,
    /// Staged scoring work is ready but not indexed yet.
    pub scoring_ready: bool,
    /// Staged scoring work is held by an earlier attempt.
    pub scoring_owned: bool,
}

/// The reason is one that staged scoring can get around.
pub open spec fn credential_reason(reason: Option<Seq<char>>) -> bool {
    reason == Some("waiting_for_unlock"@) || reason == Some("waiting_for_verification"@)
}

/// Why a task of this kind may not run.
pub open spec fn kind_reason(
    manual: bool,
    kind: BackgroundTaskKind,
    own: KindGateFacts,
    facts: GateFacts,
) -> Option<Seq<char>> {
    let scoring = kind == BackgroundTaskKind::SmartCluster;
    if own.own_lease is Some {
        background_policy::shown(own.own_lease->0)
    } else if manual {
        task_reason(true, facts)
    } else if own.admission is Some && !(scoring && credential_reason(background_policy::shown(own.admission->0))) {
        background_policy::shown(own.admission->0)
    } else if own.staging_enabled && own.staged_ready {
        EnvironmentPolicy::IdleOnly.reason(
            facts.maintenance_active,
            facts.idle,
            facts.foreground_waiting,
        )
    } else if scoring && own.staging_enabled && !facts.background_authorized && own.scoring_ready {
        Some("waiting_for_index"@)
    } else if scoring && own.staging_enabled && !facts.background_authorized && own.scoring_owned {
        Some("retry_wait"@)
    } else {
        task_reason(false, facts)
    }
}

/// Why a task of this kind may not run.
pub fn gate_reason_for_kind(
    manual: bool,
    kind: BackgroundTaskKind,
    own: &KindGateFacts,
    facts: &GateFacts,
) -> (result: Option<&'static str>)
    ensures
        background_policy::shown(result) == kind_reason(manual, kind, *own, *facts),
{
    match own.own_lease {
        Some(reason) => {
            return reason;
        },
        None => {},
    }
    if !manual {
        match own.admission {
            Some(reason) => {
                let credential = match reason {
                    Some(r) => text::same(r, "waiting_for_unlock") || text::same(
                        r,
                        "waiting_for_verification",
                    ),
                    None => false,
                };
                if !credential || kind != BackgroundTaskKind::SmartCluster {
                    return reason;
                }
            },
            None => {},
        }
        if own.staging_enabled && own.staged_ready {
            return EnvironmentPolicy::IdleOnly.gate_reason(
                facts.maintenance_active,
                &facts.idle,
                facts.foreground_waiting,
            );
        }
        if kind == BackgroundTaskKind::SmartCluster && own.staging_enabled
            && !facts.background_authorized {
            if own.scoring_ready {
                return Some("waiting_for_index");
            }
            if own.scoring_owned {
                return Some("retry_wait");
            }
        }
    }
    gate_reason(manual, facts)
}

/// The seconds before a further attempt: one minute, doubled with each
/// failure, at most an hour.
pub open spec fn retry_seconds(failure_count: u32) -> int
    decreases failure_count,
{
    if failure_count <= 1 {
        60
    } else {
        let doubled = 2 * retry_seconds((failure_count - 1) as u32);
        if doubled < 3600 {
            doubled
        } else {
            3600
        }
    }
}

proof fn lemma_retry_seconds(failure_count: u32)
    ensures
        60 <= retry_seconds(failure_count) <= 3600,
        failure_count >= 7 ==> retry_seconds(failure_count) == 3600,
    decreases failure_count,
{
    if failure_count > 7 {
        lemma_retry_seconds((failure_count - 1) as u32);
    } else {
        reveal_with_fuel(retry_seconds, 8);
    }
}

/// The seconds before a further attempt.
pub fn retry_delay(failure_count: u32) -> (result: u64)
    ensures
        result == retry_seconds(failure_count),
{
    proof {
        lemma_retry_seconds(failure_count);
    }
    if failure_count >= 7 {
        return MAX_RETRY_DELAY_SECS;
    }
    let mut seconds: u64 = 60;
    let mut count: u32 = 1;
    while count < failure_count
        invariant
            1 <= count <= failure_count || failure_count == 0,
            count == 1 || count <= failure_count,
            failure_count < 7,
            seconds == retry_seconds(count),
            60 <= seconds <= 3600,
        decreases failure_count - count,
    {
        count = count + 1;
        seconds = if seconds * 2 < MAX_RETRY_DELAY_SECS {
            seconds * 2
        } else {
            MAX_RETRY_DELAY_SECS
        };
    }
    seconds
}

/// No wait is shorter than the one before it, and none is over an hour.
pub proof fn law_retries_back_off(a: u32, b: u32)
    requires
        a <= b,
    ensures
        60 <= retry_seconds(a) <= retry_seconds(b) <= 3600,
    decreases b,
{
    lemma_retry_seconds(a);
    lemma_retry_seconds(b);
    if a < b {
        law_retries_back_off(a, (b - 1) as u32);
    }
}

/// `now + delta`, kept within 64 bits.
pub open spec fn moment(now: i64, delta: i64) -> i64 {
    if now + delta > i64::MAX {
        i64::MAX
    } else {
        (now + delta) as i64
    }
}

fn moment_after(now: i64, delta: i64) -> (result: i64)
    requires
        delta >= 0,
    ensures
        result == moment(now, delta),
{
    if now > i64::MAX - delta {
        i64::MAX
    } else {
        now + delta
    }
}

/// The scheduler's state between passes.
#[derive(Debug)]
pub struct BackgroundSchedulerState {
    pub stopping: bool,
    pub running_task: Option<String>,
    pub running_manual: bool,
    pub blocked_reason: Option<String>,
    pub service_seq: u64,
    pub manual_request_generation: u64,
}

impl Default for BackgroundSchedulerState {
    fn default() -> (result: Self)
        ensures
            result == (BackgroundSchedulerState {
                stopping: false,
                running_task: None,
                running_manual: false,
                blocked_reason: None,
                service_seq: 0,
                manual_request_generation: 0,
            }),
    {
        BackgroundSchedulerState {
            stopping: false,
            running_task: None,
            running_manual: false,
            blocked_reason: None,
            service_seq: 0,
            manual_request_generation: 0,
        }
    }
}

/// What starting the scheduler calls for.
#[derive(Debug)]
pub enum StartPlan {
    /// The loop runs already and is woken.
    Wake,
    /// A loop is spawned, after these missing rows were made.
    Spawn { seed: Vec<&'static str> },
}

/// The largest service number of the rows, or `floor` where that is larger.
pub open spec fn highest_seq(tasks: Seq<BackgroundTaskState>, floor: u64) -> u64
    decreases tasks.len(),
{
    if tasks.len() == 0 {
        floor
    } else {
        let rest = highest_seq(tasks.drop_last(), floor);
        if tasks.last().last_served_seq > rest {
            tasks.last().last_served_seq
        } else {
            rest
        }
    }
}

/// Some row is of this kind.
pub open spec fn has_row(tasks: Seq<BackgroundTaskState>, kind: Seq<char>) -> bool {
    exists|i: int| 0 <= i < tasks.len() && (#[trigger] tasks[i]).task_kind@ == kind
}

fn row_exists(tasks: &[BackgroundTaskState], kind: &str) -> (result: bool)
    ensures
        result == has_row(tasks@, kind@),
{
    let mut i: usize = 0;
    while i < tasks.len()
        invariant
            i <= tasks@.len(),
            forall|j: int| 0 <= j < i ==> (#[trigger] tasks@[j]).task_kind@ != kind@,
        decreases tasks@.len() - i,
    {
        if text::same(&tasks[i].task_kind, kind) {
            return true;
        }
        i = i + 1;
    }
    false
}

/// The first row of this kind.
pub open spec fn first_row(tasks: Seq<BackgroundTaskState>, kind: Seq<char>, i: int) -> bool {
    &&& 0 <= i < tasks.len()
    &&& tasks[i].task_kind@ == kind
    &&& forall|j: int| 0 <= j < i ==> (#[trigger] tasks[j]).task_kind@ != kind
}

fn first_row_of<'a>(tasks: &'a [BackgroundTaskState], kind: &str) -> (result: Option<
    &'a BackgroundTaskState,
>)
    ensures
        match result {
            Some(task) => exists|i: int| #[trigger]
                first_row(tasks@, kind@, i) && *task == tasks@[i],
            None => !has_row(tasks@, kind@),
        },
{
    let mut i: usize = 0;
    while i < tasks.len()
        invariant
            i <= tasks@.len(),
            forall|j: int| 0 <= j < i ==> (#[trigger] tasks@[j]).task_kind@ != kind@,
        decreases tasks@.len() - i,
    {
        if text::same(&tasks[i].task_kind, kind) {
            assert(first_row(tasks@, kind@, i as int));
            return Some(&tasks[i]);
        }
        i = i + 1;
    }
    None
}

/// How often the first row of this kind has failed.
pub open spec fn failures_known(
    tasks: Seq<BackgroundTaskState>,
    kind: Seq<char>,
    count: Option<u32>,
) -> bool {
    match count {
        Some(n) => exists|i: int| #[trigger]
            first_row(tasks, kind, i) && tasks[i].failure_count == n,
        None => !has_row(tasks, kind),
    }
}

/// How often the row of this kind has failed, where there is one.
pub fn known_failures(tasks: &[BackgroundTaskState], kind: BackgroundTaskKind) -> (result: Option<
    u32,
>)
    ensures
        failures_known(tasks@, kind.name(), result),
{
    match first_row_of(tasks, kind.as_str()) {
        Some(task) => Some(task.failure_count),
        None => None,
    }
}

/// Some task waits or runs.
pub open spec fn some_pending(tasks: Seq<BackgroundTaskState>) -> bool {
    exists|i: int|
        0 <= i < tasks.len() && ((#[trigger] tasks[i]).status@ == "queued"@ || tasks[i].status@
            == "running"@ || tasks[i].status@ == "retry_wait"@)
}

/// Some task waits or runs.
pub fn has_pending(tasks: &[BackgroundTaskState]) -> (result: bool)
    ensures
        result == some_pending(tasks@),
{
    let mut i: usize = 0;
    while i < tasks.len()
        invariant
            i <= tasks@.len(),
            forall|j: int|
                0 <= j < i ==> (#[trigger] tasks@[j]).status@ != "queued"@ && tasks@[j].status@
                    != "running"@ && tasks@[j].status@ != "retry_wait"@,
        decreases tasks@.len() - i,
    {
        let status = &tasks[i].status;
        if text::same(status, "queued") || text::same(status, "running") || text::same(
            status,
            "retry_wait",
        ) {
            return true;
        }
        i = i + 1;
    }
    false
}

/// The kinds of which a row is made at the start where there is none.
pub open spec fn missing_rows(tasks: Seq<BackgroundTaskState>) -> Seq<Seq<char>> {
    let a = if has_row(tasks, "semantic_index"@) {
        Seq::<Seq<char>>::empty()
    } else {
        seq!["semantic_index"@]
    };
    let b = if has_row(tasks, "clip_index"@) {
        a
    } else {
        a.push("clip_index"@)
    };
    if has_row(tasks, "ann_build"@) {
        b
    } else {
        b.push("ann_build"@)
    }
}

/// The names as character sequences.
pub open spec fn name_views(names: Seq<&'static str>) -> Seq<Seq<char>> {
    names.map_values(|name: &'static str| name@)
}

/// A task that waits, and why.
pub open spec fn inactive_reason(status: Seq<char>) -> Option<Seq<char>> {
    if status == "retry_wait"@ {
        Some("retry_wait"@)
    } else if status == "failed"@ {
        Some("failed"@)
    } else if status == "parked"@ {
        Some("disabled"@)
    } else {
        None
    }
}

/// The tasks that wait for something, with what they wait for.
pub open spec fn inactive_tasks(tasks: Seq<BackgroundTaskState>) -> Seq<(Seq<char>, Seq<char>)>
    decreases tasks.len(),
{
    if tasks.len() == 0 {
        Seq::empty()
    } else {
        let rest = inactive_tasks(tasks.drop_last());
        match inactive_reason(tasks.last().status@) {
            Some(reason) => rest.push((tasks.last().task_kind@, reason)),
            None => rest,
        }
    }
}

/// What a pass goes on with.
#[derive(Debug)]
pub enum PassSelection {
    /// Nothing waits to be run; these tasks wait for something else.
    NoWork { inactive: Vec<(String, String)> },
    /// It is to be admitted.
    Candidate { kind: BackgroundTaskKind, manual: bool },
}

/// What became of a selected task.
#[derive(Debug)]
pub enum PassAdmission {
    /// It may not run now.
    Blocked { reason: String },
    /// It may be claimed under this service number.
    Admitted { seq: u64 },
}

/// The verdict on a failed scoring slice.
#[derive(Debug, Clone, Copy)]
pub struct ScoringFailure {
    pub code: &'static str,
    pub terminal: bool,
}

/// What is known when a slice failed.
#[derive(Debug)]
pub struct FailureFacts {
    /// The failures of the row before this one, where there is a row.
    pub failure_count: Option<u32>,
    /// The verdict on a scoring slice.
    pub scoring: Option<ScoringFailure>,
    /// The worker fails on this input every time.
    pub deterministic_worker_failure: bool,
    /// The graph build has given up.
    pub ann_circuit_open: bool,
    /// When the graph build wants to try again.
    pub ann_retry_at_ms: Option<i64>,
    /// What a protected read waits for.
    pub read_wait_reason: Option<&'static str>,
}

/// What is done about a slice that ran.
#[derive(Debug)]
pub enum SliceAction {
    /// The row is parked.
    Park { code: &'static str },
    /// The row is put off until the moment. Where `noted`, the task is blocked
    /// for that reason.
    Defer { until_ms: i64, reason: String, noted: bool },
    /// The row is done, and the next pass follows at once.
    Succeed { has_more: bool },
    /// The row is closed as failed.
    Fail { failures: u32, code: &'static str, scoring_notice: bool },
    /// The row is tried again at the moment. Where `noted`, the task is
    /// blocked by the wait.
    Retry { failures: u32, retry_at_ms: i64, scoring_notice: bool, noted: bool },
}

/// The error asks for credentials.
pub open spec fn asks_credentials(error: Seq<char>) -> bool {
    let lower = text::lower_ascii(error);
    text::holds_text(lower, "auth_required"@) || text::holds_text(
        lower,
        "authentication required"@,
    )
}

/// The error only tells that the monitor is not up.
pub open spec fn monitor_down(error: Seq<char>) -> bool {
    let lower = text::lower_ascii(error);
    text::holds_text(lower, "monitor_unavailable"@) || text::holds_text(
        lower,
        "monitor not started"@,
    )
}

impl FailureFacts {
    /// The failures of the row with this one.
    pub open spec fn failures(&self) -> u32 {
        match self.failure_count {
            Some(n) => if n == u32::MAX {
                u32::MAX
            } else {
                (n + 1) as u32
            },
            None => 1,
        }
    }

    /// The worker fails on every attempt, and the task is one that it serves.
    pub open spec fn hopeless_index(&self, kind: BackgroundTaskKind) -> bool {
        (kind == BackgroundTaskKind::SemanticIndex || kind == BackgroundTaskKind::ClipIndex)
            && self.deterministic_worker_failure
    }

    /// No further attempt is made.
    pub open spec fn terminal(&self, kind: BackgroundTaskKind) -> bool {
        ||| self.hopeless_index(kind)
        ||| kind == BackgroundTaskKind::AnnBuild && self.ann_circuit_open
        ||| kind == BackgroundTaskKind::SmartCluster && self.scoring is Some
            && self.scoring->0.terminal
    }

    /// What a final failure is called.
    pub open spec fn code(&self, kind: BackgroundTaskKind) -> Seq<char> {
        if kind == BackgroundTaskKind::SmartCluster && self.scoring is Some {
            self.scoring->0.code@
        } else if self.hopeless_index(kind) {
            "index_worker_failure"@
        } else {
            "task_failed"@
        }
    }

    /// When a further attempt is made.
    pub open spec fn retry_at(&self, kind: BackgroundTaskKind, now: i64) -> i64 {
        if kind == BackgroundTaskKind::AnnBuild && self.ann_retry_at_ms is Some {
            self.ann_retry_at_ms->0
        } else {
            moment(now, (1000 * retry_seconds(self.failures())) as i64)
        }
    }
}

/// The blocked reason says this.
pub open spec fn says(reason: Option<String>, what: Option<Seq<char>>) -> bool {
    match reason {
        Some(s) => what == Some(s@),
        None => what is None,
    }
}

/// How the scheduler stands.
#[derive(Debug)]
pub struct BackgroundSchedulerStatus {
    pub enabled: bool,
    pub running_task: Option<String>,
    pub running_manual: bool,
    pub tasks: Vec<BackgroundTaskState>,
    pub queue_depths: Option<QueueDepths>,
    pub blocked_reason: Option<String>,
    pub next_retry_at_ms: Option<i64>,
    /// The earliest further attempt of what was asked for.
    pub manual_retry_at_ms: Option<i64>,
    pub execution_profile: ExecutionProfile,
    pub scheduling_mode: SchedulingMode,
    pub qualifications: Vec<Qualification>,
    pub task_background_eligible: Vec<(&'static str, bool)>,
    pub backlog_age_ms: Vec<(String, i64)>,
    pub pauses: PauseStatistics,
}

/// How much waits in each queue.
#[derive(Debug, Clone, Copy, PartialEq, Eq, Structural)]
pub struct QueueDepths {
    pub semantic_index: u64,
    pub clip_index: u64,
    pub smart_cluster: u64,
}

/// How much waits in each queue. What could not be read counts as nothing; there
/// are no queues without a database.
pub fn queue_depths(
    database: bool,
    semantic: Option<u64>,
    clip: Option<u64>,
    smart: Option<i64>,
) -> (result: Option<QueueDepths>)
    ensures
        result == if database {
            Some(
                QueueDepths {
                    semantic_index: match semantic {
                        Some(n) => n,
                        None => 0,
                    },
                    clip_index: match clip {
                        Some(n) => n,
                        None => 0,
                    },
                    smart_cluster: match smart {
                        Some(n) => if n > 0 {
                            n as u64
                        } else {
                            0
                        },
                        None => 0,
                    },
                },
            )
        } else {
            None
        },
{
    if !database {
        return None;
    }
    let semantic_index: u64 = match semantic {
        Some(n) => n,
        None => 0,
    };
    let clip_index: u64 = match clip {
        Some(n) => n,
        None => 0,
    };
    let smart_cluster: u64 = match smart {
        Some(n) => if n > 0 {
            n as u64
        } else {
            0
        },
        None => 0,
    };
    Some(QueueDepths { semantic_index, clip_index, smart_cluster })
}

/// The task waits for a further attempt; where `manual_only`, one that was
/// asked for.
pub open spec fn awaits_retry(task: BackgroundTaskState, manual_only: bool) -> bool {
    task.status@ == "retry_wait"@ && (manual_only ==> task.manual_pending)
}

/// The earliest further attempt.
pub open spec fn earliest_retry(
    tasks: Seq<BackgroundTaskState>,
    manual_only: bool,
    at: Option<i64>,
) -> bool {
    match at {
        None => forall|i: int|
            0 <= i < tasks.len() ==> !awaits_retry(#[trigger] tasks[i], manual_only),
        Some(ms) => {
            &&& exists|i: int|
                0 <= i < tasks.len() && awaits_retry(#[trigger] tasks[i], manual_only)
                    && tasks[i].next_attempt_at_ms == ms
            &&& forall|i: int|
                0 <= i < tasks.len() && awaits_retry(#[trigger] tasks[i], manual_only)
                    ==> tasks[i].next_attempt_at_ms >= ms
        },
    }
}

fn find_retry(tasks: &[BackgroundTaskState], manual_only: bool) -> (result: Option<i64>)
    ensures
        earliest_retry(tasks@, manual_only, result),
{
    let mut earliest: Option<i64> = None;
    let mut i: usize = 0;
    while i < tasks.len()
        invariant
            i <= tasks@.len(),
            match earliest {
                None => forall|j: int|
                    0 <= j < i ==> !awaits_retry(#[trigger] tasks@[j], manual_only),
                Some(ms) => {
                    &&& exists|j: int|
                        0 <= j < i && awaits_retry(#[trigger] tasks@[j], manual_only)
                            && tasks@[j].next_attempt_at_ms == ms
                    &&& forall|j: int|
                        0 <= j < i && awaits_retry(#[trigger] tasks@[j], manual_only)
                            ==> tasks@[j].next_attempt_at_ms >= ms
                },
            },
        decreases tasks@.len() - i,
    {
        let task = &tasks[i];
        if text::same(&task.status, "retry_wait") && (!manual_only || task.manual_pending) {
            let sooner = match earliest {
                Some(ms) => task.next_attempt_at_ms < ms,
                None => true,
            };
            if sooner {
                earliest = Some(task.next_attempt_at_ms);
            }
        }
        i = i + 1;
    }
    earliest
}

/// Some row has failed for good.
pub open spec fn some_failed(tasks: Seq<BackgroundTaskState>) -> bool {
    exists|i: int| 0 <= i < tasks.len() && (#[trigger] tasks[i]).status@ == "failed"@
}

/// Staged records are preferred over the archive: always for a request and
/// while the archive is locked, else on three turns out of four.
pub open spec fn staged_first(
    service_seq: u64,
    staged_ready: bool,
    manual: bool,
    archive_open: bool,
) -> bool {
    staged_ready && (manual || !archive_open || service_seq % 4 != 0)
}

impl BackgroundSchedulerState {
    /// Starts the loop, or wakes it where it runs.
    pub fn start(&mut self, loop_alive: bool, tasks: &[BackgroundTaskState]) -> (result: StartPlan)
        ensures
            match result {
                StartPlan::Wake => loop_alive && *final(self) == (BackgroundSchedulerState {
                    stopping: false,
                    ..*old(self)
                }),
                StartPlan::Spawn { seed } => {
                    &&& !loop_alive
                    &&& name_views(seed@) == missing_rows(tasks@)
                    &&& *final(self) == (BackgroundSchedulerState {
                        stopping: false,
                        service_seq: highest_seq(tasks@, old(self).service_seq),
                        ..*old(self)
                    })
                },
            },
    {
        self.stopping = false;
        if loop_alive {
            return StartPlan::Wake;
        }
        let ghost floor = self.service_seq;
        let mut highest: u64 = self.service_seq;
        let mut i: usize = 0;
        assert(tasks@.take(0) =~= Seq::<BackgroundTaskState>::empty());
        while i < tasks.len()
            invariant
                i <= tasks@.len(),
                highest == highest_seq(tasks@.take(i as int), floor),
            decreases tasks@.len() - i,
        {
            assert(tasks@.take(i + 1).drop_last() =~= tasks@.take(i as int));
            if tasks[i].last_served_seq > highest {
                highest = tasks[i].last_served_seq;
            }
            i = i + 1;
        }
        assert(tasks@.take(tasks@.len() as int) =~= tasks@);
        self.service_seq = highest;
        let mut seed: Vec<&'static str> = Vec::new();
        if !row_exists(tasks, TASK_SEMANTIC_INDEX) {
            seed.push(TASK_SEMANTIC_INDEX);
        }
        if !row_exists(tasks, TASK_CLIP_INDEX) {
            seed.push(TASK_CLIP_INDEX);
        }
        if !row_exists(tasks, TASK_ANN_BUILD) {
            seed.push(TASK_ANN_BUILD);
        }
        assert(name_views(seed@) =~= missing_rows(tasks@));
        StartPlan::Spawn { seed }
    }

    /// The loop is to end.
    pub fn stop(&mut self)
        ensures
            *final(self) == (BackgroundSchedulerState { stopping: true, ..*old(self) }),
    {
        self.stopping = true;
    }

    /// What a row that was asked for changes.
    pub open spec fn enqueued(
        before: Self,
        after: Self,
        stored: Result<(), String>,
        manual: bool,
        result: Result< (), String, >,
    ) -> bool {
        &&& match stored {
            Ok(_) => result is Ok,
            Err(e) => result == Err::<(), String>(e),
        }
        &&& after == if stored is Ok && manual {
            BackgroundSchedulerState {
                manual_request_generation: if before.manual_request_generation == u64::MAX {
                    0
                } else {
                    (before.manual_request_generation + 1) as u64
                },
                blocked_reason: None,
                ..before
            }
        } else {
            before
        }
    }

    /// A row was asked for; `stored` tells whether it was written. A request
    /// of the user ends automatic quanta and clears the blocked reason.
    pub fn enqueue(&mut self, stored: Result<(), String>, manual: bool) -> (result: Result<
        (),
        String,
    >)
        ensures
            Self::enqueued(*old(self), *final(self), stored, manual, result),
    {
        match stored {
            Ok(_) => {
                if manual {
                    self.manual_request_generation = if self.manual_request_generation == u64::MAX {
                        0
                    } else {
                        self.manual_request_generation + 1
                    };
                    self.blocked_reason = None;
                }
                Ok(())
            },
            Err(e) => Err(e),
        }
    }

    /// How the scheduler stands.
    pub fn status(
        &self,
        tasks: Vec<BackgroundTaskState>,
        adaptive: &AdaptiveRuntime,
        enabled: bool,
        scheduling_mode: SchedulingMode,
        queue_depths: Option<QueueDepths>,
        backlog_age_ms: Vec<(String, i64)>,
    ) -> (result: BackgroundSchedulerStatus)
        requires
            adaptive.wf(),
        ensures
            result.enabled == enabled,
            result.tasks == tasks,
            result.queue_depths == queue_depths,
            result.backlog_age_ms == backlog_age_ms,
            match adaptive.book {
                Some(book) => background_policy::told_of(book.model(), result.qualifications@),
                None => result.qualifications@.len() == 0,
            },
            adaptive.summed_up(result.task_background_eligible@),
            result.pauses.same(adaptive.pauses),
            result.running_task == self.running_task,
            result.running_manual == self.running_manual,
            earliest_retry(tasks@, false, result.next_retry_at_ms),
            earliest_retry(tasks@, true, result.manual_retry_at_ms),
            result.execution_profile == if self.running_manual {
                ExecutionProfile::Manual
            } else {
                match adaptive.active {
                    Some(active) => active.lease.profile,
                    None => ExecutionProfile::Paused,
                }
            },
            result.scheduling_mode == scheduling_mode,
            match self.blocked_reason {
                Some(reason) => result.blocked_reason == Some(reason),
                None => says(
                    result.blocked_reason,
                    if some_failed(tasks@) {
                        Some("failed"@)
                    } else {
                        None
                    },
                ),
            },
    {
        let mut failed = false;
        let mut i: usize = 0;
        while i < tasks.len()
            invariant
                i <= tasks@.len(),
                failed == exists|j: int|
                    0 <= j < i && (#[trigger] tasks@[j]).status@ == "failed"@,
            decreases tasks@.len() - i,
        {
            if text::same(&tasks[i].status, "failed") {
                failed = true;
            }
            i = i + 1;
        }
        let blocked_reason: Option<String> = match &self.blocked_reason {
            Some(reason) => Some(reason.clone()),
            None => if failed {
                Some("failed".to_owned())
            } else {
                None
            },
        };
        BackgroundSchedulerStatus {
            enabled,
            running_task: match &self.running_task {
                Some(task) => Some(task.clone()),
                None => None,
            },
            running_manual: self.running_manual,
            queue_depths,
            blocked_reason,
            next_retry_at_ms: find_retry(&tasks, false),
            manual_retry_at_ms: find_retry(&tasks, true),
            execution_profile: adaptive.profile(self.running_manual),
            scheduling_mode,
            qualifications: adaptive.qualifications(),
            task_background_eligible: adaptive.qualification_summary(),
            backlog_age_ms,
            pauses: adaptive.pauses.copy(),
            tasks,
        }
    }

    /// Selects the task of this pass. `admitted` tells of each row whether its
    /// gates are open; where none is, the next one in order is taken all the
    /// same, so that its blocking can be told.
    pub fn select_pass(&mut self, tasks: &[BackgroundTaskState], admitted: &[bool], now_ms: i64) -> (result:
        PassSelection)
        requires
            tasks@.len() == admitted@.len(),
        ensures
            match result {
                PassSelection::Candidate { kind, manual } => {
                    &&& *final(self) == *old(self)
                    &&& background_scheduler::serves(
                        tasks@,
                        admitted@,
                        now_ms,
                        AUTO_AGING_LIMIT_MS,
                        kind,
                        manual,
                    ) || {
                        &&& forall|i: int|
                            !#[trigger] background_scheduler::candidate(
                                tasks@,
                                admitted@,
                                now_ms,
                                i,
                            )
                        &&& exists|i: int| #[trigger]
                            background_scheduler::is_next(
                                tasks@,
                                background_scheduler::all_admitted(tasks@.len()),
                                now_ms,
                                AUTO_AGING_LIMIT_MS,
                                i,
                            ) && background_scheduler::as_candidate(tasks@[i]).kind == kind
                        &&& exists|i: int| #[trigger]
                            first_row(tasks@, kind.name(), i) && manual == tasks@[i].manual_pending
                    }
                },
                PassSelection::NoWork { inactive } => {
                    &&& *final(self) == (BackgroundSchedulerState {
                        blocked_reason: None,
                        ..*old(self)
                    })
                    &&& forall|i: int|
                        !#[trigger] background_scheduler::candidate(
                            tasks@,
                            background_scheduler::all_admitted(tasks@.len()),
                            now_ms,
                            i,
                        )
                    &&& crate::background_activity::reason_views(inactive@) == inactive_tasks(
                        tasks@,
                    )
                },
            },
    {
        match background_scheduler::select_admitted_task(
            tasks,
            admitted,
            now_ms,
            AUTO_AGING_LIMIT_MS,
        ) {
            Some((kind, manual)) => {
                return PassSelection::Candidate { kind, manual };
            },
            None => {},
        }
        match background_scheduler::select_next_task(tasks, now_ms, AUTO_AGING_LIMIT_MS) {
            Some(kind) => {
                proof {
                    let i = choose|i: int| #[trigger]
                        background_scheduler::is_next(
                            tasks@,
                            background_scheduler::all_admitted(tasks@.len()),
                            now_ms,
                            AUTO_AGING_LIMIT_MS,
                            i,
                        ) && background_scheduler::as_candidate(tasks@[i]).kind == kind;
                    background_scheduler::law_kind_names_read_back(kind, tasks@[i].task_kind@);
                    assert(tasks@[i].task_kind@ == kind.name());
                    assert(has_row(tasks@, kind.name()));
                }
                let manual = match first_row_of(tasks, kind.as_str()) {
                    Some(task) => task.manual_pending,
                    None => false,
                };
                PassSelection::Candidate { kind, manual }
            },
            None => {
                self.blocked_reason = None;
                PassSelection::NoWork { inactive: list_inactive(tasks) }
            },
        }
    }

    /// Whether a pass goes on, and under which number.
    pub open spec fn pass_admitted(
        before: Self,
        after: Self,
        manual: bool,
        external_waiting: bool,
        gate: Option<&'static str>,
        result: PassAdmission,
    ) -> bool {
        ({
            let reason = if !manual && external_waiting {
                Some("external_background_request"@)
            } else {
                background_policy::shown(gate)
            };
            match result {
                PassAdmission::Blocked { reason: told } => {
                    &&& reason == Some(told@)
                    &&& says(after.blocked_reason, reason)
                    &&& after == (BackgroundSchedulerState {
                        blocked_reason: after.blocked_reason,
                        ..before
                    })
                },
                PassAdmission::Admitted { seq } => {
                    &&& reason is None
                    &&& seq == before.service_seq + 1
                    &&& after == (BackgroundSchedulerState {
                        blocked_reason: None,
                        service_seq: seq,
                        ..before
                    })
                },
            }
        })
    }

    /// Admits a selected task, or tells why it is blocked. `gate` is the reason
    /// of its gates, asked again.
    pub fn admit_pass(
        &mut self,
        manual: bool,
        external_waiting: bool,
        gate: Option<&'static str>,
    ) -> (result: PassAdmission)
        requires
            old(self).service_seq < u64::MAX,
        ensures
            Self::pass_admitted(*old(self), *final(self), manual, external_waiting, gate, result),
    {
        let reason: Option<&'static str> = if !manual && external_waiting {
            Some("external_background_request")
        } else {
            gate
        };
        match reason {
            Some(told) => {
                self.blocked_reason = Some(told.to_owned());
                PassAdmission::Blocked { reason: told.to_owned() }
            },
            None => {
                self.blocked_reason = None;
                self.service_seq = self.service_seq + 1;
                PassAdmission::Admitted { seq: self.service_seq }
            },
        }
    }

    /// The admitted task was claimed.
    pub fn claimed(&mut self, kind: BackgroundTaskKind, manual: bool)
        ensures
            says(final(self).running_task, Some(kind.name())),
            *final(self) == (BackgroundSchedulerState {
                running_task: final(self).running_task,
                running_manual: manual,
                ..*old(self)
            }),
    {
        self.running_task = Some(kind.as_str().to_owned());
        self.running_manual = manual;
    }

    /// No lease was given: the row is put off for a moment.
    pub fn lease_refused(&mut self, now_ms: i64) -> (result: i64)
        ensures
            result == moment(now_ms, 250),
            *final(self) == (BackgroundSchedulerState { running_task: None, ..*old(self) }),
    {
        self.running_task = None;
        moment_after(now_ms, 250)
    }

    /// The slice is over; what it came to decides on the row.
    pub fn settle(
        &mut self,
        kind: BackgroundTaskKind,
        manual: bool,
        outcome: &Result<ScheduledSliceResult, String>,
        facts: &FailureFacts,
        now_ms: i64,
    ) -> (result: SliceAction)
        ensures
            final(self).running_task is None,
            !final(self).running_manual,
            *final(self) == (BackgroundSchedulerState {
                running_task: None,
                running_manual: false,
                blocked_reason: final(self).blocked_reason,
                ..*old(self)
            }),
            match *outcome {
                Ok(slice) => match slice.skipped_reason {
                    Some(reason) => if reason@ == "disabled"@ {
                        &&& result is Park
                        &&& result->Park_code@ == "feature_disabled"@
                        &&& says(final(self).blocked_reason, Some("disabled"@))
                    } else {
                        &&& result is Defer
                        &&& result->until_ms == moment(now_ms, TICK_INTERVAL_MS)
                        &&& result->reason@ == reason@
                        &&& result->Defer_noted
                        &&& says(final(self).blocked_reason, Some(reason@))
                    },
                    None => {
                        &&& result == (SliceAction::Succeed { has_more: slice.has_more })
                        &&& final(self).blocked_reason is None
                    },
                },
                Err(error) => old(self).failure_settled(
                    *final(self),
                    kind,
                    manual,
                    error@,
                    *facts,
                    now_ms,
                    result,
                ),
            },
    {
        self.running_manual = false;
        self.running_task = None;
        match outcome {
            Ok(slice) => match &slice.skipped_reason {
                Some(reason) => {
                    if text::same(reason, "disabled") {
                        self.blocked_reason = Some("disabled".to_owned());
                        SliceAction::Park { code: "feature_disabled" }
                    } else {
                        self.blocked_reason = Some(reason.clone());
                        SliceAction::Defer {
                            until_ms: moment_after(now_ms, TICK_INTERVAL_MS),
                            reason: reason.clone(),
                            noted: true,
                        }
                    }
                },
                None => {
                    self.blocked_reason = None;
                    SliceAction::Succeed { has_more: slice.has_more }
                },
            },
            Err(error) => self.settle_failure(kind, manual, error, facts, now_ms),
        }
    }

    /// What a failed slice comes to: a pause and a locked store put it off, a
    /// failure that will not pass closes the row, and any other is tried again.
    pub open spec fn failure_settled(
        &self,
        after: BackgroundSchedulerState,
        kind: BackgroundTaskKind,
        manual: bool,
        error: Seq<char>,
        facts: FailureFacts,
        now: i64,
        result: SliceAction,
    ) -> bool {
        if background_policy::tells_pause(error) {
            &&& result is Defer
            &&& result->until_ms == moment(now, 250)
            &&& result->reason@ == "background_paused"@
            &&& !result->Defer_noted
            &&& after.blocked_reason == self.blocked_reason
        } else if asks_credentials(error) {
            let waits = match facts.read_wait_reason {
                Some(reason) => reason@,
                None => "waiting_for_unlock"@,
            };
            &&& result is Defer
            &&& result->until_ms == moment(now, TICK_INTERVAL_MS)
            &&& result->reason@ == waits
            &&& result->Defer_noted
            &&& says(after.blocked_reason, Some(waits))
        } else if facts.terminal(kind) {
            &&& result is Fail
            &&& result->Fail_failures == facts.failures()
            &&& result->Fail_code@ == facts.code(kind)
            &&& result->Fail_scoring_notice == (kind == BackgroundTaskKind::SmartCluster
                && manual)
            &&& after.blocked_reason == self.blocked_reason
        } else {
            &&& result is Retry
            &&& result->Retry_failures == facts.failures()
            &&& result->retry_at_ms == facts.retry_at(kind, now)
            &&& result->Retry_scoring_notice == (kind == BackgroundTaskKind::SmartCluster
                && manual)
            &&& result->Retry_noted == !monitor_down(error)
            &&& if monitor_down(error) {
                after.blocked_reason == self.blocked_reason
            } else {
                says(after.blocked_reason, Some("retry_wait"@))
            }
        }
    }

    fn settle_failure(
        &mut self,
        kind: BackgroundTaskKind,
        manual: bool,
        error: &String,
        facts: &FailureFacts,
        now_ms: i64,
    ) -> (result: SliceAction)
        ensures
            *final(self) == (BackgroundSchedulerState {
                blocked_reason: final(self).blocked_reason,
                ..*old(self)
            }),
            old(self).failure_settled(
                *final(self),
                kind,
                manual,
                error@,
                *facts,
                now_ms,
                result,
            ),
    {
        if background_policy::is_pause(error) {
            return SliceAction::Defer {
                until_ms: moment_after(now_ms, 250),
                reason: "background_paused".to_owned(),
                noted: false,
            };
        }
        let lower = text::lower_ascii_chars(error);
        if text::chars_hold(&lower, "auth_required") || text::chars_hold(
            &lower,
            "authentication required",
        ) {
            let waits: &'static str = match facts.read_wait_reason {
                Some(reason) => reason,
                None => "waiting_for_unlock",
            };
            self.blocked_reason = Some(waits.to_owned());
            return SliceAction::Defer {
                until_ms: moment_after(now_ms, TICK_INTERVAL_MS),
                reason: waits.to_owned(),
                noted: true,
            };
        }
        let failures: u32 = match facts.failure_count {
            Some(n) => n.saturating_add(1),
            None => 1,
        };
        let scoring = kind == BackgroundTaskKind::SmartCluster;
        let hopeless = (kind == BackgroundTaskKind::SemanticIndex || kind
            == BackgroundTaskKind::ClipIndex) && facts.deterministic_worker_failure;
        let given_up = kind == BackgroundTaskKind::AnnBuild && facts.ann_circuit_open;
        let scored_out = scoring && match facts.scoring {
            Some(verdict) => verdict.terminal,
            None => false,
        };
        if hopeless || given_up || scored_out {
            let code: &'static str = match facts.scoring {
                Some(verdict) => if scoring {
                    verdict.code
                } else if hopeless {
                    "index_worker_failure"
                } else {
                    "task_failed"
                },
                None => if hopeless {
                    "index_worker_failure"
                } else {
                    "task_failed"
                },
            };
            return SliceAction::Fail { failures, code, scoring_notice: scoring && manual };
        }
        proof {
            lemma_retry_seconds(failures);
        }
        let fallback: i64 = moment_after(now_ms, retry_delay(failures) as i64 * 1000);
        let retry_at_ms: i64 = match facts.ann_retry_at_ms {
            Some(at) => if kind == BackgroundTaskKind::AnnBuild {
                at
            } else {
                fallback
            },
            None => fallback,
        };
        let noted = !text::chars_hold(&lower, "monitor_unavailable") && !text::chars_hold(
            &lower,
            "monitor not started",
        );
        if noted {
            self.blocked_reason = Some("retry_wait".to_owned());
        }
        SliceAction::Retry { failures, retry_at_ms, scoring_notice: scoring && manual, noted }
    }

    /// The final failure was written, or the row had changed meanwhile.
    pub fn failure_recorded(&mut self, recorded: bool)
        ensures
            says(
                final(self).blocked_reason,
                if recorded {
                    Some("failed"@)
                } else {
                    None
                },
            ),
            *final(self) == (BackgroundSchedulerState {
                blocked_reason: final(self).blocked_reason,
                ..*old(self)
            }),
    {
        self.blocked_reason = if recorded {
            Some("failed".to_owned())
        } else {
            None
        };
    }

    /// Staged records are preferred over the archive: always for a request and
    /// while the archive is locked, else on three turns out of four.
    pub fn prefer_staged(&self, staged_ready: bool, manual: bool, archive_open: bool) -> (result:
        bool)
        ensures
            result == staged_first(self.service_seq, staged_ready, manual, archive_open),
    {
        staged_ready && (manual || !archive_open || self.service_seq % 4 != 0)
    }

    /// Where a slice takes its records from.
    pub fn task_source(
        &self,
        kind: BackgroundTaskKind,
        manual: bool,
        staged_ready: bool,
        archive_open: bool,
    ) -> (result: WorkSource)
        ensures
            result == if (!manual || kind == BackgroundTaskKind::SmartCluster) && staged_first(
                self.service_seq,
                staged_ready,
                manual,
                archive_open,
            ) {
                WorkSource::Staged
            } else {
                WorkSource::Archive
            },
    {
        if (!manual || kind == BackgroundTaskKind::SmartCluster) && self.prefer_staged(
            staged_ready,
            manual,
            archive_open,
        ) {
            WorkSource::Staged
        } else {
            WorkSource::Archive
        }
    }
}

fn list_inactive(tasks: &[BackgroundTaskState]) -> (result: Vec<(String, String)>)
    ensures
        crate::background_activity::reason_views(result@) == inactive_tasks(tasks@),
{
    let mut result: Vec<(String, String)> = Vec::new();
    let mut i: usize = 0;
    assert(tasks@.take(0) =~= Seq::<BackgroundTaskState>::empty());
    assert(crate::background_activity::reason_views(result@) =~= Seq::<
        (Seq<char>, Seq<char>),
    >::empty());
    while i < tasks.len()
        invariant
            i <= tasks@.len(),
            crate::background_activity::reason_views(result@) == inactive_tasks(
                tasks@.take(i as int),
            ),
        decreases tasks@.len() - i,
    {
        let task = &tasks[i];
        assert(tasks@.take(i + 1).drop_last() =~= tasks@.take(i as int));
        let ghost before = crate::background_activity::reason_views(result@);
        let reason: Option<&'static str> = if text::same(&task.status, "retry_wait") {
            Some("retry_wait")
        } else if text::same(&task.status, "failed") {
            Some("failed")
        } else if text::same(&task.status, "parked") {
            Some("disabled")
        } else {
            None
        };
        match reason {
            Some(why) => {
                result.push((task.task_kind.clone(), why.to_owned()));
                assert(crate::background_activity::reason_views(result@) =~= before.push(
                    (task.task_kind@, why@),
                ));
            },
            None => {},
        }
        i = i + 1;
    }
    assert(tasks@.take(tasks@.len() as int) =~= tasks@);
    result
}

/// A slice whose lease was taken back counts as put off, whatever it came to;
/// otherwise it has done at least what was put down meanwhile.
pub fn settle_result(
    result: Result<ScheduledSliceResult, String>,
    lease_reason: Option<&'static str>,
    processed: u64,
) -> (settled: Result<ScheduledSliceResult, String>)
    ensures
        match lease_reason {
            Some(reason) => {
                &&& settled is Ok
                &&& !settled->Ok_0.completed
                &&& settled->Ok_0.has_more
                &&& settled->Ok_0.processed == processed
                &&& says(settled->Ok_0.skipped_reason, Some(reason@))
            },
            None => match result {
                Ok(slice) => settled == Ok::<ScheduledSliceResult, String>(
                    ScheduledSliceResult {
                        processed: if slice.processed < processed {
                            processed
                        } else {
                            slice.processed
                        },
                        ..slice
                    },
                ),
                Err(e) => settled == Err::<ScheduledSliceResult, String>(e),
            },
        },
{
    match lease_reason {
        Some(reason) => Ok(ScheduledSliceResult::skipped(reason).with_processed(processed)),
        None => match result {
            Ok(slice) => {
                let most: u64 = if slice.processed < processed {
                    processed
                } else {
                    slice.processed
                };
                Ok(slice.with_processed(most))
            },
            Err(e) => Err(e),
        },
    }
}

/// The rows that a count of pending records calls for.
pub fn refresh_backlog(semantic: u64, clip: u64, smart: i64, smart_cluster_enabled: bool) -> (result:
    Vec<&'static str>)
    ensures
        ({
            let a = if semantic > 0 && smart_cluster_enabled {
                seq!["semantic_index"@]
            } else {
                Seq::<Seq<char>>::empty()
            };
            let b = if clip > 0 {
                a.push("clip_index"@)
            } else {
                a
            };
            name_views(result@) == if smart > 0 && smart_cluster_enabled {
                b.push("smart_cluster"@)
            } else {
                b
            }
        }),
{
    let mut rows: Vec<&'static str> = Vec::new();
    if semantic > 0 && smart_cluster_enabled {
        rows.push(TASK_SEMANTIC_INDEX);
    }
    if clip > 0 {
        rows.push(TASK_CLIP_INDEX);
    }
    if smart > 0 && smart_cluster_enabled {
        rows.push(TASK_SMART_CLUSTER);
    }
    proof {
        let a = if semantic > 0 && smart_cluster_enabled {
            seq!["semantic_index"@]
        } else {
            Seq::<Seq<char>>::empty()
        };
        let b = if clip > 0 {
            a.push("clip_index"@)
        } else {
            a
        };
        let c = if smart > 0 && smart_cluster_enabled {
            b.push("smart_cluster"@)
        } else {
            b
        };
        assert(name_views(rows@) =~= c);
    }
    rows
}

/// How a claimed task is run.
#[derive(Debug, Clone, Copy, PartialEq, Eq, Structural)]
pub enum SlicePlan {
    /// Not at all: its feature is switched off.
    Disabled,
    /// By the graph builder.
    AnnBuild,
    /// As an automatic quantum.
    Quantum,
    /// Under the guard of the worker, where that is free.
    Guarded,
    /// Not now: another pass holds the worker.
    Busy,
}

/// How a claimed task is run.
pub fn execute_slice(
    kind: BackgroundTaskKind,
    manual: bool,
    smart_cluster_enabled: bool,
    worker_free: bool,
) -> (result: SlicePlan)
    ensures
        result == if !manual && !smart_cluster_enabled && (kind == BackgroundTaskKind::SemanticIndex
            || kind == BackgroundTaskKind::SmartCluster) {
            SlicePlan::Disabled
        } else if kind == BackgroundTaskKind::AnnBuild {
            SlicePlan::AnnBuild
        } else if !manual && kind != BackgroundTaskKind::SmartCluster {
            SlicePlan::Quantum
        } else if worker_free {
            SlicePlan::Guarded
        } else {
            SlicePlan::Busy
        },
{
    if !background_scheduler::task_feature_enabled_with_config(kind, manual, smart_cluster_enabled) {
        return SlicePlan::Disabled;
    }
    if kind == BackgroundTaskKind::AnnBuild {
        return SlicePlan::AnnBuild;
    }
    if !manual && (kind == BackgroundTaskKind::SemanticIndex || kind
        == BackgroundTaskKind::ClipIndex) {
        return SlicePlan::Quantum;
    }
    if worker_free {
        SlicePlan::Guarded
    } else {
        SlicePlan::Busy
    }
}

/// What woke the loop.
#[derive(Debug, Clone, Copy, PartialEq, Eq, Structural)]
pub enum SchedulerWake {
    Startup,
    Tick,
    Notification,
}

/// The first pass follows at once; later ones wait for a tick or a
/// notification.
pub fn startup_wake(first_pass: &mut bool) -> (result: Option<SchedulerWake>)
    ensures
        !*final(first_pass),
        result == if *old(first_pass) {
            Some(SchedulerWake::Startup)
        } else {
            None
        },
{
    if *first_pass {
        *first_pass = false;
        Some(SchedulerWake::Startup)
    } else {
        None
    }
}

/// A notification does not call for a new count of pending records.
pub fn should_refresh_backlog(reason: SchedulerWake) -> (result: bool)
    ensures
        result == (reason != SchedulerWake::Notification),
{
    reason != SchedulerWake::Notification
}

/// The environment lets work run exactly if nothing is maintained, no request
/// waits in front, and, for work that was not asked for, the machine has mains
/// power, shows nothing in full screen and is idle in the sense of its policy.
pub proof fn law_the_environment_lets_work_run(
    policy: EnvironmentPolicy,
    maintenance: bool,
    idle: IdleState,
    foreground: bool,
)
    ensures
        policy.reason(maintenance, idle, foreground) is None <==> {
            &&& !maintenance
            &&& !foreground
            &&& policy != EnvironmentPolicy::Immediate ==> idle.ac_connected
                && !idle.fullscreen_exclusive
            &&& policy == EnvironmentPolicy::IdleOnly ==> idle.is_idle
            &&& policy == EnvironmentPolicy::Automatic ==> idle.idle_secs >= 60
        },
{
}

/// What the store protects is left alone until it is open: work runs only with
/// the leave to work in the background, or, for a request, in a session that is
/// valid; and never while reading asks for a verification.
pub proof fn law_a_locked_store_is_left_alone(manual: bool, facts: GateFacts)
    ensures
        task_reason(manual, facts) is None ==> {
            &&& !facts.silent_read_auth_required
            &&& facts.background_authorized || (manual && facts.session_valid)
            &&& !facts.maintenance_active
            &&& !facts.foreground_waiting
            &&& !manual ==> facts.idle.is_idle && facts.idle.ac_connected
                && !facts.idle.fullscreen_exclusive
        },
        !facts.silent_read_auth_required && facts.background_authorized && !facts.maintenance_active
            && !facts.foreground_waiting && (manual || (facts.idle.is_idle
            && facts.idle.ac_connected && !facts.idle.fullscreen_exclusive)) ==> task_reason(
            manual,
            facts,
        ) is None,
        !facts.silent_read_auth_required && !facts.background_authorized && !(manual
            && facts.session_valid) ==> task_reason(manual, facts) == Some("waiting_for_unlock"@),
        facts.silent_read_auth_required ==> task_reason(manual, facts) == Some(
            "waiting_for_verification"@,
        ),
{
}

/// Work that holds a lease is bound by that lease alone; a request is bound as a
/// request, whatever the adaptive admission says; and what the admission says
/// binds all other work, except that clusters are not kept waiting for
/// credentials that they may not need.
pub proof fn law_leases_and_requests_bind_first(
    manual: bool,
    kind: BackgroundTaskKind,
    own: KindGateFacts,
    facts: GateFacts,
)
    ensures
        own.own_lease == Some(None::<&'static str>) ==> kind_reason(manual, kind, own, facts)
            is None,
        own.own_lease matches Some(Some(reason)) ==> kind_reason(manual, kind, own, facts) == Some(
            reason@,
        ),
        own.own_lease is None && manual ==> kind_reason(manual, kind, own, facts) == task_reason(
            true,
            facts,
        ),
        own.own_lease is None && !manual && own.admission == Some(None::<&'static str>)
            ==> kind_reason(manual, kind, own, facts) is None,
        own.own_lease is None && !manual ==> (own.admission matches Some(Some(reason)) ==> reason@
            != "waiting_for_unlock"@ && reason@ != "waiting_for_verification"@ || kind
            != BackgroundTaskKind::SmartCluster ==> kind_reason(manual, kind, own, facts) == Some(
            reason@,
        )),
        own.own_lease is None && !manual && own.admission is None && !(own.staging_enabled
            && own.staged_ready) && (kind != BackgroundTaskKind::SmartCluster
            || facts.background_authorized) ==> kind_reason(manual, kind, own, facts)
            == task_reason(false, facts),
        own.own_lease is None && !manual && own.admission is None && own.staging_enabled
            && own.staged_ready ==> (kind_reason(manual, kind, own, facts) is None <==> {
            &&& !facts.maintenance_active
            &&& !facts.foreground_waiting
            &&& facts.idle.ac_connected
            &&& !facts.idle.fullscreen_exclusive
            &&& facts.idle.is_idle
        }),
{
}

/// Work with a lease is bound by the reason of its lease, and otherwise only by
/// what also binds requests.
pub proof fn law_leases_stand_in_for_an_idle_machine(
    reason: Option<&'static str>,
    facts: GateFacts,
)
    ensures
        environment_reason(EnvironmentPolicy::Automatic, Some(reason), facts) is None <==> reason
            is None && !facts.maintenance_active && !facts.foreground_waiting,
        reason matches Some(why) ==> environment_reason(
            EnvironmentPolicy::Automatic,
            Some(reason),
            facts,
        ) == Some(why@),
        environment_reason(EnvironmentPolicy::IdleOnly, Some(reason), facts) is None
            ==> facts.idle.is_idle,
{
}

/// A task waits a minute after its first failure, twice as long after each
/// further one, and never longer than an hour.
pub proof fn law_each_failure_doubles_the_wait(n: u32)
    requires
        1 <= n < u32::MAX,
    ensures
        retry_seconds(0) == 60,
        retry_seconds(1) == 60,
        retry_seconds((n + 1) as u32) <= 3600,
        2 * retry_seconds(n) <= 3600 ==> retry_seconds((n + 1) as u32) == 2 * retry_seconds(n),
        2 * retry_seconds(n) > 3600 ==> retry_seconds((n + 1) as u32) == 3600,
{
    law_retries_back_off(1, (n + 1) as u32);
}

/// A slice that was only paused is taken up again in a quarter of a second, and
/// one that finds the store locked at the next tick; neither counts as a
/// failure. A row is closed only where trying again cannot help, and else it is
/// tried again, with one failure more.
pub proof fn law_failures_are_counted_and_tried_again(
    before: BackgroundSchedulerState,
    after: BackgroundSchedulerState,
    kind: BackgroundTaskKind,
    manual: bool,
    error: Seq<char>,
    facts: FailureFacts,
    now: i64,
    result: SliceAction,
)
    requires
        before.failure_settled(after, kind, manual, error, facts, now, result),
        now <= i64::MAX - 4_000_000,
    ensures
        background_policy::tells_pause(error) ==> result is Defer && result->until_ms == now + 250
            && !result->Defer_noted,
        !background_policy::tells_pause(error) && text::holds_text(
            text::lower_ascii(error),
            "auth_required"@,
        ) ==> result is Defer && result->until_ms == now + 2000 && result->Defer_noted,
        result is Fail ==> {
            ||| kind == BackgroundTaskKind::AnnBuild && facts.ann_circuit_open
            ||| kind == BackgroundTaskKind::SmartCluster && (facts.scoring matches Some(verdict)
                && verdict.terminal)
            ||| (kind == BackgroundTaskKind::SemanticIndex || kind == BackgroundTaskKind::ClipIndex)
                && facts.deterministic_worker_failure
        },
        result is Fail ==> (facts.failure_count matches Some(n) ==> n < u32::MAX
            ==> result->Fail_failures == n + 1),
        result is Retry ==> {
            &&& facts.failure_count is None ==> result->Retry_failures == 1
            &&& facts.failure_count matches Some(n) ==> n < u32::MAX ==> result->Retry_failures == n
                + 1
            &&& kind != BackgroundTaskKind::AnnBuild || facts.ann_retry_at_ms is None
                ==> result->retry_at_ms == now + 1000 * retry_seconds(result->Retry_failures)
                && result->retry_at_ms >= now + 60_000
            &&& kind == BackgroundTaskKind::AnnBuild && facts.ann_retry_at_ms is Some
                ==> result->retry_at_ms == facts.ann_retry_at_ms->0
        },
        result is Defer || result is Fail || result is Retry,
        result is Retry && result->Retry_noted ==> says(after.blocked_reason, Some("retry_wait"@)),
{
    law_retries_back_off(facts.failures(), facts.failures());
}

/// The service numbers go on above all that were given: the highest is at least
/// the one that was known and that of every row, and is one of them.
pub proof fn law_service_numbers_go_on(tasks: Seq<BackgroundTaskState>, floor: u64)
    ensures
        highest_seq(tasks, floor) >= floor,
        forall|i: int|
            0 <= i < tasks.len() ==> (#[trigger] tasks[i]).last_served_seq <= highest_seq(
                tasks,
                floor,
            ),
        highest_seq(tasks, floor) == floor || exists|i: int|
            0 <= i < tasks.len() && (#[trigger] tasks[i]).last_served_seq == highest_seq(
                tasks,
                floor,
            ),
    decreases tasks.len(),
{
    if tasks.len() > 0 {
        let rest = tasks.drop_last();
        law_service_numbers_go_on(rest, floor);
        let high = highest_seq(tasks, floor);
        assert forall|i: int| 0 <= i < tasks.len() implies (#[trigger] tasks[i]).last_served_seq
            <= high by {
            if i < rest.len() {
                assert(rest[i].last_served_seq <= highest_seq(rest, floor));
            }
        }
        if high != floor {
            if high == tasks.last().last_served_seq {
                assert(tasks[tasks.len() - 1].last_served_seq == high);
            } else {
                let i = choose|i: int|
                    0 <= i < rest.len() && (#[trigger] rest[i]).last_served_seq == highest_seq(
                        rest,
                        floor,
                    );
                assert(tasks[i].last_served_seq == high);
            }
        }
    }
}

/// After a start every index and the graph have a row: what is made is what was
/// missing, once each.
pub proof fn law_missing_rows_are_made(tasks: Seq<BackgroundTaskState>, kind: Seq<char>)
    ensures
        kind == "semantic_index"@ || kind == "clip_index"@ || kind == "ann_build"@ ==> (
        missing_rows(tasks).contains(kind) <==> forall|i: int|
            0 <= i < tasks.len() ==> (#[trigger] tasks[i]).task_kind@ != kind),
        missing_rows(tasks).contains(kind) ==> kind == "semantic_index"@ || kind == "clip_index"@
            || kind == "ann_build"@,
{
    lemma_kind_names_differ();
    let rows = missing_rows(tasks);
    let a = if has_row(tasks, "semantic_index"@) {
        Seq::<Seq<char>>::empty()
    } else {
        seq!["semantic_index"@]
    };
    let b = if has_row(tasks, "clip_index"@) {
        a
    } else {
        a.push("clip_index"@)
    };
    if !has_row(tasks, "semantic_index"@) {
        assert(rows[0] == "semantic_index"@);
    }
    if !has_row(tasks, "clip_index"@) {
        assert(rows[a.len() as int] == "clip_index"@);
    }
    if !has_row(tasks, "ann_build"@) {
        assert(rows[b.len() as int] == "ann_build"@);
    }
}

proof fn lemma_kind_names_differ()
    ensures
        "semantic_index"@ != "clip_index"@,
        "semantic_index"@ != "ann_build"@,
        "clip_index"@ != "ann_build"@,
{
    reveal_strlit("semantic_index");
    reveal_strlit("clip_index");
    reveal_strlit("ann_build");
    assert("semantic_index"@.len() == 14 && "clip_index"@.len() == 10 && "ann_build"@.len() == 9);
}

/// A row that waits for another try, has failed or is parked is told of, with
/// the reason; a row that waits for its turn, runs or is done is not.
pub proof fn law_waiting_rows_are_told_of(tasks: Seq<BackgroundTaskState>, i: int)
    requires
        0 <= i < tasks.len(),
    ensures
        tasks[i].status@ == "retry_wait"@ ==> inactive_tasks(tasks).contains(
            (tasks[i].task_kind@, "retry_wait"@),
        ),
        tasks[i].status@ == "failed"@ ==> inactive_tasks(tasks).contains(
            (tasks[i].task_kind@, "failed"@),
        ),
        tasks[i].status@ == "parked"@ ==> inactive_tasks(tasks).contains(
            (tasks[i].task_kind@, "disabled"@),
        ),
        inactive_tasks(tasks).len() <= tasks.len(),
        (forall|j: int|
            0 <= j < tasks.len() ==> (#[trigger] tasks[j]).status@ != "retry_wait"@
                && tasks[j].status@ != "failed"@ && tasks[j].status@ != "parked"@)
            ==> inactive_tasks(tasks).len() == 0,
    decreases tasks.len(),
{
    reveal_strlit("retry_wait");
    reveal_strlit("failed");
    reveal_strlit("parked");
    assert("retry_wait"@.len() == 10 && "failed"@.len() == 6 && "failed"@[0] == 'f');
    assert("parked"@.len() == 6 && "parked"@[0] == 'p');
    let rest = tasks.drop_last();
    let before = inactive_tasks(rest);
    let all = inactive_tasks(tasks);
    if rest.len() > 0 {
        if i < rest.len() {
            law_waiting_rows_are_told_of(rest, i);
            assert(rest[i] == tasks[i]);
        } else {
            law_waiting_rows_are_told_of(rest, 0);
        }
    }
    assert forall|entry: (Seq<char>, Seq<char>)| #[trigger] before.contains(entry) implies all.contains(
    entry) by {
        let k = choose|k: int| 0 <= k < before.len() && before[k] == entry;
        assert(all[k] == entry);
    }
    if i == rest.len() && inactive_reason(tasks.last().status@) is Some {
        assert(all[all.len() - 1] == (tasks[i].task_kind@, inactive_reason(tasks[i].status@)->0));
    }
    if forall|j: int|
        0 <= j < tasks.len() ==> (#[trigger] tasks[j]).status@ != "retry_wait"@ && tasks[j].status@
            != "failed"@ && tasks[j].status@ != "parked"@ {
        assert(tasks[tasks.len() - 1].status@ != "retry_wait"@);
        assert forall|j: int| 0 <= j < rest.len() implies (#[trigger] rest[j]).status@
            != "retry_wait"@ && rest[j].status@ != "failed"@ && rest[j].status@ != "parked"@ by {
            assert(rest[j] == tasks[j]);
        }
    }
}

/// Neither side starves: of four automatic turns in a row with staged records
/// and an open archive, exactly one goes to the archive. Requests, and work
/// while the archive is locked, always go to the staged records.
pub proof fn law_the_archive_gets_every_fourth_turn(seq: u64)
    requires
        seq <= u64::MAX - 3,
    ensures
        ({
            let archive = |k: int|
                if staged_first((seq + k) as u64, true, false, true) {
                    0int
                } else {
                    1
                };
            archive(0) + archive(1) + archive(2) + archive(3) == 1
        }),
        staged_first(seq, true, true, true),
        staged_first(seq, true, false, false),
        !staged_first(seq, false, true, false),
        !staged_first(seq, false, false, true),
{
}

/// The time of the next try that is shown is that of the row that is tried
/// first: one that waits has it, and none that waits is earlier.
pub proof fn law_the_next_try_is_shown(
    tasks: Seq<BackgroundTaskState>,
    manual_only: bool,
    at: Option<i64>,
    i: int,
)
    requires
        earliest_retry(tasks, manual_only, at),
        0 <= i < tasks.len(),
        tasks[i].status@ == "retry_wait"@,
        manual_only ==> tasks[i].manual_pending,
    ensures
        at is Some,
        at->0 <= tasks[i].next_attempt_at_ms,
{
    assert(awaits_retry(tasks[i], manual_only));
}

/// Work is pending while some row waits for its turn, runs, or waits for another
/// try.
pub proof fn law_waiting_rows_are_pending(tasks: Seq<BackgroundTaskState>, i: int)
    ensures
        0 <= i < tasks.len() && (tasks[i].status@ == "queued"@ || tasks[i].status@ == "running"@
            || tasks[i].status@ == "retry_wait"@) ==> some_pending(tasks),
        (forall|j: int|
            0 <= j < tasks.len() ==> (#[trigger] tasks[j]).status@ != "queued"@ && tasks[j].status@
                != "running"@ && tasks[j].status@ != "retry_wait"@) ==> !some_pending(tasks),
{
}

/// The failures that are known of a kind are those of its row.
pub proof fn law_failures_are_those_of_the_row(
    tasks: Seq<BackgroundTaskState>,
    kind: Seq<char>,
    count: Option<u32>,
    i: int,
)
    requires
        failures_known(tasks, kind, count),
        0 <= i < tasks.len(),
        tasks[i].task_kind@ == kind,
        forall|j: int| 0 <= j < tasks.len() && j != i ==> (#[trigger] tasks[j]).task_kind@ != kind,
    ensures
        count == Some(tasks[i].failure_count),
{
    assert(has_row(tasks, kind));
}

/// A request of the user that was stored ends an automatic slice that began
/// before it, whatever else holds; an automatic row ends none.
pub proof fn law_requests_end_automatic_slices(
    before: BackgroundSchedulerState,
    after: BackgroundSchedulerState,
    stored: Result<(), String>,
    manual: bool,
    result: Result<(), String>,
    slice: background_scheduler::AutomaticSliceContext,
    external_waiting: bool,
    made_progress: bool,
    now: u64,
)
    requires
        BackgroundSchedulerState::enqueued(before, after, stored, manual, result),
        slice.manual_generation_at_admission == before.manual_request_generation,
    ensures
        stored is Ok && manual ==> slice.stopped_by(
            after.manual_request_generation,
            external_waiting,
            made_progress,
            now,
        ) == Some(background_scheduler::AutomaticSliceStopReason::ManualRequestPending),
        stored is Ok && manual ==> after.blocked_reason is None,
        stored is Err || !manual ==> after == before,
        result is Ok <==> stored is Ok,
{
}

/// A pass that is admitted gets the next service number; one that is blocked
/// says why and uses none up. Automatic work gives way to a request that waits
/// for the worker, work that was asked for does not.
pub proof fn law_passes_are_numbered(
    before: BackgroundSchedulerState,
    after: BackgroundSchedulerState,
    manual: bool,
    external_waiting: bool,
    gate: Option<&'static str>,
    result: PassAdmission,
)
    requires
        BackgroundSchedulerState::pass_admitted(
            before,
            after,
            manual,
            external_waiting,
            gate,
            result,
        ),
    ensures
        result is Admitted <==> gate is None && (manual || !external_waiting),
        result is Admitted ==> result->seq == before.service_seq + 1 && after.service_seq
            == result->seq && after.blocked_reason is None,
        result is Blocked ==> after.service_seq == before.service_seq && after.blocked_reason
            is Some,
        manual && gate is Some ==> result is Blocked && result->Blocked_reason@ == gate->0@,
{
}

} // verus!
