//! The scheduler's adaptive side: it hands out leases, watches the one that is
//! held, and keeps the account of what operations cost.
use crate::background_policy::{
    AdmissionSignals, CostKey, CostSample, ExecutionLease, ExecutionProfile, PauseStatistics,
    PerformanceBook, Qualification, ResourcePolicy, SchedulingMode, CPU_RATE_PERCENT, SHORT_IDLE_SECS,
};
use crate::background_resources::ProcessUsage;
use crate::background_scheduler::{
    BackgroundTaskKind, TASK_ANN_BUILD, TASK_CLIP_INDEX, TASK_SEMANTIC_INDEX, TASK_SMART_CLUSTER,
};
use crate::names::NameSet;
use crate::{background_policy, text};
use vstd::prelude::*;
use vstd::string::*;

verus! {

/// The slice that runs under a lease.
#[derive(Debug)]
pub struct ActiveExecution {
    pub lease: ExecutionLease,
    pub staged: bool,
    pub db_generation: u64,
    pub manual_generation: u64,
    pub additional_peak: u64,
    pub disk: bool,
}

/// What the scheduler knows of the machine, of costs and of the running slice.
#[derive(Debug)]
pub struct AdaptiveRuntime {
    pub resources: ResourcePolicy,
    pub book: Option<PerformanceBook>,
    pub active: Option<ActiveExecution>,
    pub pauses: PauseStatistics,
    pub dirty: bool,
    pub waiting_for_idle: NameSet,
}

impl Default for AdaptiveRuntime {
    fn default() -> (result: Self)
        ensures
            result.wf(),
            result.resources == (ResourcePolicy {
                latest: background_policy::no_reading(),
                low_since: None,
                disk_low_since: None,
                stable_since: None,
                cooldown_until: 0,
                busy_core_samples: 0,
                saturated_core_samples: 0,
                slow_disk_samples: 0,
            }),
            result.book is None,
            result.active is None,
            result.pauses.total == 0,
            result.pauses.last_yield_ms is None,
            forall|n: Seq<char>| #[trigger] result.pauses.reasons.of(n) == 0,
            !result.dirty,
            forall|n: Seq<char>| !#[trigger] result.waiting_for_idle.has(n),
    {
        AdaptiveRuntime {
            resources: ResourcePolicy::default(),
            book: None,
            active: None,
            pauses: PauseStatistics::default(),
            dirty: false,
            waiting_for_idle: NameSet::new(),
        }
    }
}

/// What is known of the application when work asks to run.
#[derive(Debug, Clone, Copy)]
pub struct ApplicationFacts {
    pub enabled: bool,
    pub background_authorized: bool,
    pub ac_connected: bool,
    pub fullscreen_exclusive: bool,
    pub game_mode_paused: bool,
    pub acceleration_suppressed: bool,
    pub maintenance: bool,
    pub foreground_waiting: bool,
    pub idle_secs: u64,
}

/// The signals that decide on running. Staged work needs no authorization of
/// its own while processing is switched on.
pub open spec fn signals_of(facts: ApplicationFacts, staged: bool) -> AdmissionSignals {
    AdmissionSignals {
        enabled: facts.enabled,
        authorized: facts.background_authorized || (staged && facts.enabled),
        ac_connected: facts.ac_connected,
        protected_session: facts.fullscreen_exclusive || facts.game_mode_paused
            || facts.acceleration_suppressed,
        maintenance: facts.maintenance,
        foreground: facts.foreground_waiting,
        idle_secs: facts.idle_secs,
    }
}

/// The signals that decide on running.
pub fn signals(facts: &ApplicationFacts, staged: bool) -> (result: AdmissionSignals)
    ensures
        result == signals_of(*facts, staged),
{
    AdmissionSignals {
        enabled: facts.enabled,
        authorized: facts.background_authorized || (staged && facts.enabled),
        ac_connected: facts.ac_connected,
        protected_session: facts.fullscreen_exclusive || facts.game_mode_paused
            || facts.acceleration_suppressed,
        maintenance: facts.maintenance,
        foreground: facts.foreground_waiting,
        idle_secs: facts.idle_secs,
    }
}

/// The configured mode, where the setting holds one.
pub fn configured_mode(setting: Option<String>) -> (result: SchedulingMode)
    ensures
        result == if setting is Some && setting->0@ == "idle_only"@ {
            SchedulingMode::IdleOnly
        } else {
            SchedulingMode::Auto
        },
{
    proof {
        reveal_strlit("auto");
        reveal_strlit("idle_only");
        assert("auto"@.len() != "idle_only"@.len());
    }
    match setting {
        Some(value) => match SchedulingMode::parse(&value) {
            Ok(mode) => mode,
            Err(_) => SchedulingMode::default(),
        },
        None => SchedulingMode::default(),
    }
}

/// What the watch over the running slice reads.
#[derive(Debug, Clone, Copy)]
pub struct WatchFacts {
    pub application: ApplicationFacts,
    pub db_generation: u64,
    pub manual_generation: u64,
    pub external_waiting: bool,
    pub mode: SchedulingMode,
}

impl ActiveExecution {
    /// Why the slice has to give its lease back, if it has to.
    pub open spec fn interruption(
        self,
        facts: WatchFacts,
        resources: ResourcePolicy,
        now: u64,
    ) -> Option<Seq<char>> {
        let signals = signals_of(facts.application, self.staged);
        if signals.hard_reason() is Some {
            signals.hard_reason()
        } else if facts.db_generation != self.db_generation {
            Some("database_changed"@)
        } else if facts.manual_generation != self.manual_generation {
            Some("manual_request_pending"@)
        } else if facts.external_waiting {
            Some("external_background_request"@)
        } else if self.lease.profile == ExecutionProfile::Idle && signals.idle_secs
            < SHORT_IDLE_SECS {
            Some("input_resumed"@)
        } else if self.lease.profile == ExecutionProfile::Background {
            if facts.mode == SchedulingMode::IdleOnly {
                Some("waiting_for_idle"@)
            } else {
                resources.retain_reason(now, self.additional_peak, self.disk)
            }
        } else {
            None
        }
    }

    fn interrupted_by(
        &self,
        facts: &WatchFacts,
        resources: &ResourcePolicy,
        now: u64,
    ) -> (result: Option<&'static str>)
        ensures
            background_policy::shown(result) == self.interruption(*facts, *resources, now),
    {
        let signals = signals(&facts.application, self.staged);
        match signals.hard_gate() {
            Some(reason) => {
                return Some(reason);
            },
            None => {},
        }
        if facts.db_generation != self.db_generation {
            return Some("database_changed");
        }
        if facts.manual_generation != self.manual_generation {
            return Some("manual_request_pending");
        }
        if facts.external_waiting {
            return Some("external_background_request");
        }
        if self.lease.profile == ExecutionProfile::Idle && signals.idle_secs < SHORT_IDLE_SECS {
            return Some("input_resumed");
        }
        if self.lease.profile == ExecutionProfile::Background {
            if facts.mode == SchedulingMode::IdleOnly {
                return Some("waiting_for_idle");
            }
            return resources.retain(now, self.additional_peak, self.disk);
        }
        None
    }
}

/// A pause for one of these reasons came from the machine.
pub open spec fn is_pressure(reason: Seq<char>) -> bool {
    reason == "waiting_for_memory"@ || reason == "waiting_for_disk"@ || reason
        == "resource_pressure"@
}

/// After a pause for one of these reasons the task waits for an idle machine.
pub open spec fn asks_idle(reason: Seq<char>) -> bool {
    reason == "waiting_for_evaluation"@ || reason == "waiting_for_resident_model"@ || reason
        == "cost_overrun"@ || reason == "waiting_for_idle"@
}

/// The policy after a slice that ended for this reason.
pub open spec fn settled(resources: ResourcePolicy, reason: Seq<char>, now: u64) -> ResourcePolicy {
    let calmed = if is_pressure(reason) {
        ResourcePolicy {
            cooldown_until: if resources.cooldown_until < background_policy::later(now, 15_000) {
                background_policy::later(now, 15_000)
            } else {
                resources.cooldown_until
            },
            low_since: None,
            disk_low_since: None,
            ..resources
        }
    } else {
        resources
    };
    ResourcePolicy { stable_since: None, ..calmed }
}

impl AdaptiveRuntime {
    /// What every operation keeps.
    pub open spec fn wf(&self) -> bool {
        &&& self.resources.wf()
        &&& self.book matches Some(book) ==> book.wf()
        &&& self.pauses.countable()
    }

    /// The task has proved itself.
    pub open spec fn qualified(&self, kind: BackgroundTaskKind) -> bool {
        self.book is Some && self.book->0.task_qualified(kind.name())
    }

    /// The profile that the task gets, or why it gets none.
    pub open spec fn verdict(
        &self,
        kind: BackgroundTaskKind,
        signals: AdmissionSignals,
        mode: SchedulingMode,
        now: u64,
    ) -> Result<ExecutionProfile, Seq<char>> {
        if signals.idle_secs < SHORT_IDLE_SECS && self.waiting_for_idle.has(kind.name()) {
            match signals.hard_reason() {
                Some(reason) => Err(reason),
                None => Err("waiting_for_evaluation"@),
            }
        } else {
            background_policy::profile_for(
                signals,
                mode,
                self.qualified(kind),
                self.resources,
                now,
            )
        }
    }

    /// Nothing but the set of waiting tasks differs, and that only by tasks
    /// that an idle machine let go.
    pub open spec fn asked(
        &self,
        before: Self,
        kind: BackgroundTaskKind,
        idle_secs: u64,
    ) -> bool {
        &&& *self == (AdaptiveRuntime { waiting_for_idle: self.waiting_for_idle, ..before })
        &&& forall|n: Seq<char>| #[trigger]
            self.waiting_for_idle.has(n) == (before.waiting_for_idle.has(n) && !(idle_secs
                >= SHORT_IDLE_SECS && n == kind.name()))
    }

    /// Takes the lease of the running slice back.
    pub fn cancel_active(&mut self, reason: &'static str, now: u64)
        ensures
            *final(self) == (AdaptiveRuntime { active: final(self).active, ..*old(self) }),
            final(self).active == match old(self).active {
                Some(active) => Some(
                    ActiveExecution { lease: active.lease.revoked(reason, now), ..active },
                ),
                None => None,
            },
    {
        match self.active.take() {
            Some(mut active) => {
                active.lease.revoke(reason, now);
                self.active = Some(active);
            },
            None => {},
        }
    }

    /// The profile that the task gets, or why it gets none.
    pub fn admission(
        &mut self,
        kind: BackgroundTaskKind,
        signals: AdmissionSignals,
        mode: SchedulingMode,
        now: u64,
    ) -> (result: Result<ExecutionProfile, &'static str>)
        requires
            old(self).wf(),
        ensures
            final(self).wf(),
            final(self).asked(*old(self), kind, signals.idle_secs),
            match result {
                Ok(profile) => old(self).verdict(kind, signals, mode, now) == Ok::<
                    ExecutionProfile,
                    Seq<char>,
                >(profile),
                Err(reason) => old(self).verdict(kind, signals, mode, now) == Err::<
                    ExecutionProfile,
                    Seq<char>,
                >(reason@),
            },
    {
        if signals.idle_secs >= SHORT_IDLE_SECS {
            self.waiting_for_idle.remove(kind.as_str());
        } else if self.waiting_for_idle.contains(kind.as_str()) {
            return match signals.hard_gate() {
                Some(reason) => Err(reason),
                None => Err("waiting_for_evaluation"),
            };
        }
        let qualified = match &self.book {
            Some(book) => book.task_eligible(kind.as_str()),
            None => false,
        };
        background_policy::choose_profile(signals, mode, qualified, &self.resources, now)
    }

    /// Whether a slice begins, and with what.
    pub open spec fn begun(
        before: Self,
        after: Self,
        kind: BackgroundTaskKind,
        staged: bool,
        generations: (u64, u64),
        signals: AdmissionSignals,
        mode: SchedulingMode,
        now: u64,
        result: Result<(), &'static str>,
    ) -> bool {
        &&& after.wf()
        &&& match result {
            Err(reason) => {
                &&& before.verdict(kind, signals, mode, now) == Err::<
                    ExecutionProfile,
                    Seq<char>,
                >(reason@)
                &&& after.asked(before, kind, signals.idle_secs)
            },
            Ok(_) => {
                let background = after.active->0.lease.profile
                    == ExecutionProfile::Background;
                &&& after.active is Some
                &&& before.verdict(kind, signals, mode, now) == Ok::<
                    ExecutionProfile,
                    Seq<char>,
                >(after.active->0.lease.profile)
                &&& after.active->0 == (ActiveExecution {
                    lease: after.active->0.lease,
                    staged,
                    db_generation: generations.0,
                    manual_generation: generations.1,
                    additional_peak: 0,
                    disk: false,
                })
                &&& after.active->0.lease.task@ == kind.name()
                &&& after.active->0.lease.revoked_for is None
                &&& after.active->0.lease.revoked_at is None
                &&& after.active->0.lease.unit_deadline is None
                &&& after.active->0.lease.cpu_micros == 0
                &&& after.active->0.lease.duty_percent == if background {
                    before.resources.duty(now)
                } else {
                    100
                }
                &&& after.resources == (ResourcePolicy {
                    stable_since: if background {
                        Some(before.resources.run_start(now))
                    } else {
                        None
                    },
                    ..before.resources
                })
                &&& (AdaptiveRuntime {
                    active: before.active,
                    resources: before.resources,
                    ..after
                }).asked(before, kind, signals.idle_secs)
            },
        }
    }

    /// Gives the task a lease, or tells why it gets none.
    pub fn begin(
        &mut self,
        kind: BackgroundTaskKind,
        staged: bool,
        generations: (u64, u64),
        signals: AdmissionSignals,
        mode: SchedulingMode,
        now: u64,
    ) -> (result: Result<(), &'static str>)
        requires
            old(self).wf(),
            background_policy::since(now, old(self).resources.run_start(now)) / 60_000
                <= 429_496_727,
        ensures
            Self::begun(
                *old(self),
                *final(self),
                kind,
                staged,
                generations,
                signals,
                mode,
                now,
                result,
            ),
    {
        match self.admission(kind, signals, mode, now) {
            Err(reason) => Err(reason),
            Ok(profile) => {
                let duty: u32 = if profile == ExecutionProfile::Background {
                    self.resources.duty_percent(now)
                } else {
                    self.resources.reset_duty();
                    100
                };
                self.active = Some(
                    ActiveExecution {
                        lease: ExecutionLease::new(kind.as_str(), profile, duty),
                        staged,
                        db_generation: generations.0,
                        manual_generation: generations.1,
                        additional_peak: 0,
                        disk: false,
                    },
                );
                Ok(())
            },
        }
    }

    /// What watching does to the work that is going on.
    pub open spec fn polled(before: Self, after: Self, facts: &WatchFacts, now: u64) -> bool {
        &&& after == (AdaptiveRuntime { active: after.active, ..before })
        &&& match before.active {
            None => after.active is None,
            Some(active) => match active.interruption(*facts, before.resources, now) {
                None => after.active == Some(active),
                Some(why) => after.active is Some && exists|reason: &'static str|
                    #![trigger active.lease.revoked(reason, now)]
                    reason@ == why && after.active->0 == (ActiveExecution {
                        lease: active.lease.revoked(reason, now),
                        ..active
                    }),
            },
        }
    }

    /// Looks at the running slice, and takes its lease back where something
    /// speaks against it.
    pub fn poll_active(&mut self, facts: &WatchFacts, now: u64)
        ensures
            Self::polled(*old(self), *final(self), facts, now),
    {
        match self.active.take() {
            Some(mut active) => {
                match active.interrupted_by(facts, &self.resources, now) {
                    Some(reason) => {
                        active.lease.revoke(reason, now);
                    },
                    None => {},
                }
                self.active = Some(active);
            },
            None => {},
        }
    }

    /// What the end of a slice leaves behind.
    pub open spec fn ended(before: Self, after: Self, now: u64) -> bool {
        &&& after.active is None
        &&& after.book == before.book
        &&& after.dirty == before.dirty
        &&& after.resources.wf()
        &&& ({
            let ended = if before.active is Some {
                before.active->0.lease.revoked_for
            } else {
                None
            };
            match ended {
                None => {
                    &&& after.resources == before.resources
                    &&& after.pauses == before.pauses
                    &&& after.waiting_for_idle == before.waiting_for_idle
                },
                Some(reason) => {
                    &&& after.resources == settled(before.resources, reason@, now)
                    &&& after.pauses.total == before.pauses.total + 1
                    &&& after.pauses.last_yield_ms == match before.active->0.lease.revoked_at {
                        Some(at) => Some(background_policy::since(now, at) as u64),
                        None => None,
                    }
                    &&& forall|n: Seq<char>| #[trigger]
                        after.pauses.reasons.of(n) == before.pauses.reasons.of(n)
                            + if n == reason@ {
                            1int
                        } else {
                            0
                        }
                    &&& forall|n: Seq<char>| #[trigger]
                        after.waiting_for_idle.has(n) == (before.waiting_for_idle.has(
                            n,
                        ) || (asks_idle(reason@) && n == before.active->0.lease.task@))
                },
            }
        })
    }

    /// The slice is over. A lease that was taken back is put down as a pause.
    pub fn finish(&mut self, now: u64)
        requires
            old(self).wf(),
        ensures
            Self::ended(*old(self), *final(self), now),
    {
        match self.active.take() {
            Some(active) => match active.lease.reason() {
                Some(reason) => {
                    if text::same(reason, "waiting_for_memory") || text::same(
                        reason,
                        "waiting_for_disk",
                    ) || text::same(reason, "resource_pressure") {
                        self.resources.defer_after_pressure(now);
                    }
                    if text::same(reason, "waiting_for_evaluation") || text::same(
                        reason,
                        "waiting_for_resident_model",
                    ) || text::same(reason, "cost_overrun") || text::same(
                        reason,
                        "waiting_for_idle",
                    ) {
                        self.waiting_for_idle.insert(&active.lease.task);
                    }
                    self.resources.reset_duty();
                    self.pauses.note(reason, active.lease.yield_latency_ms(now));
                },
                None => {},
            },
            None => {},
        }
    }

    /// Under which profile work runs.
    pub fn profile(&self, manual: bool) -> (result: ExecutionProfile)
        ensures
            result == if manual {
                ExecutionProfile::Manual
            } else {
                match self.active {
                    Some(active) => active.lease.profile,
                    None => ExecutionProfile::Paused,
                }
            },
    {
        if manual {
            ExecutionProfile::Manual
        } else {
            match &self.active {
                Some(active) => active.lease.profile,
                None => ExecutionProfile::Paused,
            }
        }
    }

    /// The memory that the operation may take besides, with the model that has
    /// to be loaded for it.
    pub open spec fn expected_peak(&self, key: background_policy::KeyModel, cold: bool) -> u64 {
        match self.book {
            None => 0,
            Some(book) => {
                let own = peak_in(book.model(), key);
                let load = peak_in(book.model(), cold_key(key));
                if !cold {
                    own
                } else if own + load > u64::MAX {
                    u64::MAX
                } else {
                    (own + load) as u64
                }
            },
        }
    }

    /// Why the operation may not run beside the user, if it may not.
    pub open spec fn operation_reason(
        &self,
        key: background_policy::KeyModel,
        cold: bool,
        disk: bool,
        now: u64,
    ) -> Option<Seq<char>> {
        if !(self.book is Some && qualified_in(self.book->0.model(), key)) {
            Some("waiting_for_evaluation"@)
        } else if cold && !qualified_in(self.book->0.model(), cold_key(key)) {
            Some("waiting_for_resident_model"@)
        } else {
            self.resources.admit_reason(now, self.expected_peak(key, cold), disk || cold)
        }
    }

    fn peak_for(&self, key: &CostKey, cold: bool) -> (result: u64)
        ensures
            result == self.expected_peak(key@, cold),
    {
        match &self.book {
            None => 0,
            Some(book) => {
                let own: u64 = book.additional_peak(key);
                if cold {
                    own.saturating_add(book.additional_peak(&key.cold()))
                } else {
                    own
                }
            },
        }
    }

    fn operation_blocked(&self, key: &CostKey, cold: bool, disk: bool, now: u64) -> (result: Option<
        &'static str,
    >)
        requires
            self.wf(),
        ensures
            background_policy::shown(result) == self.operation_reason(key@, cold, disk, now),
    {
        let eligible = match &self.book {
            Some(book) => book.eligible(key),
            None => false,
        };
        if !eligible {
            return Some("waiting_for_evaluation");
        }
        if cold {
            let loadable = match &self.book {
                Some(book) => book.eligible(&key.cold()),
                None => false,
            };
            if !loadable {
                return Some("waiting_for_resident_model");
            }
        }
        self.resources.admission(now, self.peak_for(key, cold), disk || cold)
    }

    /// Whether an operation of the slice may run.
    pub open spec fn operation_admitted(
        before: Self,
        after: Self,
        key: &CostKey,
        cold: bool,
        disk: bool,
        now: u64,
        result: Result<(), String>,
    ) -> bool {
        &&& after.wf()
        &&& after == (AdaptiveRuntime { active: after.active, ..before })
        &&& match before.active {
            None => after.active is None && result is Ok,
            Some(active) => {
                let late = active.lease.overdue(now);
                let lease = if late {
                    active.lease.revoked("cost_overrun", now)
                } else {
                    active.lease
                };
                let background = active.lease.profile == ExecutionProfile::Background;
                let reason = if background {
                    before.operation_reason(key@, cold, disk, now)
                } else {
                    None
                };
                &&& after.active is Some
                &&& match result {
                    Err(e) => {
                        &&& lease.revoked_for is Some || reason is Some
                        &&& after.active->0.lease.revoked_for is Some
                        &&& e@ == "background_paused: "@
                            + after.active->0.lease.revoked_for->0@
                        &&& if lease.revoked_for is Some {
                            after.active->0 == (ActiveExecution { lease, ..active })
                        } else {
                            exists|why: &'static str|
                                #![trigger active.lease.revoked(why, now)]
                                why@ == reason->0 && after.active->0 == (
                                ActiveExecution {
                                    lease: active.lease.revoked(why, now),
                                    ..active
                                })
                        }
                    },
                    Ok(_) => {
                        &&& lease.revoked_for is None
                        &&& reason is None
                        &&& after.active->0 == (ActiveExecution {
                            lease: ExecutionLease {
                                unit_deadline: if background && cold
                                    && lease.unit_deadline is Some {
                                    Some((lease.unit_deadline->0 + 1000) as u64)
                                } else {
                                    lease.unit_deadline
                                },
                                ..lease
                            },
                            additional_peak: before.expected_peak(key@, cold),
                            disk: disk || cold,
                            ..active
                        })
                    },
                }
            },
        }
    }

    /// Lets an operation of the running slice begin, or takes the lease back
    /// and tells the pause. Work without a lease is not held up.
    pub fn admit_operation(&mut self, key: &CostKey, cold: bool, disk: bool, now: u64) -> (result:
        Result<(), String>)
        requires
            old(self).wf(),
            old(self).active matches Some(active) ==> (active.lease.unit_deadline matches Some(at)
                ==> at + 1000 <= u64::MAX),
        ensures
            Self::operation_admitted(*old(self), *final(self), key, cold, disk, now, result),
    {
        let mut active = match self.active.take() {
            None => {
                return Ok(());
            },
            Some(active) => active,
        };
        match active.lease.check(now) {
            Err(e) => {
                self.active = Some(active);
                return Err(e);
            },
            Ok(_) => {},
        }
        let peak: u64 = self.peak_for(key, cold);
        if active.lease.profile == ExecutionProfile::Background {
            match self.operation_blocked(key, cold, disk, now) {
                Some(reason) => {
                    let ghost lease = active.lease;
                    active.lease.revoke(reason, now);
                    assert(active.lease == lease.revoked(reason, now));
                    let refused = active.lease.check(now);
                    self.active = Some(active);
                    return refused;
                },
                None => {},
            }
            if cold {
                active.lease.allow_cold_load();
            }
        }
        active.additional_peak = peak;
        active.disk = disk || cold;
        self.active = Some(active);
        Ok(())
    }

    /// The key of an operation of the running slice.
    pub fn operation_key(&self, operation: &str, model: &str, size: u64, parameters: &str) -> (result:
        Option<CostKey>)
        ensures
            match (self.active, result) {
                (Some(active), Some(key)) => key@ == (background_policy::KeyModel {
                    task: active.lease.task@,
                    operation: operation@,
                    model: model@,
                    input_bucket: background_policy::bucket(size),
                    parameters: parameters@,
                }),
                (None, None) => true,
                _ => false,
            },
    {
        match &self.active {
            Some(active) => Some(
                CostKey::new(&active.lease.task, operation, model, size, parameters),
            ),
            None => None,
        }
    }

    /// The deadline of a unit beside the user: one second from now.
    pub fn start_unit(&mut self, now: u64)
        requires
            now + 1000 <= u64::MAX,
        ensures
            *final(self) == (AdaptiveRuntime { active: final(self).active, ..*old(self) }),
            final(self).active == match old(self).active {
                Some(active) => Some(
                    if active.lease.profile == ExecutionProfile::Background {
                        ActiveExecution {
                            lease: ExecutionLease {
                                unit_deadline: Some((now + 1000) as u64),
                                ..active.lease
                            },
                            ..active
                        }
                    } else {
                        active
                    },
                ),
                None => None,
            },
    {
        match self.active.take() {
            Some(mut active) => {
                if active.lease.profile == ExecutionProfile::Background {
                    active.lease.limit_unit(Some(1000), now);
                }
                self.active = Some(active);
            },
            None => {},
        }
    }

    /// Puts a measurement down.
    pub fn record_cost(&mut self, key: CostKey, sample: CostSample, profile: ExecutionProfile)
        requires
            old(self).wf(),
            old(self).book matches Some(book) ==> book.countable(),
        ensures
            final(self).wf(),
            *final(self) == (AdaptiveRuntime {
                book: final(self).book,
                dirty: final(self).dirty,
                ..*old(self)
            }),
            match old(self).book {
                None => final(self).book is None && final(self).dirty == old(self).dirty,
                Some(book) => {
                    &&& final(self).dirty
                    &&& final(self).book is Some
                    &&& final(self).book->0.environment == book.environment
                    &&& final(self).book->0.model() == background_policy::with_sample(
                        book.model(),
                        key@,
                        sample,
                        profile,
                    )
                },
            },
    {
        match self.book.take() {
            Some(mut book) => {
                book.record(key, sample, profile);
                self.book = Some(book);
                self.dirty = true;
            },
            None => {},
        }
    }

    /// Takes the qualification of an operation away.
    pub fn revoke_cost(&mut self, key: &CostKey)
        requires
            old(self).wf(),
            old(self).book matches Some(book) ==> book.countable(),
        ensures
            final(self).wf(),
            *final(self) == (AdaptiveRuntime {
                book: final(self).book,
                dirty: final(self).dirty,
                ..*old(self)
            }),
            match old(self).book {
                None => final(self).book is None && final(self).dirty == old(self).dirty,
                Some(book) => {
                    let at = background_policy::find_key(book.model(), key@);
                    &&& final(self).dirty
                    &&& final(self).book is Some
                    &&& final(self).book->0.environment == book.environment
                    &&& final(self).book->0.model() == if at < book.model().len() {
                        book.model().update(at, (key@, book.model()[at].1.dropped()))
                    } else {
                        book.model()
                    }
                },
            },
    {
        match self.book.take() {
            Some(mut book) => {
                book.revoke(key);
                self.book = Some(book);
                self.dirty = true;
            },
            None => {},
        }
    }

    /// The list tells of each task whether it has proved itself.
    pub open spec fn summed_up(&self, list: Seq<(&'static str, bool)>) -> bool {
        &&& list.len() == 4
        &&& list[0].0@ == "semantic_index"@
        &&& list[0].1 == self.qualified(BackgroundTaskKind::SemanticIndex)
        &&& list[1].0@ == "clip_index"@
        &&& list[1].1 == self.qualified(BackgroundTaskKind::ClipIndex)
        &&& list[2].0@ == "smart_cluster"@
        &&& list[2].1 == self.qualified(BackgroundTaskKind::SmartCluster)
        &&& list[3].0@ == "ann_build"@
        &&& list[3].1 == self.qualified(BackgroundTaskKind::AnnBuild)
    }

    /// How every operation stands; none does without a book.
    pub fn qualifications(&self) -> (result: Vec<Qualification>)
        requires
            self.wf(),
        ensures
            match self.book {
                Some(book) => background_policy::told_of(book.model(), result@),
                None => result@.len() == 0,
            },
    {
        match &self.book {
            Some(book) => book.qualifications(),
            None => Vec::new(),
        }
    }

    /// Which tasks have proved themselves.
    pub fn qualification_summary(&self) -> (result: Vec<(&'static str, bool)>)
        requires
            self.wf(),
        ensures
            self.summed_up(result@),
    {
        let mut result: Vec<(&'static str, bool)> = Vec::new();
        match &self.book {
            Some(book) => {
                result.push((TASK_SEMANTIC_INDEX, book.task_eligible(TASK_SEMANTIC_INDEX)));
                result.push((TASK_CLIP_INDEX, book.task_eligible(TASK_CLIP_INDEX)));
                result.push((TASK_SMART_CLUSTER, book.task_eligible(TASK_SMART_CLUSTER)));
                result.push((TASK_ANN_BUILD, book.task_eligible(TASK_ANN_BUILD)));
            },
            None => {
                result.push((TASK_SEMANTIC_INDEX, false));
                result.push((TASK_CLIP_INDEX, false));
                result.push((TASK_SMART_CLUSTER, false));
                result.push((TASK_ANN_BUILD, false));
            },
        }
        result
    }

    /// The history has to be written. It counts as written from now on.
    pub fn take_dirty(&mut self) -> (result: bool)
        ensures
            result == old(self).dirty,
            *final(self) == (AdaptiveRuntime { dirty: false, ..*old(self) }),
    {
        let dirty = self.dirty;
        self.dirty = false;
        dirty
    }

    /// The history was to be written. After a write that failed it still has to
    /// be.
    pub fn flushed(&mut self, failed: bool)
        ensures
            *final(self) == (AdaptiveRuntime { dirty: old(self).dirty || failed, ..*old(self) }),
    {
        if failed {
            self.dirty = true;
        }
    }

    /// A unit of the running slice is over: one that took too long loses its
    /// qualification, and the deadline is lifted.
    pub fn finish_unit(&mut self, key: &CostKey)
        requires
            old(self).wf(),
            old(self).book matches Some(book) ==> book.countable(),
        ensures
            final(self).wf(),
            final(self).active == match old(self).active {
                Some(active) => Some(
                    ActiveExecution {
                        lease: ExecutionLease { unit_deadline: None, ..active.lease },
                        ..active
                    },
                ),
                None => None,
            },
            final(self).resources == old(self).resources,
            final(self).pauses == old(self).pauses,
            final(self).waiting_for_idle == old(self).waiting_for_idle,
            ({
                let overran = old(self).active is Some && old(
                    self,
                ).active->0.lease.revoked_for is Some && old(
                    self,
                ).active->0.lease.revoked_for->0@ == "cost_overrun"@;
                if overran && old(self).book is Some {
                    let before = old(self).book->0.model();
                    let at = background_policy::find_key(before, key@);
                    &&& final(self).dirty
                    &&& final(self).book is Some
                    &&& final(self).book->0.environment == old(self).book->0.environment
                    &&& final(self).book->0.model() == if at < before.len() {
                        before.update(at, (key@, before[at].1.dropped()))
                    } else {
                        before
                    }
                } else {
                    final(self).book == old(self).book && final(self).dirty == old(self).dirty
                }
            }),
    {
        match self.active.take() {
            Some(mut active) => {
                let overran = match active.lease.reason() {
                    Some(reason) => text::same(reason, "cost_overrun"),
                    None => false,
                };
                if overran {
                    self.revoke_cost(key);
                }
                active.lease.limit_unit(None, 0);
                self.active = Some(active);
            },
            None => {},
        }
    }
}

/// The key of loading the model of an operation.
pub open spec fn cold_key(key: background_policy::KeyModel) -> background_policy::KeyModel {
    background_policy::KeyModel { operation: "cold_load"@, input_bucket: 1, ..key }
}

/// The operation has proved itself in this book.
pub open spec fn qualified_in(
    book: Seq<(background_policy::KeyModel, background_policy::HistoryModel)>,
    key: background_policy::KeyModel,
) -> bool {
    match background_policy::history_of(book, key) {
        Some(history) => history.qualifies(key.operation == "cold_load"@),
        None => false,
    }
}

/// The most additional memory that the operation was seen to take.
pub open spec fn peak_in(
    book: Seq<(background_policy::KeyModel, background_policy::HistoryModel)>,
    key: background_policy::KeyModel,
) -> u64 {
    match background_policy::history_of(book, key) {
        Some(history) => background_policy::largest(
            background_policy::extra_peaks(history.samples),
        ),
        None => 0,
    }
}

/// The measurement of a unit between two readings of the process. The times
/// are given as bit patterns.
pub fn unit_sample(before: ProcessUsage, after: ProcessUsage, elapsed_ms: u64, cpu_ms: u64) -> (result:
    CostSample)
    ensures
        ({
            let advanced = after.peak_private_bytes > before.peak_private_bytes;
            let reached = if advanced {
                after.peak_private_bytes
            } else {
                after.private_bytes
            };
            result == (CostSample {
                elapsed_ms,
                cpu_ms,
                peak_private_bytes: if advanced {
                    after.peak_private_bytes
                } else if after.private_bytes < before.private_bytes {
                    before.private_bytes
                } else {
                    after.private_bytes
                },
                additional_peak_bytes: if reached < before.private_bytes {
                    0
                } else {
                    (reached - before.private_bytes) as u64
                },
                cpu_rate_percent: CPU_RATE_PERCENT,
            })
        }),
{
    let reached: u64 = after.peak_since(Some(before));
    CostSample {
        elapsed_ms,
        cpu_ms,
        peak_private_bytes: if after.peak_private_bytes > before.peak_private_bytes {
            after.peak_private_bytes
        } else if after.private_bytes < before.private_bytes {
            before.private_bytes
        } else {
            after.private_bytes
        },
        additional_peak_bytes: reached.saturating_sub(before.private_bytes),
        cpu_rate_percent: CPU_RATE_PERCENT,
    }
}

/// What a look of the watch does besides looking at the running slice.
#[derive(Debug, Clone, Copy, PartialEq, Eq, Structural)]
pub struct WatchDuties {
    /// The machine is measured.
    pub sample: bool,
    /// The history is written.
    pub flush: bool,
}

/// What a look of the watch does, by the times since the machine was measured
/// and since the history was written, in milliseconds: it is measured every
/// second, and written every half minute.
pub fn watch_duties(since_sample_ms: u64, since_flush_ms: u64) -> (result: WatchDuties)
    ensures
        result.sample == (since_sample_ms >= 1000),
        result.flush == (since_flush_ms >= 30_000),
{
    WatchDuties { sample: since_sample_ms >= 1000, flush: since_flush_ms >= 30_000 }
}

/// How long the watch sleeps between two looks, in milliseconds.
pub fn watch_interval_ms(pending: bool) -> (result: u64)
    ensures
        result == if pending {
            250u64
        } else {
            1000
        },
{
    if pending {
        250
    } else {
        1000
    }
}

/// While the machine is in use, a task that waits for an idle machine gets no
/// profile, whatever else holds.
pub proof fn law_waiting_tasks_stay_out(
    runtime: AdaptiveRuntime,
    kind: BackgroundTaskKind,
    signals: AdmissionSignals,
    mode: SchedulingMode,
    now: u64,
)
    requires
        runtime.waiting_for_idle.has(kind.name()),
        signals.idle_secs < SHORT_IDLE_SECS,
    ensures
        runtime.verdict(kind, signals, mode, now) is Err,
{
}

/// A slice that was stopped by pressure keeps work beside the user away until
/// the cooldown is over.
pub proof fn law_pressure_is_waited_out(
    resources: ResourcePolicy,
    reason: Seq<char>,
    now: u64,
    later: u64,
    peak: u64,
    disk: bool,
)
    requires
        is_pressure(reason),
        later < background_policy::later(now, 15_000),
    ensures
        settled(resources, reason, now).admit_reason(later, peak, disk) is Some,
{
}

/// Work is stopped exactly if something forbids it: the application does not
/// want it or is locked, on battery, covered by a full-screen program or a game,
/// under maintenance or asked for something; the store or the requests of the
/// user are no longer those it began with; another request waits; or, beside the
/// user, the machine is under pressure, and for an idle machine, the user is
/// back.
pub proof fn law_work_is_stopped_for_a_reason(
    active: ActiveExecution,
    facts: WatchFacts,
    resources: ResourcePolicy,
    now: u64,
)
    ensures
        active.interruption(facts, resources, now) is None <==> {
            let application = facts.application;
            &&& application.enabled
            &&& application.background_authorized || active.staged
            &&& application.ac_connected
            &&& !application.fullscreen_exclusive
            &&& !application.game_mode_paused
            &&& !application.acceleration_suppressed
            &&& !application.maintenance
            &&& !application.foreground_waiting
            &&& facts.db_generation == active.db_generation
            &&& facts.manual_generation == active.manual_generation
            &&& !facts.external_waiting
            &&& active.lease.profile == ExecutionProfile::Idle ==> application.idle_secs >= 60
            &&& active.lease.profile == ExecutionProfile::Background ==> facts.mode
                != SchedulingMode::IdleOnly && resources.retain_reason(
                now,
                active.additional_peak,
                active.disk,
            ) is None
        },
{
}

/// The reason that is given is one that holds: what the application forbids
/// comes first, then what changed since the work began.
pub proof fn law_the_reason_given_holds(
    active: ActiveExecution,
    facts: WatchFacts,
    resources: ResourcePolicy,
    now: u64,
)
    requires
        facts.application.enabled,
        facts.application.background_authorized,
        facts.application.ac_connected,
        !facts.application.fullscreen_exclusive,
        !facts.application.game_mode_paused,
        !facts.application.acceleration_suppressed,
        !facts.application.maintenance,
        !facts.application.foreground_waiting,
    ensures
        facts.db_generation != active.db_generation ==> active.interruption(facts, resources, now)
            == Some("database_changed"@),
        facts.db_generation == active.db_generation && facts.manual_generation
            != active.manual_generation ==> active.interruption(facts, resources, now) == Some(
            "manual_request_pending"@,
        ),
        facts.db_generation == active.db_generation && facts.manual_generation
            == active.manual_generation && facts.external_waiting ==> active.interruption(
            facts,
            resources,
            now,
        ) == Some("external_background_request"@),
{
}

/// A task that waits for an idle machine waits until it finds one: the machine
/// has been idle for a minute when it asks. Asking changes nothing for others.
pub proof fn law_an_idle_machine_ends_the_wait(
    after: AdaptiveRuntime,
    before: AdaptiveRuntime,
    kind: BackgroundTaskKind,
    idle_secs: u64,
    other: Seq<char>,
)
    requires
        after.asked(before, kind, idle_secs),
    ensures
        idle_secs >= 60 ==> !after.waiting_for_idle.has(kind.name()),
        idle_secs < 60 ==> after.waiting_for_idle.has(kind.name()) == before.waiting_for_idle.has(
            kind.name(),
        ),
        other != kind.name() ==> after.waiting_for_idle.has(other) == before.waiting_for_idle.has(
            other,
        ),
        after.resources == before.resources && after.book == before.book && after.active
            == before.active,
{
}

/// On an idle machine all work that nothing forbids is admitted; beside the user
/// only work that has proved itself, in a mode that allows it, on a calm
/// machine.
pub proof fn law_work_beside_the_user_has_proved_itself(
    runtime: AdaptiveRuntime,
    kind: BackgroundTaskKind,
    signals: AdmissionSignals,
    mode: SchedulingMode,
    now: u64,
)
    ensures
        signals.hard_reason() is None && signals.idle_secs >= 60 ==> runtime.verdict(
            kind,
            signals,
            mode,
            now,
        ) == Ok::<ExecutionProfile, Seq<char>>(ExecutionProfile::Idle),
        runtime.verdict(kind, signals, mode, now) == Ok::<ExecutionProfile, Seq<char>>(
            ExecutionProfile::Background,
        ) ==> {
            &&& signals.hard_reason() is None
            &&& signals.idle_secs < 60
            &&& mode != SchedulingMode::IdleOnly
            &&& !runtime.waiting_for_idle.has(kind.name())
            &&& runtime.book matches Some(book)
            &&& book.task_qualified(kind.name())
            &&& runtime.resources.admit_reason(now, 0, false) is None
        },
        signals.hard_reason() matches Some(reason) ==> runtime.verdict(kind, signals, mode, now)
            == Err::<ExecutionProfile, Seq<char>>(reason),
{
}

/// Pressure never shortens a cooldown, and makes it at least a quarter of a
/// minute from now; what else stops a slice leaves it as it is. Every stop begins
/// the count of steady time anew.
pub proof fn law_cooldowns_only_grow(resources: ResourcePolicy, reason: Seq<char>, now: u64)
    ensures
        settled(resources, reason, now).cooldown_until >= resources.cooldown_until,
        settled(resources, reason, now).stable_since is None,
        reason == "waiting_for_memory"@ || reason == "waiting_for_disk"@ || reason
            == "resource_pressure"@ ==> {
            let after = settled(resources, reason, now);
            &&& after.low_since is None
            &&& after.disk_low_since is None
            &&& now + 15_000 <= u64::MAX ==> after.cooldown_until >= now + 15_000
            &&& after.cooldown_until > resources.cooldown_until && now + 15_000 <= u64::MAX
                ==> after.cooldown_until == now + 15_000
        },
        reason != "waiting_for_memory"@ && reason != "waiting_for_disk"@ && reason
            != "resource_pressure"@ ==> {
            let after = settled(resources, reason, now);
            &&& after.cooldown_until == resources.cooldown_until
            &&& after.low_since == resources.low_since
            &&& after.disk_low_since == resources.disk_low_since
        },
{
}

/// An operation is admitted beside the user only if it has proved itself; where
/// its model has to be loaded first, loading it has too, the memory is asked for
/// both, and the disk has to be calm.
pub proof fn law_operations_have_proved_themselves(
    runtime: AdaptiveRuntime,
    key: background_policy::KeyModel,
    cold: bool,
    disk: bool,
    now: u64,
)
    requires
        runtime.operation_reason(key, cold, disk, now) is None,
        runtime.book matches Some(book) ==> book.wf(),
    ensures
        runtime.book matches Some(book) && qualified_in(book.model(), key),
        cold ==> qualified_in(
            runtime.book->0.model(),
            (background_policy::KeyModel { operation: "cold_load"@, input_bucket: 1, ..key }),
        ),
        cold || disk ==> runtime.resources.admit_reason(
            now,
            runtime.expected_peak(key, cold),
            true,
        ) is None,
        !cold && !disk ==> runtime.resources.admit_reason(
            now,
            peak_in(runtime.book->0.model(), key),
            false,
        ) is None,
        runtime.expected_peak(key, true) >= runtime.expected_peak(key, false),
{
}

/// Work that something forbids loses its lease at the next look, and work that
/// nothing forbids keeps it as it is.
pub proof fn law_forbidden_work_loses_its_lease(
    before: AdaptiveRuntime,
    after: AdaptiveRuntime,
    facts: &WatchFacts,
    now: u64,
)
    requires
        AdaptiveRuntime::polled(before, after, facts, now),
    ensures
        before.active is None ==> after.active is None,
        before.active matches Some(active) ==> {
            &&& active.interruption(*facts, before.resources, now) is None ==> after.active
                == before.active
            &&& active.interruption(*facts, before.resources, now) is Some ==> after.active is Some
                && after.active->0.lease.revoked_for is Some
        },
        after.resources == before.resources && after.book == before.book && after.pauses
            == before.pauses,
{
}

/// A slice that ran to its end leaves no trace. One that was stopped is counted,
/// under its reason, and only one that was stopped for want of proof, for its
/// cost or for an idle machine makes its task wait for one.
pub proof fn law_stopped_slices_are_counted(
    before: AdaptiveRuntime,
    after: AdaptiveRuntime,
    now: u64,
    other: Seq<char>,
)
    requires
        AdaptiveRuntime::ended(before, after, now),
    ensures
        after.active is None,
        before.active is None || before.active->0.lease.revoked_for is None ==> after.pauses
            == before.pauses && after.resources == before.resources && after.waiting_for_idle
            == before.waiting_for_idle,
        before.active is Some && before.active->0.lease.revoked_for is Some ==> {
            let reason = before.active->0.lease.revoked_for->0@;
            let task = before.active->0.lease.task@;
            &&& after.pauses.total == before.pauses.total + 1
            &&& after.pauses.reasons.of(reason) == before.pauses.reasons.of(reason) + 1
            &&& other != reason ==> after.pauses.reasons.of(other) == before.pauses.reasons.of(
                other,
            )
            &&& reason == "waiting_for_evaluation"@ || reason == "waiting_for_resident_model"@
                || reason == "cost_overrun"@ || reason == "waiting_for_idle"@
                ==> after.waiting_for_idle.has(task)
            &&& reason != "waiting_for_evaluation"@ && reason != "waiting_for_resident_model"@
                && reason != "cost_overrun"@ && reason != "waiting_for_idle"@ ==> (
            after.waiting_for_idle.has(task) <==> before.waiting_for_idle.has(task))
            &&& after.resources.stable_since is None
        },
{
}

/// A slice begins only with a profile that it was granted, and remembers the
/// store and the requests it began with; one that was refused changes nothing
/// that goes on.
pub proof fn law_slices_remember_how_they_began(
    before: AdaptiveRuntime,
    after: AdaptiveRuntime,
    kind: BackgroundTaskKind,
    staged: bool,
    generations: (u64, u64),
    signals: AdmissionSignals,
    mode: SchedulingMode,
    now: u64,
    result: Result<(), &'static str>,
)
    requires
        AdaptiveRuntime::begun(
            before,
            after,
            kind,
            staged,
            generations,
            signals,
            mode,
            now,
            result,
        ),
    ensures
        signals.hard_reason() is Some ==> result is Err,
        result is Ok ==> after.active is Some && after.active->0.db_generation == generations.0
            && after.active->0.manual_generation == generations.1 && after.active->0.staged
            == staged,
        result is Ok && signals.idle_secs >= 60 ==> after.active->0.lease.profile
            == ExecutionProfile::Idle,
        result is Err ==> after.active == before.active && after.book == before.book,
{
}

/// Beside the user an operation that has not proved itself, or for which the
/// machine is not calm enough, ends the slice; a slice whose lease was taken back
/// admits nothing.
pub proof fn law_unproved_operations_end_the_slice(
    before: AdaptiveRuntime,
    after: AdaptiveRuntime,
    key: &CostKey,
    cold: bool,
    disk: bool,
    now: u64,
    result: Result<(), String>,
)
    requires
        AdaptiveRuntime::operation_admitted(before, after, key, cold, disk, now, result),
    ensures
        before.active is None ==> result is Ok,
        before.active matches Some(active) ==> {
            &&& active.lease.revoked_for is Some ==> result is Err
            &&& active.lease.profile == ExecutionProfile::Background && before.operation_reason(
                key@,
                cold,
                disk,
                now,
            ) is Some ==> result is Err
            &&& result is Err ==> after.active is Some && after.active->0.lease.revoked_for is Some
        },
{
}

} // verus!
