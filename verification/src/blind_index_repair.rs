//! Repair of stale entries in the blind index.
use crate::text;
use vstd::prelude::*;
use vstd::string::*;

verus! {

/// How long the automatic repair waits before it looks again.
pub const RETRY_INTERVAL_MS: u64 = 1000;

/// The error of what has to wait for maintenance.
pub const MAINTENANCE_IN_PROGRESS: &'static str = "MAINTENANCE_IN_PROGRESS";

/// How a repair stands.
#[derive(Debug)]
pub struct BlindIndexRepairStatus {
    pub running: bool,
    pub phase: String,
    pub processed: u64,
    pub total: u64,
    pub changed_postings: u64,
    pub deleted_postings: u64,
    pub removed_ocr_ids: u64,
    pub failed: u64,
    pub last_error: Option<String>,
}

/// How far a repair is.
#[derive(Debug, Clone, Copy, PartialEq, Eq, Structural)]
pub struct BlindIndexRepairProgress {
    pub processed_postings: u64,
    pub total_postings: u64,
    pub changed_postings: u64,
    pub deleted_postings: u64,
    pub removed_ocr_ids: u64,
}

/// What a status tells.
pub struct StatusModel {
    pub running: bool,
    pub phase: Seq<char>,
    pub progress: BlindIndexRepairProgress,
    pub failed: u64,
    pub last_error: Option<Seq<char>>,
}

impl BlindIndexRepairStatus {
    /// What the status tells.
    pub open spec fn model(&self) -> StatusModel {
        StatusModel {
            running: self.running,
            phase: self.phase@,
            progress: BlindIndexRepairProgress {
                processed_postings: self.processed,
                total_postings: self.total,
                changed_postings: self.changed_postings,
                deleted_postings: self.deleted_postings,
                removed_ocr_ids: self.removed_ocr_ids,
            },
            failed: self.failed,
            last_error: match self.last_error {
                Some(e) => Some(e@),
                None => None,
            },
        }
    }

    fn of(running: bool, phase: &str, progress: BlindIndexRepairProgress) -> (result: Self)
        ensures
            result.model() == status(running, phase@, progress),
    {
        BlindIndexRepairStatus {
            running,
            phase: phase.to_owned(),
            processed: progress.processed_postings,
            total: progress.total_postings,
            changed_postings: progress.changed_postings,
            deleted_postings: progress.deleted_postings,
            removed_ocr_ids: progress.removed_ocr_ids,
            failed: 0,
            last_error: None,
        }
    }
}

/// A status without a failure.
pub open spec fn status(running: bool, phase: Seq<char>, progress: BlindIndexRepairProgress) -> StatusModel {
    StatusModel { running, phase, progress, failed: 0, last_error: None }
}

/// Nothing was done yet.
pub open spec fn no_progress() -> BlindIndexRepairProgress {
    BlindIndexRepairProgress {
        processed_postings: 0,
        total_postings: 0,
        changed_postings: 0,
        deleted_postings: 0,
        removed_ocr_ids: 0,
    }
}

fn nothing_done() -> (result: BlindIndexRepairProgress)
    ensures
        result == no_progress(),
{
    BlindIndexRepairProgress {
        processed_postings: 0,
        total_postings: 0,
        changed_postings: 0,
        deleted_postings: 0,
        removed_ocr_ids: 0,
    }
}

impl Default for BlindIndexRepairStatus {
    fn default() -> (result: Self)
        ensures
            result.model() == status(false, "idle"@, no_progress()),
    {
        BlindIndexRepairStatus::of(false, "idle", nothing_done())
    }
}

/// The repair, and how it stands.
#[derive(Debug)]
pub struct BlindIndexRepairState {
    pub running: bool,
    pub status: BlindIndexRepairStatus,
}

/// What a repair that is wanted comes to.
#[derive(Debug, Clone, Copy, PartialEq, Eq, Structural)]
pub enum RepairClaim {
    /// One is under way.
    Running,
    /// It may begin once maintenance was entered.
    Claimed,
}

impl Default for BlindIndexRepairState {
    fn default() -> (result: Self)
        ensures
            !result.running,
            result.status.model() == status(false, "idle"@, no_progress()),
    {
        BlindIndexRepairState::new()
    }
}

impl BlindIndexRepairState {
    pub fn new() -> (result: Self)
        ensures
            !result.running,
            result.status.model() == status(false, "idle"@, no_progress()),
    {
        BlindIndexRepairState { running: false, status: BlindIndexRepairStatus::default() }
    }

    /// How the repair stands.
    pub fn snapshot(&self) -> (result: BlindIndexRepairStatus)
        ensures
            result.model() == self.status.model(),
    {
        BlindIndexRepairStatus {
            running: self.status.running,
            phase: self.status.phase.clone(),
            processed: self.status.processed,
            total: self.status.total,
            changed_postings: self.status.changed_postings,
            deleted_postings: self.status.deleted_postings,
            removed_ocr_ids: self.status.removed_ocr_ids,
            failed: self.status.failed,
            last_error: match &self.status.last_error {
                Some(e) => Some(e.clone()),
                None => None,
            },
        }
    }

    /// Who repairs.
    pub open spec fn claim_made(before: Self, after: Self, result: RepairClaim) -> bool {
        &&& result == if before.running {
            RepairClaim::Running
        } else {
            RepairClaim::Claimed
        }
        &&& after.running
        &&& after.status == before.status
    }

    /// A repair is wanted. Only one runs at a time.
    pub fn claim(&mut self) -> (result: RepairClaim)
        ensures
            Self::claim_made(*old(self), *final(self), result),
    {
        if self.running {
            return RepairClaim::Running;
        }
        self.running = true;
        RepairClaim::Claimed
    }

    /// Whether the repair begins.
    pub open spec fn entry_made(
        before: Self,
        after: Self,
        free: bool,
        result: Result<BlindIndexRepairStatus, String>,
    ) -> bool {
        match result {
            Ok(shown) => {
                &&& free
                &&& after.running == before.running
                &&& after.status.model() == status(
                    true,
                    "scanning_valid_ocr"@,
                    no_progress(),
                )
                &&& shown.model() == after.status.model()
            },
            Err(e) => {
                &&& !free
                &&& e@ == MAINTENANCE_IN_PROGRESS@
                &&& !after.running
                &&& after.status == before.status
            },
        }
    }

    /// Maintenance was entered, or something else holds it: then the repair does
    /// not begin.
    pub fn entered(&mut self, free: bool) -> (result: Result<BlindIndexRepairStatus, String>)
        ensures
            Self::entry_made(*old(self), *final(self), free, result),
    {
        if !free {
            self.running = false;
            return Err(MAINTENANCE_IN_PROGRESS.to_owned());
        }
        self.status = BlindIndexRepairStatus::of(true, "scanning_valid_ocr", nothing_done());
        Ok(self.snapshot())
    }

    /// The repair tells how far it is.
    pub fn progressed(&mut self, progress: BlindIndexRepairProgress)
        ensures
            final(self).running == old(self).running,
            final(self).status.model() == status(true, "repairing_blind_index"@, progress),
    {
        self.status = BlindIndexRepairStatus::of(true, "repairing_blind_index", progress);
    }

    /// How the repair ended.
    pub open spec fn end_made(
        before: Self,
        after: Self,
        outcome: Result<BlindIndexRepairProgress, String>,
    ) -> bool {
        &&& !after.running
        &&& match outcome {
            Ok(summary) => after.status.model() == status(
                false,
                "completed"@,
                summary,
            ),
            Err(e) => after.status.model() == (StatusModel {
                running: false,
                phase: "failed"@,
                failed: 1,
                last_error: Some(e@),
                ..before.status.model()
            }),
        }
    }

    /// The repair is over.
    pub fn finished(&mut self, outcome: Result<BlindIndexRepairProgress, String>)
        ensures
            Self::end_made(*old(self), *final(self), outcome),
    {
        match outcome {
            Ok(summary) => {
                self.status = BlindIndexRepairStatus::of(false, "completed", summary);
            },
            Err(e) => {
                self.status.running = false;
                self.status.phase = "failed".to_owned();
                self.status.failed = 1;
                self.status.last_error = Some(e);
            },
        }
        self.running = false;
    }
}

/// The error of a repair whose task broke off.
pub fn task_error(error: &str) -> (result: String)
    ensures
        result@ == "Blind-index repair task failed: "@ + error@,
{
    text::join2("Blind-index repair task failed: ", error)
}

/// What the automatic repair does next.
#[derive(Debug, Clone, Copy, PartialEq, Eq, Structural)]
pub enum RepairStep {
    /// No more.
    Stop,
    /// It waits and looks again.
    Wait,
    /// It starts a repair.
    Start,
    /// It waits until the repair is over.
    Watch,
    /// It looks again.
    Look,
}

/// What the automatic repair does once it has looked whether one is needed.
pub fn after_look(needed: &Result<bool, String>, maintenance: bool) -> (result: RepairStep)
    ensures
        result == match needed {
            Ok(true) => if maintenance {
                RepairStep::Wait
            } else {
                RepairStep::Start
            },
            _ => RepairStep::Stop,
        },
{
    match needed {
        Ok(n) => if !*n {
            RepairStep::Stop
        } else if maintenance {
            RepairStep::Wait
        } else {
            RepairStep::Start
        },
        Err(_) => RepairStep::Stop,
    }
}

/// What the automatic repair does once it tried to start one.
pub fn after_start(started: &Result<(), String>) -> (result: RepairStep)
    ensures
        result == match started {
            Ok(_) => RepairStep::Watch,
            Err(e) => if e@ == MAINTENANCE_IN_PROGRESS@ {
                RepairStep::Wait
            } else {
                RepairStep::Stop
            },
        },
{
    match started {
        Ok(_) => RepairStep::Watch,
        Err(e) => if text::same(e, MAINTENANCE_IN_PROGRESS) {
            RepairStep::Wait
        } else {
            RepairStep::Stop
        },
    }
}

/// What the automatic repair does while one is watched.
pub fn while_watched(state: &BlindIndexRepairState) -> (result: RepairStep)
    ensures
        result == if state.running {
            RepairStep::Watch
        } else if state.status.failed > 0 {
            RepairStep::Stop
        } else {
            RepairStep::Look
        },
{
    if state.running {
        RepairStep::Watch
    } else if state.status.failed > 0 {
        RepairStep::Stop
    } else {
        RepairStep::Look
    }
}

/// There is one repair at a time: while one has the claim no other gets it, and
/// once it is over, or could not begin, the next one does.
pub proof fn law_one_repair_at_a_time(
    first: BlindIndexRepairState,
    second: BlindIndexRepairState,
    third: BlindIndexRepairState,
    fourth: BlindIndexRepairState,
    claim: RepairClaim,
    other: RepairClaim,
    entry: Result<BlindIndexRepairStatus, String>,
)
    requires
        BlindIndexRepairState::claim_made(first, second, claim),
        BlindIndexRepairState::claim_made(second, third, other),
        BlindIndexRepairState::entry_made(third, fourth, false, entry),
    ensures
        first.running <==> claim == RepairClaim::Running,
        other == RepairClaim::Running,
        !fourth.running,
        entry is Err,
        fourth.status == first.status,
{
}

/// A repair that is over shows what it did, and one that failed why, beside what
/// it had done; either way the next one may begin.
pub proof fn law_repairs_tell_how_they_ended(
    before: BlindIndexRepairState,
    after: BlindIndexRepairState,
    outcome: Result<BlindIndexRepairProgress, String>,
)
    requires
        BlindIndexRepairState::end_made(before, after, outcome),
    ensures
        !after.running,
        !after.status.running,
        outcome matches Ok(summary) ==> after.status.phase@ == "completed"@
            && after.status.processed == summary.processed_postings && after.status.changed_postings
            == summary.changed_postings && after.status.failed == 0 && after.status.last_error
            is None,
        outcome matches Err(e) ==> after.status.phase@ == "failed"@ && after.status.failed == 1
            && after.status.last_error is Some && after.status.last_error->0@ == e@
            && after.status.processed == before.status.processed,
{
    assert(!after.status.model().running);
    assert(after.status.model().phase == after.status.phase@);
    assert(after.status.model().progress.processed_postings == after.status.processed);
    assert(after.status.model().progress.changed_postings == after.status.changed_postings);
    assert(before.status.model().progress.processed_postings == before.status.processed);
}

} // verus!
