//! Indexing of captured images.
//!
//! Each pass claims jobs from the ledger, reads and encodes their images and
//! commits the vectors. The ledger, the store and the encoder are outside; what
//! a pass may do, and what becomes of each job, is decided here.
use crate::clip_contract::{
    clip_job_spec, ORPHAN_DOCUMENT_ID, RUN_FAILED, SCREENSHOT_DISAPPEARED, SNAPSHOT_ROW_MISSING,
};
use crate::derived::{DerivedIndexJobSpec, DerivedIndexKind};
use crate::prepared_pixels::DecodedImage;
use crate::timestamps::{Moment, DATABASE_FORMAT};
use crate::{background_policy, clip_contract, digest, text, timestamps};
use vstd::prelude::*;
use vstd::string::*;
use vstd::utf8::*;

verus! {

/// How often the machine is asked whether it is idle, in seconds.
pub const POLL_INTERVAL_SECS: u64 = 60;

/// Jobs claimed for one pass.
pub const DRAIN_BATCH: usize = 8;

/// Images given to the encoder at once.
pub const ENCODE_CHUNK: usize = 1;

/// Attempts before a job is given up.
pub const MAX_ATTEMPTS: u32 = 5;

pub const RETRY_BACKOFF_MINUTES: i64 = 30;

/// How long one image may take, in seconds.
pub const EMBED_TIMEOUT_SECS: u64 = 180;

/// Rows examined in one repair.
pub const MAINTENANCE_BATCH: u32 = 256;

/// How far back an automatic repair looks.
pub const REPAIR_SCAN_WINDOW: &'static str = "-7 days";

/// How long a run that was asked for waits for a query, in milliseconds.
pub const MANUAL_FOREGROUND_WAIT_BUDGET_MS: u64 = 300_000;

pub const FOREGROUND_POLL_MS: u64 = 250;

pub const FOREGROUND_QUERY_STOP: &'static str = "foreground_query";

pub const WAITED_OUT_BY_FOREGROUND: &'static str = "foreground_query_held_the_worker";

pub const STOPPED_BY_USER: &'static str = "stopped_by_user";

pub const MAINTENANCE_STARTED: &'static str = "maintenance_started";

pub const CLIP_INDEX_PROGRESS_EVENT: &'static str = "clip-index-progress";

pub const EMPTY_SOURCE_CODE: &'static str = "empty_source";

pub const EMPTY_SOURCE_REASON: &'static str =
    "no screenshot sharing this image hash has any OCR text, so Python would not have indexed it";

pub const BACKFILL_APPROVED: &'static str = "approved";

pub const BACKFILL_DECLINED: &'static str = "declined";

/// How often a run that was asked for repeats the repair at most.
pub const MAX_REPAIR_PASSES: usize = 4096;

/// What encoding an image takes, in microseconds, besides its size.
pub const ENCODE_FIXED_MICROS: u64 = 150_000;

/// The size that is assumed for images whose size is not known: 1920 by 1080.
pub const ASSUMED_PIXELS: u64 = 2_073_600;

/// What is done about the image of a new capture.
#[derive(Debug)]
pub enum EnqueuePlan {
    /// Nothing: it has no hash.
    Nothing,
    /// A job is put down for it.
    Ensure { spec: DerivedIndexJobSpec },
    /// It is put down as left out.
    Exclude { spec: DerivedIndexJobSpec, code: &'static str, reason: &'static str },
}

/// The job of this image.
pub open spec fn is_job_of(spec: DerivedIndexJobSpec, image_hash: Seq<char>) -> bool {
    &&& spec.index_kind == DerivedIndexKind::ClipImage
    &&& spec.subject_key@ == image_hash
    &&& spec.model_id@ == clip_contract::CLIP_MODEL_ID@
    &&& spec.model_revision@ == clip_contract::CLIP_VECTOR_SPACE_REVISION@
    &&& spec.embedding_version == clip_contract::CLIP_EMBEDDING_VERSION
    &&& spec.source_fingerprint@ == digest::hex_text(
        digest::sha256_of(clip_contract::fingerprint_prefix() + encode_utf8(image_hash)),
    )
}

/// What is done about the image of a new capture.
pub open spec fn enqueued(image_hash: &str, has_text: bool, result: EnqueuePlan) -> bool {
    match result {
        EnqueuePlan::Nothing => image_hash@.len() == 0,
        EnqueuePlan::Ensure { spec } => image_hash@.len() > 0 && has_text && is_job_of(
            spec,
            image_hash@,
        ),
        EnqueuePlan::Exclude { spec, code, reason } => {
            &&& image_hash@.len() > 0
            &&& !has_text
            &&& is_job_of(spec, image_hash@)
            &&& code@ == EMPTY_SOURCE_CODE@
            &&& reason@ == EMPTY_SOURCE_REASON@
        },
    }
}

/// What is done about the image of a new capture: only images with text belong
/// to the index.
pub fn enqueue_captured_screenshot(image_hash: &str, has_text: bool) -> (result: EnqueuePlan)
    ensures
        enqueued(image_hash, has_text, result),
{
    if text::chars_of(image_hash).len() == 0 {
        return EnqueuePlan::Nothing;
    }
    let spec = clip_job_spec(image_hash);
    if has_text {
        EnqueuePlan::Ensure { spec }
    } else {
        EnqueuePlan::Exclude { spec, code: EMPTY_SOURCE_CODE, reason: EMPTY_SOURCE_REASON }
    }
}

/// The screenshot has text that is not blank.
pub open spec fn has_words(texts: Seq<(i64, String)>, id: i64) -> bool {
    exists|i: int|
        0 <= i < texts.len() && (#[trigger] texts[i]).0 == id && text::trimmed(
            texts[i].1@,
        ).len() > 0
}

/// The screenshot that stands for an image: the first of those that share it
/// that has text.
pub open spec fn representative_of(ids: Seq<i64>, texts: Seq<(i64, String)>) -> Option<i64>
    decreases ids.len(),
{
    if ids.len() == 0 {
        None
    } else if has_words(texts, ids[0]) {
        Some(ids[0])
    } else {
        representative_of(ids.drop_first(), texts)
    }
}

/// The images that belong to the index, each with the screenshot that stands
/// for it.
pub open spec fn indexable_of(shared: Seq<(String, Vec<i64>)>, texts: Seq<(i64, String)>) -> Seq<
    (Seq<char>, i64),
>
    decreases shared.len(),
{
    if shared.len() == 0 {
        Seq::empty()
    } else {
        let rest = indexable_of(shared.drop_last(), texts);
        match representative_of(shared.last().1@, texts) {
            Some(id) => rest.push((shared.last().0@, id)),
            None => rest,
        }
    }
}

/// Images with their screenshots.
pub open spec fn image_views(list: Seq<(String, i64)>) -> Seq<(Seq<char>, i64)> {
    list.map_values(|entry: (String, i64)| (entry.0@, entry.1))
}

fn carries_words(texts: &[(i64, String)], id: i64) -> (result: bool)
    ensures
        result == has_words(texts@, id),
{
    let mut i: usize = 0;
    while i < texts.len()
        invariant
            i <= texts@.len(),
            forall|j: int|
                0 <= j < i ==> !((#[trigger] texts@[j]).0 == id && text::trimmed(
                    texts@[j].1@,
                ).len() > 0),
        decreases texts@.len() - i,
    {
        if texts[i].0 == id && text::chars_of(&text::trim(&texts[i].1)).len() > 0 {
            return true;
        }
        i = i + 1;
    }
    false
}

/// The screenshot that stands for an image, among those that share it, the
/// newest first.
pub fn representative(ids: &[i64], texts: &[(i64, String)]) -> (result: Option<i64>)
    ensures
        result == representative_of(ids@, texts@),
{
    let mut i: usize = 0;
    assert(ids@.skip(0) =~= ids@);
    while i < ids.len()
        invariant
            i <= ids@.len(),
            representative_of(ids@, texts@) == representative_of(ids@.skip(i as int), texts@),
        decreases ids@.len() - i,
    {
        assert(ids@.skip(i as int)[0] == ids@[i as int]);
        assert(ids@.skip(i as int).drop_first() =~= ids@.skip(i + 1));
        if carries_words(texts, ids[i]) {
            return Some(ids[i]);
        }
        i = i + 1;
    }
    None
}

/// The images that belong to the index, each with the screenshot that stands
/// for it. `shared` lists the screenshots of each image, the newest first.
pub fn indexable_hashes(shared: &[(String, Vec<i64>)], texts: &[(i64, String)]) -> (result: Vec<
    (String, i64),
>)
    ensures
        image_views(result@) == indexable_of(shared@, texts@),
{
    let mut result: Vec<(String, i64)> = Vec::new();
    let mut n: usize = 0;
    assert(shared@.take(0) =~= Seq::<(String, Vec<i64>)>::empty());
    assert(image_views(result@) =~= Seq::<(Seq<char>, i64)>::empty());
    while n < shared.len()
        invariant
            n <= shared@.len(),
            image_views(result@) == indexable_of(shared@.take(n as int), texts@),
        decreases shared@.len() - n,
    {
        let ghost before = image_views(result@);
        assert(shared@.take(n + 1).drop_last() =~= shared@.take(n as int));
        assert(shared@.take(n + 1).last() == shared@[n as int]);
        match representative(&shared[n].1, texts) {
            Some(id) => {
                result.push((shared[n].0.clone(), id));
                assert(image_views(result@) =~= before.push((shared@[n as int].0@, id)));
            },
            None => {},
        }
        n = n + 1;
    }
    assert(shared@.take(shared@.len() as int) =~= shared@);
    result
}

#[derive(Debug, Clone, Copy, PartialEq, Eq, Structural)]
pub enum PassMode {
    Idle,
    Manual,
}

/// What came of a run that was asked for.
#[derive(Debug)]
pub struct ClipIndexRunSummary {
    pub started: bool,
    pub indexed: u64,
    pub failed: u64,
    pub remaining: Option<u64>,
    pub stalled: Option<u64>,
    pub skipped_reason: Option<String>,
}

/// How far a run has come.
#[derive(Debug, Clone, Copy, PartialEq, Eq, Structural)]
pub struct IndexRunProgress {
    pub running: bool,
    pub processed: u64,
    pub indexed: u64,
    pub total: u64,
}

/// The run that was asked for, if one goes on.
#[derive(Debug, Clone, Copy, PartialEq, Eq, Structural)]
pub struct ClipIndexRunState {
    pub running: bool,
    pub stop_requested: bool,
    pub processed: u64,
    pub indexed: u64,
    pub total: u64,
}

impl Default for ClipIndexRunState {
    fn default() -> (result: Self)
        ensures
            result == (ClipIndexRunState {
                running: false,
                stop_requested: false,
                processed: 0,
                indexed: 0,
                total: 0,
            }),
    {
        ClipIndexRunState {
            running: false,
            stop_requested: false,
            processed: 0,
            indexed: 0,
            total: 0,
        }
    }
}

impl ClipIndexRunState {
    /// The run is to stop after the image that is being encoded.
    pub fn request_stop(&mut self)
        ensures
            *final(self) == (ClipIndexRunState { stop_requested: true, ..*old(self) }),
    {
        self.stop_requested = true;
    }

    pub fn is_running(&self) -> (result: bool)
        ensures
            result == self.running,
    {
        self.running
    }

    pub fn stopped_by_user(&self) -> (result: bool)
        ensures
            result == self.stop_requested,
    {
        self.stop_requested
    }

    pub fn progress(&self) -> (result: IndexRunProgress)
        ensures
            result == (IndexRunProgress {
                running: self.running,
                processed: self.processed,
                indexed: self.indexed,
                total: self.total,
            }),
    {
        IndexRunProgress {
            running: self.running,
            processed: self.processed,
            indexed: self.indexed,
            total: self.total,
        }
    }

    /// A run begins.
    pub fn begin(&mut self)
        ensures
            *final(self) == (ClipIndexRunState {
                running: true,
                stop_requested: false,
                processed: 0,
                indexed: 0,
                total: 0,
            }),
    {
        self.running = true;
        self.stop_requested = false;
        self.processed = 0;
        self.indexed = 0;
        self.total = 0;
    }

    /// The run is over.
    pub fn end(&mut self)
        ensures
            *final(self) == (ClipIndexRunState { running: false, ..*old(self) }),
    {
        self.running = false;
    }

    /// Images were worked on.
    pub fn report_chunk(&mut self, processed: u64, indexed: u64)
        requires
            old(self).processed + processed <= u64::MAX,
            old(self).indexed + indexed <= u64::MAX,
        ensures
            *final(self) == (ClipIndexRunState {
                processed: (old(self).processed + processed) as u64,
                indexed: (old(self).indexed + indexed) as u64,
                ..*old(self)
            }),
    {
        self.processed = self.processed + processed;
        self.indexed = self.indexed + indexed;
    }

    /// Asks the run to stop; tells whether there was one.
    pub fn clip_index_stop_now(&mut self) -> (result: bool)
        ensures
            result == old(self).running,
            *final(self) == if result {
                ClipIndexRunState { stop_requested: true, ..*old(self) }
            } else {
                *old(self)
            },
    {
        if !self.running {
            return false;
        }
        self.request_stop();
        true
    }
}

/// What a pass reads of the application.
#[derive(Debug, Clone, Copy)]
pub struct PassFacts {
    pub maintenance: bool,
    pub idle: bool,
    pub foreground_waiting: bool,
    pub stop_requested: bool,
}

/// Work on the index may go on.
pub open spec fn runnable(mode: PassMode, facts: PassFacts) -> bool {
    !facts.maintenance && (mode == PassMode::Manual || facts.idle)
}

/// Work on the index may go on. Maintenance stops a run that was asked for too.
pub fn may_run(mode: PassMode, facts: PassFacts) -> (result: bool)
    ensures
        result == runnable(mode, facts),
{
    if facts.maintenance {
        return false;
    }
    mode == PassMode::Manual || facts.idle
}

/// What came of a pass.
#[derive(Debug, Clone, Copy)]
pub struct PassOutcome {
    pub indexed: u64,
    pub failed: u64,
    pub stopped_because: Option<&'static str>,
    pub refused: Option<&'static str>,
}

impl Default for PassOutcome {
    fn default() -> (result: Self)
        ensures
            result == (PassOutcome {
                indexed: 0,
                failed: 0,
                stopped_because: None,
                refused: None,
            }),
    {
        PassOutcome { indexed: 0, failed: 0, stopped_because: None, refused: None }
    }
}

impl PassOutcome {
    /// The pass was not begun, for this reason.
    pub fn refused(reason: &'static str) -> (result: Self)
        ensures
            result == (PassOutcome {
                indexed: 0,
                failed: 0,
                stopped_because: None,
                refused: Some(reason),
            }),
    {
        PassOutcome { indexed: 0, failed: 0, stopped_because: None, refused: Some(reason) }
    }

    /// After a pass that was neither refused nor stopped, the graph may be
    /// built anew.
    pub fn asks_rebuild(&self) -> (result: bool)
        ensures
            result == (self.refused is None && self.stopped_because is None),
    {
        self.refused.is_none() && self.stopped_because.is_none()
    }
}

/// How far back the repair may look.
#[derive(Debug, Clone, Copy, PartialEq, Eq, Structural)]
pub enum RepairScope {
    /// Not at all: an import is not finished, and what it has not reached looks
    /// like what was missed.
    Suspended,
    /// Recent captures.
    Recent,
    /// Everything. The user was told what it takes, and agreed.
    Full,
}

/// What is repaired.
pub open spec fn scoped(
    migration_settled: bool,
    decision: Option<&str>,
    result: RepairScope,
) -> bool {
    result == if !migration_settled {
        RepairScope::Suspended
    } else if decision is Some && decision->0@ == BACKFILL_APPROVED@ {
        RepairScope::Full
    } else {
        RepairScope::Recent
    }
}

/// How far back the repair may look, by the import and by the user's answer.
pub fn scope_from_state(migration_settled: bool, decision: Option<&str>) -> (result: RepairScope)
    ensures
        scoped(migration_settled, decision, result),
{
    if !migration_settled {
        return RepairScope::Suspended;
    }
    match decision {
        Some(answer) => if text::same(answer, BACKFILL_APPROVED) {
            RepairScope::Full
        } else {
            RepairScope::Recent
        },
        None => RepairScope::Recent,
    }
}

/// The age that the repair looks back to.
pub fn scan_window(scope: RepairScope) -> (result: Option<&'static str>)
    ensures
        background_policy::shown(result) == if scope == RepairScope::Full {
            None
        } else {
            Some("-7 days"@)
        },
{
    match scope {
        RepairScope::Full => None,
        RepairScope::Recent => Some(REPAIR_SCAN_WINDOW),
        RepairScope::Suspended => Some(REPAIR_SCAN_WINDOW),
    }
}

/// Why a pass is refused, if it is.
pub open spec fn refusal(mode: PassMode, facts: PassFacts, stood_aside: Option<Seq<char>>) -> Option<
    Seq<char>,
> {
    if !runnable(mode, facts) {
        Some(
            if mode == PassMode::Manual {
                "maintenance_in_progress"@
            } else {
                "not_idle"@
            },
        )
    } else if mode == PassMode::Idle {
        if facts.foreground_waiting {
            Some("foreground_query"@)
        } else {
            None
        }
    } else {
        stood_aside
    }
}

/// Why a pass is refused, if it is. `stood_aside` is what waiting for a query
/// came to, for a run that was asked for.
pub fn pass_refusal(mode: PassMode, facts: PassFacts, stood_aside: Option<&'static str>) -> (result:
    Option<&'static str>)
    ensures
        background_policy::shown(result) == refusal(
            mode,
            facts,
            background_policy::shown(stood_aside),
        ),
{
    if !may_run(mode, facts) {
        return Some(
            if mode == PassMode::Manual {
                "maintenance_in_progress"
            } else {
                "not_idle"
            },
        );
    }
    if mode == PassMode::Idle {
        if facts.foreground_waiting {
            Some(FOREGROUND_QUERY_STOP)
        } else {
            None
        }
    } else {
        stood_aside
    }
}

/// A locked session can only encode pixels that are held; without any the pass
/// is refused.
pub fn locked_refusal(session_valid: bool, has_prepared: bool) -> (result: Option<&'static str>)
    ensures
        background_policy::shown(result) == if !session_valid && !has_prepared {
            Some("session_locked"@)
        } else {
            None
        },
{
    if !session_valid && !has_prepared {
        Some("session_locked")
    } else {
        None
    }
}

/// A further repair follows.
pub fn repair_again(passes: usize, resolved: usize, stopped_by_user: bool) -> (result: bool)
    ensures
        result == (passes < MAX_REPAIR_PASSES && resolved != 0 && !stopped_by_user),
{
    passes < MAX_REPAIR_PASSES && resolved != 0 && !stopped_by_user
}

/// What waiting for a query comes to.
#[derive(Debug, Clone, Copy)]
pub enum StandAside {
    /// The encoder is free.
    Free,
    /// Waiting goes on.
    Wait,
    /// Waiting is given up, for this reason.
    GiveUp { reason: &'static str },
}

/// Whether a run waits for a query.
pub open spec fn stood_aside(facts: PassFacts, waited_ms: u64, result: StandAside) -> bool {
    match result {
        StandAside::Free => !facts.foreground_waiting,
        StandAside::Wait => facts.foreground_waiting && !facts.stop_requested
            && !facts.maintenance && waited_ms < 300_000,
        StandAside::GiveUp { reason } => {
            &&& facts.foreground_waiting
            &&& facts.stop_requested || facts.maintenance || waited_ms >= 300_000
            &&& reason@ == if facts.stop_requested {
                "stopped_by_user"@
            } else if facts.maintenance {
                "maintenance_started"@
            } else {
                "foreground_query_held_the_worker"@
            }
        },
    }
}

/// What waiting for a query comes to, after so many milliseconds.
pub fn stand_aside_for_foreground(facts: PassFacts, waited_ms: u64) -> (result: StandAside)
    ensures
        stood_aside(facts, waited_ms, result),
{
    if !facts.foreground_waiting {
        return StandAside::Free;
    }
    if facts.stop_requested {
        return StandAside::GiveUp { reason: STOPPED_BY_USER };
    }
    if facts.maintenance {
        return StandAside::GiveUp { reason: MAINTENANCE_STARTED };
    }
    if waited_ms >= MANUAL_FOREGROUND_WAIT_BUDGET_MS {
        return StandAside::GiveUp { reason: WAITED_OUT_BY_FOREGROUND };
    }
    StandAside::Wait
}

/// Why a pass stops before its next image, if it does.
pub open spec fn stop_before_next(mode: PassMode, facts: PassFacts) -> Option<Seq<char>> {
    if mode == PassMode::Manual && facts.stop_requested {
        Some("stopped_by_user"@)
    } else if !runnable(mode, facts) {
        Some(
            if mode == PassMode::Manual {
                "maintenance_started"@
            } else {
                "idle_lost"@
            },
        )
    } else if facts.foreground_waiting {
        Some("foreground_query"@)
    } else {
        None
    }
}

/// Why a pass stops before its next image, if it does.
pub fn drain_stop(mode: PassMode, facts: PassFacts) -> (result: Option<&'static str>)
    ensures
        background_policy::shown(result) == stop_before_next(mode, facts),
{
    if mode == PassMode::Manual && facts.stop_requested {
        Some(STOPPED_BY_USER)
    } else if !may_run(mode, facts) {
        Some(
            if mode == PassMode::Manual {
                MAINTENANCE_STARTED
            } else {
                "idle_lost"
            },
        )
    } else if facts.foreground_waiting {
        Some(FOREGROUND_QUERY_STOP)
    } else {
        None
    }
}

/// What a pass does next with the jobs that are left.
#[derive(Debug, Clone, Copy)]
pub enum DrainStep {
    /// The next so many jobs are encoded.
    Encode { count: usize },
    /// The jobs that are left are put back, for this reason.
    Release { reason: &'static str },
    /// No job is left.
    Done,
}

/// What a pass does next about the jobs that are left.
pub open spec fn drained_on(
    before: PassOutcome,
    after: PassOutcome,
    pending: usize,
    mode: PassMode,
    facts: PassFacts,
    result: DrainStep,
) -> bool {
    if pending == 0 {
        result is Done && after == before
    } else {
        match stop_before_next(mode, facts) {
            Some(why) => {
                &&& result is Release
                &&& result->reason@ == why
                &&& after == (PassOutcome {
                    stopped_because: Some(result->reason),
                    ..before
                })
            },
            None => result == (DrainStep::Encode { count: 1 }) && after == before,
        }
    }
}

/// What a pass does next with the jobs that are left.
pub fn drain_step(outcome: &mut PassOutcome, pending: usize, mode: PassMode, facts: PassFacts) -> (result:
    DrainStep)
    ensures
        drained_on(*old(outcome), *final(outcome), pending, mode, facts, result),
{
    if pending == 0 {
        return DrainStep::Done;
    }
    match drain_stop(mode, facts) {
        Some(reason) => {
            outcome.stopped_because = Some(reason);
            DrainStep::Release { reason }
        },
        None => DrainStep::Encode {
            count: if ENCODE_CHUNK < pending {
                ENCODE_CHUNK
            } else {
                pending
            },
        },
    }
}

/// A chunk was encoded, or failed. A failure ends the pass: what broke the
/// encoder would break every further chunk. Tells whether the pass goes on.
pub fn chunk_encoded(outcome: &mut PassOutcome, chunk_len: u64, encoded: Option<u64>) -> (result: bool)
    requires
        old(outcome).indexed + (if encoded is Some {
            encoded->0
        } else {
            0
        }) <= u64::MAX,
        old(outcome).failed + chunk_len <= u64::MAX,
    ensures
        result == (encoded is Some),
        *final(outcome) == match encoded {
            Some(n) => PassOutcome { indexed: (old(outcome).indexed + n) as u64, ..*old(outcome) },
            None => PassOutcome {
                failed: (old(outcome).failed + chunk_len) as u64,
                ..*old(outcome)
            },
        },
{
    match encoded {
        Some(n) => {
            outcome.indexed = outcome.indexed + n;
            true
        },
        None => {
            outcome.failed = outcome.failed + chunk_len;
            false
        },
    }
}

/// What a drained batch comes to. A run that was asked for ends with what it
/// has; an idle pass fails.
pub fn drain_result(outcome: PassOutcome, failure: Option<String>, mode: PassMode) -> (result: Result<
    PassOutcome,
    String,
>)
    ensures
        match failure {
            None => result == Ok::<PassOutcome, String>(outcome),
            Some(error) => if mode == PassMode::Manual {
                &&& result is Ok
                &&& result->Ok_0.stopped_because is Some
                &&& result->Ok_0.stopped_because->0@ == "encode_failed"@
                &&& result->Ok_0 == (PassOutcome {
                    stopped_because: result->Ok_0.stopped_because,
                    ..outcome
                })
            } else {
                result == Err::<PassOutcome, String>(error)
            },
        },
{
    match failure {
        None => Ok(outcome),
        Some(error) => if mode == PassMode::Manual {
            Ok(PassOutcome { stopped_because: Some("encode_failed"), ..outcome })
        } else {
            Err(error)
        },
    }
}

/// What follows a batch of a run that was asked for.
#[derive(Debug, Clone, Copy, PartialEq, Eq, Structural)]
pub enum DrainNext {
    /// A further batch.
    Again,
    /// A query took the encoder: it is waited for.
    StandAside,
    /// The run is over.
    Done,
}

/// What a run does after a batch, and what it has done so far.
pub open spec fn drained(
    before: PassOutcome,
    after: PassOutcome,
    batch: PassOutcome,
    result: DrainNext,
) -> bool {
    ({
        let queried = batch.stopped_because is Some && batch.stopped_because->0@
            == "foreground_query"@;
        let empty = batch.stopped_because is None && batch.indexed == 0 && batch.failed == 0;
        let ended = batch.stopped_because is Some && !queried;
        &&& result == if queried {
            DrainNext::StandAside
        } else if ended || empty {
            DrainNext::Done
        } else {
            DrainNext::Again
        }
        &&& after == (PassOutcome {
            indexed: (before.indexed + batch.indexed) as u64,
            failed: (before.failed + batch.failed) as u64,
            stopped_because: if ended {
                batch.stopped_because
            } else {
                before.stopped_because
            },
            ..before
        })
    })
}

/// Adds a batch to a run that was asked for, and tells what follows.
pub fn drain_until_done(total: &mut PassOutcome, batch: PassOutcome) -> (result: DrainNext)
    requires
        old(total).indexed + batch.indexed <= u64::MAX,
        old(total).failed + batch.failed <= u64::MAX,
    ensures
        drained(*old(total), *final(total), batch, result),
{
    total.indexed = total.indexed + batch.indexed;
    total.failed = total.failed + batch.failed;
    match batch.stopped_because {
        None => if batch.indexed == 0 && batch.failed == 0 {
            DrainNext::Done
        } else {
            DrainNext::Again
        },
        Some(reason) => if text::same(reason, FOREGROUND_QUERY_STOP) {
            DrainNext::StandAside
        } else {
            total.stopped_because = Some(reason);
            DrainNext::Done
        },
    }
}

/// Where an image lies in the body that is sent to the encoder.
#[derive(Debug, Clone, Copy, PartialEq, Eq, Structural)]
pub struct MlImageInput {
    pub width: u32,
    pub height: u32,
    pub stride: usize,
    pub offset: usize,
    pub body_len: usize,
}

/// The pixels of the images, one after the other.
pub open spec fn joined(images: Seq<DecodedImage>) -> Seq<u8>
    decreases images.len(),
{
    if images.len() == 0 {
        Seq::empty()
    } else {
        joined(images.drop_last()) + images.last().rgb@
    }
}

proof fn lemma_joined_grows(images: Seq<DecodedImage>, n: int)
    requires
        0 <= n <= images.len(),
    ensures
        joined(images.take(n)).len() <= joined(images).len(),
        joined(images).take(joined(images.take(n)).len() as int) == joined(images.take(n)),
    decreases images.len(),
{
    if n < images.len() {
        lemma_joined_grows(images.drop_last(), n);
        assert(images.drop_last().take(n) =~= images.take(n));
        let head = joined(images.drop_last());
        let k = joined(images.take(n)).len() as int;
        assert(joined(images).take(k) =~= head.take(k));
    } else {
        assert(images.take(n) =~= images);
        assert(joined(images).take(joined(images).len() as int) =~= joined(images));
    }
}

/// The body that is sent to the encoder, and where each image lies in it.
pub fn encode_body(images: &[DecodedImage]) -> (result: (Vec<MlImageInput>, Vec<u8>))
    requires
        joined(images@).len() <= usize::MAX,
        forall|i: int| 0 <= i < images@.len() ==> 3 * (#[trigger] images@[i]).width <= usize::MAX,
    ensures
        result.1@ == joined(images@),
        result.0@.len() == images@.len(),
        forall|i: int|
            0 <= i < images@.len() ==> {
                let input = #[trigger] result.0@[i];
                &&& input.width == images@[i].width
                &&& input.height == images@[i].height
                &&& input.stride == 3 * images@[i].width
                &&& input.offset == joined(images@.take(i)).len()
                &&& input.body_len == images@[i].rgb@.len()
                &&& result.1@.subrange(
                    input.offset as int,
                    input.offset + input.body_len,
                ) == images@[i].rgb@
            },
{
    let mut inputs: Vec<MlImageInput> = Vec::new();
    let mut body: Vec<u8> = Vec::new();
    let mut i: usize = 0;
    assert(images@.take(0) =~= Seq::<DecodedImage>::empty());
    while i < images.len()
        invariant
            i <= images@.len(),
            forall|k: int|
                0 <= k < images@.len() ==> 3 * (#[trigger] images@[k]).width <= usize::MAX,
            inputs@.len() == i,
            body@ == joined(images@.take(i as int)),
            forall|k: int|
                0 <= k < i ==> {
                    let input = #[trigger] inputs@[k];
                    &&& input.width == images@[k].width
                    &&& input.height == images@[k].height
                    &&& input.stride == 3 * images@[k].width
                    &&& input.offset == joined(images@.take(k)).len()
                    &&& input.body_len == images@[k].rgb@.len()
                },
        decreases images@.len() - i,
    {
        let image = &images[i];
        let width: usize = image.width as usize;
        let offset: usize = body.len();
        let body_len: usize = image.rgb.len();
        inputs.push(
            MlImageInput {
                width: image.width,
                height: image.height,
                stride: width * 3,
                offset,
                body_len,
            },
        );
        assert(images@.take(i + 1).drop_last() =~= images@.take(i as int));
        assert(images@.take(i + 1).last() == images@[i as int]);
        crate::codec::push_bytes(&mut body, image.rgb.as_slice());
        i = i + 1;
    }
    assert(images@.take(images@.len() as int) =~= images@);
    proof {
        assert forall|k: int| 0 <= k < images@.len() implies body@.subrange(
            (#[trigger] inputs@[k]).offset as int,
            inputs@[k].offset + inputs@[k].body_len,
        ) == images@[k].rgb@ by {
            lemma_joined_grows(images@, k);
            lemma_joined_grows(images@, k + 1);
            let before = images@.take(k);
            let with = images@.take(k + 1);
            assert(with.drop_last() =~= before);
            assert(with.last() == images@[k]);
            let a = joined(before).len() as int;
            let b = joined(with).len() as int;
            assert(joined(with) == joined(before) + images@[k].rgb@);
            assert(body@.subrange(a, b) =~= joined(with).subrange(a, b)) by {
                assert(body@.take(b) == joined(with));
            }
            assert(joined(with).subrange(a, b) =~= images@[k].rgb@);
        }
    }
    (inputs, body)
}

/// The encoder has to return one vector for each image.
pub fn check_vector_count(vectors: usize, images: usize) -> (result: Result<(), String>)
    ensures
        match result {
            Ok(_) => vectors == images,
            Err(e) => vectors != images && e@ == "semantic worker returned "@ + text::decimal(
                vectors as nat,
            ) + " vectors for "@ + text::decimal(images as nat) + " images"@,
        },
{
    if vectors == images {
        return Ok(());
    }
    let head = text::join3(
        "semantic worker returned ",
        &text::decimal_string(vectors as u64),
        " vectors for ",
    );
    Err(text::join3(&head, &text::decimal_string(images as u64), " images"))
}

/// The image that stored bytes hold: its width, its height and its pixels as
/// packed red, green and blue bytes, or why they hold none.
pub uninterp spec fn decoded_rgb(bytes: Seq<u8>) -> Result<(u32, u32, Seq<u8>), Seq<char>>;

/// `image::load_from_memory`, with the image turned into packed red, green and
/// blue bytes by `to_rgb8`: the image, or the text of the error. What the bytes
/// of the formats mean is left to the name.
#[verifier::external_body]
pub(crate) fn decode_rgb(bytes: &[u8]) -> (result: Result<(u32, u32, Vec<u8>), String>)
    ensures
        match result {
            Ok(image) => decoded_rgb(bytes@) == Ok::<(u32, u32, Seq<u8>), Seq<char>>(
                (image.0, image.1, image.2@),
            ),
            Err(error) => decoded_rgb(bytes@) == Err::<(u32, u32, Seq<u8>), Seq<char>>(error@),
        },
{
    match image::load_from_memory(bytes) {
        Ok(decoded) => {
            let rgb = decoded.to_rgb8();
            Ok((rgb.width(), rgb.height(), rgb.into_raw()))
        },
        Err(error) => Err(error.to_string()),
    }
}

/// What an image that was decoded comes to: one without pixels is refused.
pub open spec fn loaded(decoded: Result<(u32, u32, Seq<u8>), Seq<char>>) -> Result<
    (u32, u32, Seq<u8>),
    Seq<char>,
> {
    match decoded {
        Err(error) => Err("failed to decode the image: "@ + error),
        Ok(image) => if image.0 == 0 || image.1 == 0 {
            Err("the image has a zero dimension"@)
        } else {
            Ok(image)
        },
    }
}

/// What an image that was decoded comes to.
pub fn accept_image(decoded: Result<(u32, u32, Vec<u8>), String>) -> (result: Result<
    DecodedImage,
    String,
>)
    ensures
        ({
            let given = match decoded {
                Ok(image) => Ok::<(u32, u32, Seq<u8>), Seq<char>>((image.0, image.1, image.2@)),
                Err(error) => Err::<(u32, u32, Seq<u8>), Seq<char>>(error@),
            };
            match result {
                Ok(image) => loaded(given) == Ok::<(u32, u32, Seq<u8>), Seq<char>>(
                    (image.width, image.height, image.rgb@),
                ),
                Err(error) => loaded(given) == Err::<(u32, u32, Seq<u8>), Seq<char>>(error@),
            }
        }),
{
    match decoded {
        Err(error) => Err(text::join2("failed to decode the image: ", &error)),
        Ok(image) => {
            if image.0 == 0 || image.1 == 0 {
                return Err("the image has a zero dimension".to_owned());
            }
            Ok(DecodedImage { width: image.0, height: image.1, rgb: image.2 })
        },
    }
}

/// The image that stored bytes hold.
pub fn load_image(bytes: &[u8]) -> (result: Result<DecodedImage, String>)
    ensures
        match result {
            Ok(image) => loaded(decoded_rgb(bytes@)) == Ok::<(u32, u32, Seq<u8>), Seq<char>>(
                (image.width, image.height, image.rgb@),
            ),
            Err(error) => loaded(decoded_rgb(bytes@)) == Err::<(u32, u32, Seq<u8>), Seq<char>>(
                error@,
            ),
        },
{
    accept_image(decode_rgb(bytes))
}

/// What becomes of a job that could be claimed.
#[derive(Debug, Clone, Copy, PartialEq, Eq, Structural)]
pub enum ClaimDecision {
    /// It is claimed.
    Claim,
    /// It stays queued: this pass can do nothing with it.
    Leave,
    /// It stays queued, and its pixels are let go.
    LeaveAndForget,
    /// It is put down as left out, and its pixels are let go.
    Exclude,
}

/// Whether a job is claimed.
pub open spec fn claimed(
    locked: bool,
    prepared: Option<i64>,
    live_ids: &[i64],
    indexable: bool,
    result: ClaimDecision,
) -> bool {
    result == if locked {
        match prepared {
            None => ClaimDecision::Leave,
            Some(id) => if live_ids@.contains(id) {
                ClaimDecision::Claim
            } else {
                ClaimDecision::LeaveAndForget
            },
        }
    } else if indexable {
        ClaimDecision::Claim
    } else {
        ClaimDecision::Exclude
    }
}

/// What becomes of a job that could be claimed. A locked pass claims only jobs
/// whose pixels are held for a screenshot that is still there; an unlocked one
/// claims those that belong to the index, and leaves the others out.
pub fn claim_decision(
    locked: bool,
    prepared: Option<i64>,
    live_ids: &[i64],
    indexable: bool,
) -> (result: ClaimDecision)
    ensures
        claimed(locked, prepared, live_ids, indexable, result),
{
    if !locked {
        return if indexable {
            ClaimDecision::Claim
        } else {
            ClaimDecision::Exclude
        };
    }
    let id: i64 = match prepared {
        None => {
            return ClaimDecision::Leave;
        },
        Some(id) => id,
    };
    let mut i: usize = 0;
    while i < live_ids.len()
        invariant
            i <= live_ids@.len(),
            locked,
            prepared == Some(id),
            forall|j: int| 0 <= j < i ==> #[trigger] live_ids@[j] != id,
        decreases live_ids@.len() - i,
    {
        if live_ids[i] == id {
            assert(live_ids@[i as int] == id);
            return ClaimDecision::Claim;
        }
        i = i + 1;
    }
    ClaimDecision::LeaveAndForget
}

/// When a job that failed now is tried again, in the form of the database.
pub fn retry_moment(now: Moment) -> (result: Option<String>)
    requires
        now.seconds + 1800 <= i64::MAX,
    ensures
        match result {
            Some(text) => timestamps::plain_text(
                (now.seconds + 1800) as i64,
                now.nanos,
                DATABASE_FORMAT@,
            ) == Some(text@),
            None => timestamps::plain_text(
                (now.seconds + 1800) as i64,
                now.nanos,
                DATABASE_FORMAT@,
            ) is None,
        },
{
    timestamps::database_text(
        Moment { seconds: now.seconds + RETRY_BACKOFF_MINUTES * 60, nanos: now.nanos },
    )
}

/// Why a run that was asked for cannot begin, if it cannot.
pub fn run_refusal(pass_free: bool, run: &ClipIndexRunState) -> (result: Option<
    ClipIndexRunSummary,
>)
    ensures
        match result {
            None => pass_free && !run.running,
            Some(summary) => {
                &&& !pass_free || run.running
                &&& !summary.started
                &&& summary.indexed == 0
                &&& summary.failed == 0
                &&& summary.remaining is None
                &&& summary.stalled is None
                &&& summary.skipped_reason is Some
                &&& summary.skipped_reason->0@ == if !pass_free {
                    "another_pass_running"@
                } else {
                    "already_running"@
                }
            },
        },
{
    let reason: &'static str = if !pass_free {
        "another_pass_running"
    } else if run.running {
        "already_running"
    } else {
        return None;
    };
    Some(
        ClipIndexRunSummary {
            started: false,
            indexed: 0,
            failed: 0,
            remaining: None,
            stalled: None,
            skipped_reason: Some(reason.to_owned()),
        },
    )
}

/// What a run comes to.
pub open spec fn summed_up(
    outcome: PassOutcome,
    backlog: Option<(u64, u64)>,
    result: ClipIndexRunSummary,
) -> bool {
    &&& result.started == (outcome.refused is None)
    &&& result.indexed == outcome.indexed
    &&& result.failed == outcome.failed
    &&& result.remaining == match backlog {
        Some(b) => Some(b.0),
        None => None,
    }
    &&& result.stalled == match backlog {
        Some(b) => Some(b.1),
        None => None,
    }
    &&& match result.skipped_reason {
        Some(reason) => if outcome.refused is Some {
            reason@ == outcome.refused->0@
        } else {
            outcome.stopped_because is Some && reason@ == outcome.stopped_because->0@
        },
        None => outcome.refused is None && outcome.stopped_because is None,
    }
}

/// What came of a run that was asked for. `backlog` counts the jobs that can
/// still be claimed and those that were given up.
pub fn run_summary(outcome: PassOutcome, backlog: Option<(u64, u64)>) -> (result:
    ClipIndexRunSummary)
    ensures
        summed_up(outcome, backlog, result),
{
    let skipped_reason: Option<String> = match outcome.refused {
        Some(reason) => Some(reason.to_owned()),
        None => match outcome.stopped_because {
            Some(reason) => Some(reason.to_owned()),
            None => None,
        },
    };
    ClipIndexRunSummary {
        started: outcome.refused.is_none(),
        indexed: outcome.indexed,
        failed: outcome.failed,
        remaining: match backlog {
            Some(b) => Some(b.0),
            None => None,
        },
        stalled: match backlog {
            Some(b) => Some(b.1),
            None => None,
        },
        skipped_reason,
    }
}

/// What indexing the whole history would cover.
#[derive(Debug)]
pub struct ClipBackfillOffer {
    pub migration_settled: bool,
    pub decision: Option<String>,
    pub should_ask: bool,
    pub never_indexed: u64,
    pub stalled: u64,
    pub skipped_deleted: u64,
    pub failed_imports: u64,
    pub estimated_seconds: u64,
    pub migration_status: Option<String>,
    pub diagnostics_deferred: bool,
}

/// The offer says nothing of any work.
pub open spec fn says_nothing(offer: ClipBackfillOffer) -> bool {
    &&& !offer.should_ask
    &&& offer.never_indexed == 0
    &&& offer.stalled == 0
    &&& offer.skipped_deleted == 0
    &&& offer.failed_imports == 0
    &&& offer.estimated_seconds == 0
    &&& offer.migration_status is None
}

/// Nothing is offered: the import is not finished, or the user has answered.
pub fn terminal_backfill_offer(migration_settled: bool, decision: Option<String>) -> (result:
    ClipBackfillOffer)
    ensures
        says_nothing(result),
        result.migration_settled == migration_settled,
        result.decision == decision,
        !result.diagnostics_deferred,
{
    ClipBackfillOffer {
        migration_settled,
        decision,
        should_ask: false,
        never_indexed: 0,
        stalled: 0,
        skipped_deleted: 0,
        failed_imports: 0,
        estimated_seconds: 0,
        migration_status: None,
        diagnostics_deferred: false,
    }
}

/// Nothing is offered yet: the count is put off until the machine is idle.
pub fn deferred_backfill_offer() -> (result: ClipBackfillOffer)
    ensures
        says_nothing(result),
        result.migration_settled,
        result.decision is None,
        result.diagnostics_deferred,
{
    let mut offer = terminal_backfill_offer(true, None);
    offer.diagnostics_deferred = true;
    offer
}

/// An offer that was made before still serves: for five seconds while it is
/// provisional, else for half a minute, and always if it was made after it was
/// asked for. One without the count does not serve where the count is wanted.
pub fn cached_offer_serves(
    deferred: bool,
    settled: bool,
    allow_expensive: bool,
    loaded_at: u64,
    requested_at: u64,
    now: u64,
) -> (result: bool)
    ensures
        result == ((!allow_expensive || !deferred) && (loaded_at >= requested_at || now
            < loaded_at + (if deferred || !settled {
            5000int
        } else {
            30_000
        }))),
{
    let ttl: u64 = if deferred || !settled {
        5000
    } else {
        30_000
    };
    let young = now < loaded_at || now - loaded_at < ttl;
    (!allow_expensive || !deferred) && (loaded_at >= requested_at || young)
}

/// What an offer is made from.
#[derive(Debug, Clone, Copy, PartialEq, Eq, Structural)]
pub enum OfferSource {
    /// Nothing is offered.
    Terminal,
    /// The count is put off.
    Deferred,
    /// The count.
    Count,
}

/// Where an offer comes from.
pub open spec fn offered(
    migration_settled: bool,
    decided: bool,
    allow_expensive: bool,
    machine_is_idle: bool,
    result: OfferSource,
) -> bool {
    result == if !migration_settled || decided {
        OfferSource::Terminal
    } else if !allow_expensive && !machine_is_idle {
        OfferSource::Deferred
    } else {
        OfferSource::Count
    }
}

/// What an offer is made from.
pub fn offer_source(
    migration_settled: bool,
    decided: bool,
    allow_expensive: bool,
    machine_is_idle: bool,
) -> (result: OfferSource)
    ensures
        offered(migration_settled, decided, allow_expensive, machine_is_idle, result),
{
    if !migration_settled || decided {
        return OfferSource::Terminal;
    }
    if !allow_expensive && !machine_is_idle {
        return OfferSource::Deferred;
    }
    OfferSource::Count
}

/// The code means that a row was rightly left out of the import.
pub open spec fn is_expected_skip(code: Seq<char>) -> bool {
    code == ORPHAN_DOCUMENT_ID@ || code == SCREENSHOT_DISAPPEARED@ || code
        == SNAPSHOT_ROW_MISSING@
}

pub fn expected_skip(code: &str) -> (result: bool)
    ensures
        result == is_expected_skip(code@),
{
    text::same(code, ORPHAN_DOCUMENT_ID) || text::same(code, SCREENSHOT_DISAPPEARED) || text::same(
        code,
        SNAPSHOT_ROW_MISSING,
    )
}

/// Rows that were rightly left out.
pub open spec fn skipped_rows(census: Seq<(String, u64)>) -> int
    decreases census.len(),
{
    if census.len() == 0 {
        0
    } else {
        skipped_rows(census.drop_last()) + if is_expected_skip(census.last().0@) {
            census.last().1 as int
        } else {
            0
        }
    }
}

/// All rows that were counted, but for the one code that tells of the run
/// itself.
pub open spec fn counted_rows(census: Seq<(String, u64)>) -> int
    decreases census.len(),
{
    if census.len() == 0 {
        0
    } else {
        counted_rows(census.drop_last()) + if census.last().0@ == RUN_FAILED@ {
            0
        } else {
            census.last().1 as int
        }
    }
}

/// Rows that failed: those that were counted and not rightly left out.
pub open spec fn failed_rows(census: Seq<(String, u64)>) -> int
    decreases census.len(),
{
    if census.len() == 0 {
        0
    } else {
        failed_rows(census.drop_last()) + if census.last().0@ == RUN_FAILED@ || is_expected_skip(
            census.last().0@,
        ) {
            0
        } else {
            census.last().1 as int
        }
    }
}

proof fn lemma_census(census: Seq<(String, u64)>, n: int)
    requires
        0 <= n <= census.len(),
    ensures
        0 <= skipped_rows(census.take(n)),
        0 <= failed_rows(census.take(n)),
        skipped_rows(census.take(n)) + failed_rows(census.take(n)) == counted_rows(census.take(n)),
        counted_rows(census.take(n)) <= counted_rows(census),
    decreases census.len(),
{
    reveal_strlit("orphan_document_id");
    reveal_strlit("screenshot_disappeared");
    reveal_strlit("snapshot_row_missing");
    reveal_strlit("run_failed");
    assert("run_failed"@.len() == 10);
    assert("orphan_document_id"@.len() == 18);
    assert("screenshot_disappeared"@.len() == 22);
    assert("snapshot_row_missing"@.len() == 20);
    if n < census.len() {
        lemma_census(census.drop_last(), n);
        assert(census.drop_last().take(n) =~= census.take(n));
    } else {
        assert(census.take(n) =~= census);
        if census.len() > 0 {
            lemma_census(census.drop_last(), census.len() - 1);
            assert(census.drop_last().take(census.len() - 1) =~= census.drop_last());
        }
    }
}

/// Splits the rows that an import did not take over into those that were
/// rightly left out and those that failed. A code that is not known counts as
/// a failure.
pub fn split_census(census: &[(String, u64)]) -> (result: (u64, u64))
    requires
        counted_rows(census@) <= u64::MAX,
    ensures
        result.0 == skipped_rows(census@),
        result.1 == failed_rows(census@),
{
    let mut skipped: u64 = 0;
    let mut failed: u64 = 0;
    let mut i: usize = 0;
    assert(census@.take(0) =~= Seq::<(String, u64)>::empty());
    while i < census.len()
        invariant
            i <= census@.len(),
            counted_rows(census@) <= u64::MAX,
            skipped == skipped_rows(census@.take(i as int)),
            failed == failed_rows(census@.take(i as int)),
        decreases census@.len() - i,
    {
        proof {
            lemma_census(census@, i + 1);
            assert(census@.take(i + 1).drop_last() =~= census@.take(i as int));
            assert(census@.take(i + 1).last() == census@[i as int]);
        }
        if expected_skip(&census[i].0) {
            skipped = skipped + census[i].1;
        } else if !text::same(&census[i].0, RUN_FAILED) {
            failed = failed + census[i].1;
        }
        i = i + 1;
    }
    assert(census@.take(census@.len() as int) =~= census@);
    (skipped, failed)
}

/// Rows that were rightly left out are not counted among the failures: together
/// the two are all rows that were counted.
pub proof fn law_skips_are_not_failures(census: Seq<(String, u64)>)
    ensures
        skipped_rows(census) >= 0,
        failed_rows(census) >= 0,
        skipped_rows(census) + failed_rows(census) == counted_rows(census),
{
    lemma_census(census, census.len() as int);
    assert(census.take(census.len() as int) =~= census);
}

/// Four times the microseconds that encoding so many images with so many pixels
/// takes: a fixed share for each image, and a quarter of a microsecond for a
/// pixel.
pub open spec fn encode_micros_fourfold(images: u64, pixels: u64) -> int {
    images * (4 * ENCODE_FIXED_MICROS) + pixels
}

/// The seconds that encoding so many images with so many pixels takes, rounded.
pub fn estimated_seconds(images: u64, pixels: u64) -> (result: u64)
    ensures
        result == (encode_micros_fourfold(images, pixels) + 2_000_000) / 4_000_000,
{
    let fourfold: u128 = images as u128 * 600_000 + pixels as u128;
    ((fourfold + 2_000_000) / 4_000_000) as u64
}

/// The offer by the count: images without a vector, their pixels, jobs that
/// were given up, and how the last import ended.
pub fn counted_backfill_offer(
    images: u64,
    pixels: u64,
    exhausted: u64,
    census: Option<&[(String, u64)]>,
    migration_status: Option<String>,
) -> (result: ClipBackfillOffer)
    requires
        census matches Some(rows) ==> counted_rows(rows@) <= u64::MAX,
    ensures
        result.migration_settled,
        result.decision is None,
        result.should_ask == (images > 0 || exhausted > 0),
        result.never_indexed == images,
        result.stalled == exhausted,
        match census {
            Some(rows) => result.skipped_deleted == skipped_rows(rows@) && result.failed_imports
                == failed_rows(rows@),
            None => result.skipped_deleted == 0 && result.failed_imports == 0,
        },
        result.estimated_seconds == (encode_micros_fourfold(images, pixels) + 2_000_000) / 4_000_000,
        result.migration_status == migration_status,
        !result.diagnostics_deferred,
{
    let split: (u64, u64) = match census {
        Some(rows) => split_census(rows),
        None => (0, 0),
    };
    ClipBackfillOffer {
        migration_settled: true,
        decision: None,
        should_ask: images > 0 || exhausted > 0,
        never_indexed: images,
        stalled: exhausted,
        skipped_deleted: split.0,
        failed_imports: split.1,
        estimated_seconds: estimated_seconds(images, pixels),
        migration_status,
        diagnostics_deferred: false,
    }
}

/// Only two answers are known.
pub fn check_decision(decision: &str) -> (result: Result<(), String>)
    ensures
        match result {
            Ok(_) => decision@ == BACKFILL_APPROVED@ || decision@ == BACKFILL_DECLINED@,
            Err(e) => {
                &&& decision@ != BACKFILL_APPROVED@
                &&& decision@ != BACKFILL_DECLINED@
                &&& e@ == "Unknown backfill decision: "@ + decision@
            },
        },
{
    if text::same(decision, BACKFILL_APPROVED) || text::same(decision, BACKFILL_DECLINED) {
        Ok(())
    } else {
        Err(text::join2("Unknown backfill decision: ", decision))
    }
}

/// An image is put down for the index if it has a hash and a text, and as left
/// out if it has no text; without a hash it is not put down at all.
pub proof fn law_images_with_text_are_put_down(
    image_hash: &str,
    has_text: bool,
    result: EnqueuePlan,
)
    requires
        enqueued(image_hash, has_text, result),
    ensures
        image_hash@.len() == 0 <==> result is Nothing,
        image_hash@.len() > 0 && has_text <==> result is Ensure,
        image_hash@.len() > 0 && !has_text <==> result is Exclude,
        result matches EnqueuePlan::Ensure { spec } ==> spec.subject_key@ == image_hash@,
        result matches EnqueuePlan::Exclude { spec, code, reason } ==> spec.subject_key@
            == image_hash@ && code@ == "empty_source"@,
{
}

/// What stands for an image is the first of its screenshots that has text; an
/// image of which none has is not indexed.
pub proof fn law_the_first_with_text_stands_for_the_image(
    ids: Seq<i64>,
    texts: Seq<(i64, String)>,
    i: int,
)
    requires
        0 <= i <= ids.len(),
        forall|j: int| 0 <= j < i ==> !has_words(texts, #[trigger] ids[j]),
    ensures
        i == ids.len() ==> representative_of(ids, texts) is None,
        i < ids.len() && has_words(texts, ids[i]) ==> representative_of(ids, texts) == Some(ids[i]),
    decreases i,
{
    if i > 0 {
        let rest = ids.drop_first();
        assert(!has_words(texts, ids[0]));
        assert forall|j: int| 0 <= j < i - 1 implies !has_words(texts, #[trigger] rest[j]) by {
            assert(rest[j] == ids[j + 1]);
        }
        if i < ids.len() {
            assert(rest[i - 1] == ids[i]);
        }
        law_the_first_with_text_stands_for_the_image(rest, texts, i - 1);
    }
}

/// An image is indexable exactly if one of its screenshots has text, and then it
/// is listed with one that has.
pub proof fn law_indexable_images_have_text(
    shared: Seq<(String, Vec<i64>)>,
    texts: Seq<(i64, String)>,
    i: int,
)
    requires
        0 <= i < shared.len(),
    ensures
        indexable_of(shared, texts).len() <= shared.len(),
        representative_of(shared[i].1@, texts) matches Some(id) ==> indexable_of(
            shared,
            texts,
        ).contains((shared[i].0@, id)),
        forall|k: int|
            0 <= k < indexable_of(shared, texts).len() ==> has_words(
                texts,
                (#[trigger] indexable_of(shared, texts)[k]).1,
            ),
    decreases shared.len(),
{
    let head = shared.drop_last();
    let rest = indexable_of(head, texts);
    let all = indexable_of(shared, texts);
    if head.len() > 0 {
        law_indexable_images_have_text(
            head,
            texts,
            if i < head.len() {
                i
            } else {
                0
            },
        );
    }
    lemma_representative_has_words(shared.last().1@, texts);
    assert forall|k: int| 0 <= k < all.len() implies has_words(texts, (#[trigger] all[k]).1) by {
        if k < rest.len() {
            assert(all[k] == rest[k]);
        }
    }
    if representative_of(shared[i].1@, texts) is Some {
        if i < head.len() {
            assert(head[i] == shared[i]);
            let entry = (shared[i].0@, representative_of(shared[i].1@, texts)->0);
            let k = choose|k: int| 0 <= k < rest.len() && rest[k] == entry;
            assert(all[k] == entry);
        } else {
            assert(all[all.len() - 1].0 == shared[i].0@);
        }
    }
}

proof fn lemma_representative_has_words(ids: Seq<i64>, texts: Seq<(i64, String)>)
    ensures
        representative_of(ids, texts) matches Some(id) ==> has_words(texts, id) && ids.contains(id),
    decreases ids.len(),
{
    if ids.len() > 0 {
        let rest = ids.drop_first();
        lemma_representative_has_words(rest, texts);
        if has_words(texts, ids[0]) {
            assert(ids[0] == ids[0]);
        } else if representative_of(rest, texts) is Some {
            let id = representative_of(rest, texts)->0;
            let k = choose|k: int| 0 <= k < rest.len() && rest[k] == id;
            assert(ids[k + 1] == id);
        }
    }
}

/// A pass goes on exactly while nothing is maintained, no query waits, and, for
/// an idle pass, the machine is idle, or for one that was asked for, the user
/// did not stop it.
pub proof fn law_passes_go_on_while_they_may(mode: PassMode, facts: PassFacts)
    ensures
        stop_before_next(mode, facts) is None <==> {
            &&& !facts.maintenance
            &&& !facts.foreground_waiting
            &&& mode == PassMode::Idle ==> facts.idle
            &&& mode == PassMode::Manual ==> !facts.stop_requested
        },
        refusal(mode, facts, None) is None <==> {
            &&& !facts.maintenance
            &&& mode == PassMode::Idle ==> facts.idle && !facts.foreground_waiting
        },
        mode == PassMode::Manual && facts.stop_requested ==> stop_before_next(mode, facts) == Some(
            "stopped_by_user"@,
        ),
{
}

/// Jobs are encoded one at a time, and a pass that stops puts back what is left
/// and says why.
pub proof fn law_jobs_are_encoded_one_by_one(
    before: PassOutcome,
    after: PassOutcome,
    pending: usize,
    mode: PassMode,
    facts: PassFacts,
    result: DrainStep,
)
    requires
        drained_on(before, after, pending, mode, facts, result),
    ensures
        pending == 0 <==> result is Done,
        result is Encode ==> result->count == 1 && after == before && pending > 0,
        result is Release ==> after.stopped_because == Some(result->reason) && after.indexed
            == before.indexed && after.failed == before.failed,
        pending > 0 && (facts.maintenance || facts.foreground_waiting || (mode == PassMode::Idle
            && !facts.idle) || (mode == PassMode::Manual && facts.stop_requested)) ==> result
            is Release,
{
}

/// A run adds its batches up, waits for a query that took the encoder, and ends
/// when a batch did nothing or was stopped for another reason, which it then
/// gives.
pub proof fn law_runs_add_their_batches_up(
    before: PassOutcome,
    after: PassOutcome,
    batch: PassOutcome,
    result: DrainNext,
)
    requires
        drained(before, after, batch, result),
        before.indexed + batch.indexed <= u64::MAX,
        before.failed + batch.failed <= u64::MAX,
    ensures
        after.indexed == before.indexed + batch.indexed,
        after.failed == before.failed + batch.failed,
        batch.stopped_because matches Some(why) ==> if why@ == "foreground_query"@ {
            result == DrainNext::StandAside && after.stopped_because == before.stopped_because
        } else {
            result == DrainNext::Done && after.stopped_because == batch.stopped_because
        },
        batch.stopped_because is None ==> (result == DrainNext::Again <==> batch.indexed
            + batch.failed > 0) && (result == DrainNext::Done <==> batch.indexed + batch.failed
            == 0),
{
}

/// A locked pass claims only what it has the pixels of, for a screenshot that is
/// still there; an open one claims what is indexable and puts the rest down as
/// left out.
pub proof fn law_locked_passes_claim_held_pixels(
    locked: bool,
    prepared: Option<i64>,
    live_ids: &[i64],
    indexable: bool,
    result: ClaimDecision,
    place: int,
)
    requires
        claimed(locked, prepared, live_ids, indexable, result),
    ensures
        locked && prepared is None ==> result == ClaimDecision::Leave,
        locked && 0 <= place < live_ids@.len() && prepared == Some(live_ids@[place]) ==> result
            == ClaimDecision::Claim,
        locked && (forall|i: int| 0 <= i < live_ids@.len() ==> prepared != Some(
            #[trigger] live_ids@[i],
        )) ==> result != ClaimDecision::Claim,
        !locked ==> (result == ClaimDecision::Claim <==> indexable),
        !locked && !indexable ==> result == ClaimDecision::Exclude,
{
}

/// A run waits for a query five minutes at most, and not at all once the user
/// stopped it or something is maintained.
pub proof fn law_queries_are_waited_for(facts: PassFacts, waited_ms: u64, result: StandAside)
    requires
        stood_aside(facts, waited_ms, result),
    ensures
        result is Free <==> !facts.foreground_waiting,
        result is Wait ==> waited_ms < 5 * 60 * 1000 && !facts.stop_requested && !facts.maintenance,
        facts.foreground_waiting && waited_ms < 5 * 60 * 1000 && !facts.stop_requested
            && !facts.maintenance ==> result is Wait,
        result is GiveUp && !facts.stop_requested && !facts.maintenance ==> result->GiveUp_reason@
            == "foreground_query_held_the_worker"@,
{
}

/// Everything is repaired only with the user's leave, and nothing before the
/// import is settled; the count for an offer is not made on a busy machine
/// unless it was asked for.
pub proof fn law_repairs_ask_first(
    settled: bool,
    decision: Option<&str>,
    scope: RepairScope,
    decided: bool,
    allow: bool,
    idle: bool,
    source: OfferSource,
)
    requires
        scoped(settled, decision, scope),
        offered(settled, decided, allow, idle, source),
    ensures
        scope == RepairScope::Full <==> settled && (decision matches Some(answer) && answer@
            == "approved"@),
        scope == RepairScope::Suspended <==> !settled,
        source == OfferSource::Count <==> settled && !decided && (allow || idle),
        source == OfferSource::Terminal <==> !settled || decided,
{
}

/// The summary tells what was done, and why it ended where it was refused or
/// stopped.
pub proof fn law_summaries_tell_the_run(
    outcome: PassOutcome,
    backlog: Option<(u64, u64)>,
    result: ClipIndexRunSummary,
)
    requires
        summed_up(outcome, backlog, result),
    ensures
        result.indexed == outcome.indexed && result.failed == outcome.failed,
        result.started <==> outcome.refused is None,
        result.skipped_reason is None <==> outcome.refused is None && outcome.stopped_because
            is None,
        outcome.refused matches Some(why) ==> result.skipped_reason matches Some(told) && told@
            == why@,
        backlog matches Some(b) ==> result.remaining == Some(b.0) && result.stalled == Some(b.1),
{
}

/// The bytes of the images stand one after another: an image takes what the
/// images before it have left.
pub proof fn law_images_stand_one_after_another(images: Seq<DecodedImage>, i: int)
    requires
        0 <= i < images.len(),
    ensures
        ({
            let from = joined(images.take(i)).len() as int;
            &&& from + images[i].rgb@.len() <= joined(images).len()
            &&& joined(images).subrange(from, from + images[i].rgb@.len()) == images[i].rgb@
        }),
    decreases images.len(),
{
    let head = images.drop_last();
    if i < head.len() {
        law_images_stand_one_after_another(head, i);
        assert(head.take(i) =~= images.take(i));
        assert(head[i] == images[i]);
        let from = joined(images.take(i)).len() as int;
        assert(joined(images).subrange(from, from + images[i].rgb@.len()) =~= joined(
            head,
        ).subrange(from, from + images[i].rgb@.len()));
    } else {
        assert(images.take(i) =~= head);
        let from = joined(head).len() as int;
        assert(joined(images).subrange(from, from + images[i].rgb@.len()) =~= images[i].rgb@);
    }
}

/// An image without an extent is not taken, and any other that could be decoded
/// is, as it is.
pub proof fn law_images_have_an_extent(width: u32, height: u32, rgb: Seq<u8>)
    ensures
        loaded(Ok((width, height, rgb))) is Err <==> width == 0 || height == 0,
        width > 0 && height > 0 ==> loaded(Ok((width, height, rgb))) == Ok::<
            (u32, u32, Seq<u8>),
            Seq<char>,
        >((width, height, rgb)),
{
}

/// Encoding is estimated at 150 milliseconds an image and a second for four
/// million pixels.
pub proof fn law_estimates_grow_with_the_images(images: u64, pixels: u64, more: u64)
    requires
        images + more <= u64::MAX,
    ensures
        encode_micros_fourfold(images, pixels) == 4 * (150_000 * images) + pixels,
        encode_micros_fourfold((images + more) as u64, pixels) == encode_micros_fourfold(
            images,
            pixels,
        ) + 600_000 * more,
{
    assert((images + more) * 600_000 == images * 600_000 + more * 600_000) by (nonlinear_arith);
}

} // verus!
