//! The life of the graph over the image index: which generation is in use,
//! when it is built anew, and what becomes of a failed build.
//!
//! The database stays authoritative. A generation is immutable and covers the
//! data up to an epoch.
use crate::ann_format::{
    Header, ANN_ALGORITHM, ANN_CONNECTIVITY, ANN_EXPANSION_ADD, ANN_IMPLEMENTATION_VERSION,
    ANN_METRIC, ANN_QUANTIZATION, FORMAT_VERSION,
};
use crate::ann_sidecar::FlatFileWriter;
use crate::ann_worker::GraphFacts;
use crate::clip_contract::{
    CLIP_DIMENSIONS, CLIP_EMBEDDING_VERSION, CLIP_MODEL_ID, CLIP_VECTOR_SPACE_REVISION,
};
use crate::derived::{
    DerivedAnnBuildState, DerivedAnnGeneration, DerivedAnnSnapshotRow, DerivedIndexKind,
};
use crate::paths::PathParts;
use crate::ranking::ScoredSubject;
use crate::timestamps::{Moment, DATABASE_FORMAT};
use crate::{ann_sidecar, digest, text, timestamps};
use vstd::prelude::*;
use vstd::string::*;

verus! {

pub const ANN_FILE_FORMAT_VERSION: u32 = 1;

pub const REBUILD_TAIL_ROWS: u64 = 5_000;

pub const REBUILD_TAIL_PERCENT: u64 = 5;

/// Twelve hours, in nanoseconds.
pub const MIN_REBUILD_INTERVAL_NS: u128 = 43_200_000_000_000;

pub const ANN_BUILDER_MEMORY_LIMIT_BYTES: u64 = 1_073_741_824;

pub const ANN_FAILURE_NOTIFY_THRESHOLD: u32 = 3;

/// A day, in seconds.
pub const ANN_PERMANENT_FAILURE_BACKOFF: u64 = 86_400;

pub const ANN_ERROR_MAX_CHARS: usize = 1000;

/// What follows a failed build. The delay is in seconds.
#[derive(Debug, Clone, Copy)]
pub struct AnnFailurePolicy {
    pub code: &'static str,
    pub delay: u64,
    pub circuit_open: bool,
    pub notify: bool,
}

/// The moment that a stored text names.
pub fn parse_ann_timestamp(value: &str) -> (result: Option<Moment>)
    ensures
        result == timestamps::moment_from(
            timestamps::rfc3339_of(value@),
            timestamps::plain_time_of(value@, DATABASE_FORMAT@),
        ),
{
    timestamps::parse_moment(value)
}

/// A build may be tried: it is asked for, there was no failure, or the moment
/// to try again has come. A moment that cannot be read never comes.
pub open spec fn retry_due(failed: bool, next_retry: Option<Moment>, now: Moment, force: bool) -> bool {
    force || !failed || (next_retry is Some && now.reached(next_retry->0))
}

/// A build may be tried, by the moment that was read.
pub fn retry_due_at(failed: bool, next_retry: Option<Moment>, now: Moment, force: bool) -> (result:
    bool)
    ensures
        result == retry_due(failed, next_retry, now, force),
{
    if force || !failed {
        return true;
    }
    match next_retry {
        Some(at) => now.has_reached(at),
        None => false,
    }
}

/// A build may be tried.
pub fn ann_retry_due(state: Option<&DerivedAnnBuildState>, now: Moment, force: bool) -> (result:
    bool)
    ensures
        result == match state {
            None => true,
            Some(failure) => retry_due(
                true,
                timestamps::moment_from(
                    timestamps::rfc3339_of(failure.next_retry_at@),
                    timestamps::plain_time_of(failure.next_retry_at@, DATABASE_FORMAT@),
                ),
                now,
                force,
            ),
        },
{
    match state {
        None => true,
        Some(failure) => retry_due_at(
            true,
            parse_ann_timestamp(&failure.next_retry_at),
            now,
            force,
        ),
    }
}

/// The error, in lower case, tells that memory ran out.
pub open spec fn tells_memory(lower: Seq<char>) -> bool {
    ||| text::holds_text(lower, "out of memory"@)
    ||| text::holds_text(lower, "not enough memory"@)
    ||| text::holds_text(lower, "cannot allocate memory"@)
    ||| text::holds_text(lower, "memory allocation"@)
    ||| text::holds_text(lower, "std::bad_alloc"@)
    ||| text::holds_text(lower, "os error 8"@)
    ||| text::holds_text(lower, "os error 1455"@)
    ||| text::holds_text(lower, "-1073741801"@)
    ||| text::holds_text(lower, "-1073741523"@)
    ||| text::holds_text(lower, "3221225495"@)
    ||| text::holds_text(lower, "3221225773"@)
}

/// The error, in lower case, tells that the disk is full.
pub open spec fn tells_disk(lower: Seq<char>) -> bool {
    ||| text::holds_text(lower, "disk full"@)
    ||| text::holds_text(lower, "no space left"@)
    ||| text::holds_text(lower, "not enough space"@)
    ||| text::holds_text(lower, "os error 112"@)
}

/// The error, in lower case, tells that access is denied.
pub open spec fn tells_denied(lower: Seq<char>) -> bool {
    ||| text::holds_text(lower, "access is denied"@)
    ||| text::holds_text(lower, "permission denied"@)
    ||| text::holds_text(lower, "os error 5"@)
}

/// The code of an error that a further attempt would meet again.
pub open spec fn permanent_code(lower: Seq<char>) -> Option<Seq<char>> {
    if text::holds_text(lower, "carbonpaper-ml.exe was not found"@) {
        Some("builder_missing"@)
    } else if text::holds_text(lower, "ann builder job"@) {
        Some("job_object_failed"@)
    } else if tells_memory(lower) {
        Some("out_of_memory"@)
    } else if tells_disk(lower) {
        Some("disk_full"@)
    } else if tells_denied(lower) {
        Some("permission_denied"@)
    } else if text::holds_text(lower, "model contract does not match"@) || text::holds_text(
        lower,
        "format contract mismatch"@,
    ) {
        Some("contract_mismatch"@)
    } else {
        None
    }
}

/// The code of an error that may pass.
pub open spec fn transient_code(lower: Seq<char>) -> Seq<char> {
    if text::holds_text(lower, "ann builder failed"@) {
        "builder_failed"@
    } else if text::holds_text(lower, "snapshot changed"@) {
        "snapshot_changed"@
    } else {
        "build_failed"@
    }
}

/// The seconds to wait after so many failures in a row: a quarter of an hour,
/// an hour, six hours, then a day.
pub open spec fn transient_delay(failures: u32) -> u64 {
    if failures <= 1 {
        900
    } else if failures == 2 {
        3600
    } else if failures == 3 {
        21_600
    } else {
        86_400
    }
}

/// What follows a failed build.
pub open spec fn policy_fits(policy: AnnFailurePolicy, error: Seq<char>, failures: u32) -> bool {
    let lower = text::lower_ascii(error);
    match permanent_code(lower) {
        Some(code) => {
            &&& policy.code@ == code
            &&& policy.delay == 86_400
            &&& policy.circuit_open
            &&& policy.notify
        },
        None => {
            &&& policy.code@ == transient_code(lower)
            &&& policy.delay == transient_delay(failures)
            &&& policy.circuit_open == (failures >= 3)
            &&& policy.notify == (failures >= 3)
        },
    }
}

fn permanent_failure(lower: &[char]) -> (result: Option<&'static str>)
    ensures
        match result {
            Some(code) => permanent_code(lower@) == Some(code@),
            None => permanent_code(lower@) is None,
        },
{
    if text::chars_hold(lower, "carbonpaper-ml.exe was not found") {
        Some("builder_missing")
    } else if text::chars_hold(lower, "ann builder job") {
        Some("job_object_failed")
    } else if text::chars_hold(lower, "out of memory") || text::chars_hold(
        lower,
        "not enough memory",
    ) || text::chars_hold(lower, "cannot allocate memory") || text::chars_hold(
        lower,
        "memory allocation",
    ) || text::chars_hold(lower, "std::bad_alloc") || text::chars_hold(lower, "os error 8")
        || text::chars_hold(lower, "os error 1455") || text::chars_hold(lower, "-1073741801")
        || text::chars_hold(lower, "-1073741523") || text::chars_hold(lower, "3221225495")
        || text::chars_hold(lower, "3221225773") {
        Some("out_of_memory")
    } else if text::chars_hold(lower, "disk full") || text::chars_hold(lower, "no space left")
        || text::chars_hold(lower, "not enough space") || text::chars_hold(lower, "os error 112") {
        Some("disk_full")
    } else if text::chars_hold(lower, "access is denied") || text::chars_hold(
        lower,
        "permission denied",
    ) || text::chars_hold(lower, "os error 5") {
        Some("permission_denied")
    } else if text::chars_hold(lower, "model contract does not match") || text::chars_hold(
        lower,
        "format contract mismatch",
    ) {
        Some("contract_mismatch")
    } else {
        None
    }
}

/// What follows a failed build.
pub fn classify_ann_failure(error: &str, consecutive_failures: u32) -> (result: AnnFailurePolicy)
    ensures
        policy_fits(result, error@, consecutive_failures),
{
    let lower = text::lower_ascii_chars(error);
    match permanent_failure(&lower) {
        Some(code) => AnnFailurePolicy {
            code,
            delay: ANN_PERMANENT_FAILURE_BACKOFF,
            circuit_open: true,
            notify: true,
        },
        None => {
            let delay: u64 = if consecutive_failures <= 1 {
                900
            } else if consecutive_failures == 2 {
                3600
            } else if consecutive_failures == 3 {
                21_600
            } else {
                ANN_PERMANENT_FAILURE_BACKOFF
            };
            let code: &'static str = if text::chars_hold(&lower, "ann builder failed") {
                "builder_failed"
            } else if text::chars_hold(&lower, "snapshot changed") {
                "snapshot_changed"
            } else {
                "build_failed"
            };
            AnnFailurePolicy {
                code,
                delay,
                circuit_open: consecutive_failures >= ANN_FAILURE_NOTIFY_THRESHOLD,
                notify: consecutive_failures >= ANN_FAILURE_NOTIFY_THRESHOLD,
            }
        },
    }
}

/// The head of an error message that is stored.
pub fn truncate_ann_error(error: &str) -> (result: String)
    ensures
        result@ == text::take_chars(error@, 1000),
{
    text::prefix(error, ANN_ERROR_MAX_CHARS)
}

/// What is stored of a failed build.
#[derive(Debug)]
pub struct AnnFailureRecord {
    pub consecutive_failures: u32,
    pub failed_at: String,
    pub next_retry_at: String,
    pub code: &'static str,
    pub error: String,
    pub circuit_open: bool,
    pub notify: bool,
}

/// The failures in a row, with one more.
pub open spec fn one_more_failure(previous: Option<&DerivedAnnBuildState>) -> u32 {
    match previous {
        Some(state) => if state.consecutive_failures == u32::MAX {
            u32::MAX
        } else {
            (state.consecutive_failures + 1) as u32
        },
        None => 1,
    }
}

/// What is stored of a build that failed at this moment.
pub fn record_ann_build_failure(
    previous: Option<&DerivedAnnBuildState>,
    error: &str,
    failed_at: Moment,
) -> (result: AnnFailureRecord)
    requires
        timestamps::in_range(failed_at.seconds, failed_at.nanos),
        forall|policy: AnnFailurePolicy| #[trigger]
            policy_fits(policy, error@, one_more_failure(previous)) ==> failed_at.seconds
                + policy.delay <= 8_210_266_876_799,
    ensures
        result.consecutive_failures == one_more_failure(previous),
        result.error@ == text::take_chars(error@, 1000),
        exists|policy: AnnFailurePolicy| #[trigger]
            policy_fits(policy, error@, one_more_failure(previous)) && {
                let next = (failed_at.seconds + policy.delay) as i64;
                &&& result.code@ == policy.code@
                &&& result.circuit_open == policy.circuit_open
                &&& result.notify == policy.notify
                &&& timestamps::rfc3339_text(failed_at.seconds, failed_at.nanos) == Some(
                    result.failed_at@,
                )
                &&& timestamps::rfc3339_text(next, failed_at.nanos) == Some(result.next_retry_at@)
                &&& timestamps::in_calendar(next, failed_at.nanos) ==> timestamps::rfc3339_of(
                    result.next_retry_at@,
                ) == Some(
                    (
                        next,
                        failed_at.nanos,
                        (next * 1000 + failed_at.nanos / 1_000_000) as i64,
                    ),
                )
            },
{
    let consecutive_failures: u32 = match previous {
        Some(state) => state.consecutive_failures.saturating_add(1),
        None => 1,
    };
    let policy = classify_ann_failure(error, consecutive_failures);
    assert(policy_fits(policy, error@, one_more_failure(previous)));
    let next = Moment {
        seconds: failed_at.seconds + policy.delay as i64,
        nanos: failed_at.nanos,
    };
    let failed_text = match timestamps::moment_text(failed_at) {
        Some(text) => text,
        None => "".to_owned(),
    };
    let next_text = match timestamps::moment_text(next) {
        Some(text) => text,
        None => "".to_owned(),
    };
    AnnFailureRecord {
        consecutive_failures,
        failed_at: failed_text,
        next_retry_at: next_text,
        code: policy.code,
        error: truncate_ann_error(error),
        circuit_open: policy.circuit_open,
        notify: policy.notify,
    }
}

/// After a failure was stored, no build is tried before its delay is over, and
/// one may be tried from then on.
pub proof fn law_failed_builds_wait(
    next_retry_at: Seq<char>,
    failed_at: Moment,
    delay: int,
    now: Moment,
)
    requires
        timestamps::rfc3339_of(next_retry_at) == Some(
            (
                (failed_at.seconds + delay) as i64,
                failed_at.nanos,
                ((failed_at.seconds + delay) * 1000 + failed_at.nanos / 1_000_000) as i64,
            ),
        ),
        timestamps::in_calendar((failed_at.seconds + delay) as i64, failed_at.nanos),
        i64::MIN <= failed_at.seconds + delay <= i64::MAX,
    ensures
        retry_due(
            true,
            timestamps::moment_from(
                timestamps::rfc3339_of(next_retry_at),
                timestamps::plain_time_of(next_retry_at, DATABASE_FORMAT@),
            ),
            now,
            false,
        ) == (now.seconds > failed_at.seconds + delay || (now.seconds == failed_at.seconds + delay
            && now.nanos >= failed_at.nanos)),
{
}

/// Whether the graph is to be used, by its setting: only "off" switches it off.
pub fn enabled(configured: Option<String>) -> (result: bool)
    ensures
        result == !(configured is Some && text::lower_ascii(text::trimmed(configured->0@))
            == "off"@),
{
    match configured {
        Some(value) => {
            let mode = text::to_lower_ascii(&text::trim(&value));
            !text::same(&mode, "off")
        },
        None => true,
    }
}

/// How the loading of a generation stands.
#[derive(Debug, Clone, Copy, PartialEq, Eq, Structural)]
pub enum ArmStatus {
    Idle,
    Loading,
    Ready,
    Missing,
    Failed,
}

impl Default for ArmStatus {
    fn default() -> (result: Self)
        ensures
            result == ArmStatus::Idle,
    {
        ArmStatus::Idle
    }
}

/// A generation that is in use, and the data directory it was opened in.
#[derive(Debug)]
pub struct GenerationReader {
    pub manifest: DerivedAnnGeneration,
    pub data_dir: PathParts,
}

impl GenerationReader {
    /// The generation belongs to this data directory.
    pub fn matches_storage(&self, data_dir: &PathParts) -> (result: bool)
        ensures
            result == (self.data_dir@ == data_dir@),
    {
        self.data_dir.same(data_dir)
    }
}

/// Which generation is in use, and which load may still install one. A token
/// names a life of the state: what began under an older token is discarded.
#[derive(Debug)]
pub struct ClipAnnState {
    pub generation: Option<GenerationReader>,
    pub last_error: Option<String>,
    pub token: u64,
    pub status: ArmStatus,
}

impl Default for ClipAnnState {
    fn default() -> (result: Self)
        ensures
            result == (ClipAnnState {
                generation: None,
                last_error: None,
                token: 0,
                status: ArmStatus::Idle,
            }),
    {
        ClipAnnState { generation: None, last_error: None, token: 0, status: ArmStatus::Idle }
    }
}

/// The answer to a search.
#[derive(Debug)]
pub struct ClipAnnQuery {
    pub candidates: Vec<ScoredSubject>,
    pub mode: &'static str,
    pub tail_rows: usize,
}

/// The token after this one.
pub open spec fn next_token(token: u64) -> u64 {
    if token == u64::MAX {
        0
    } else {
        (token + 1) as u64
    }
}

fn following(token: u64) -> (result: u64)
    ensures
        result == next_token(token),
{
    if token == u64::MAX {
        0
    } else {
        token + 1
    }
}

/// The outcome of a load at startup.
#[derive(Debug)]
pub enum StartupOutcome {
    Installed,
    Missing,
    Discarded,
    Failed { error: String },
    Crashed { error: String },
}

/// What follows a load at startup.
#[derive(Debug, Clone, Copy, PartialEq, Eq, Structural)]
pub enum StartupFollowUp {
    Nothing,
    /// A first generation is built once the data is there.
    Bootstrap,
    /// A new generation is asked for.
    Rebuild,
}

/// There is a generation to search in: one of this data directory, with rows.
pub open spec fn searchable(state: ClipAnnState, data_dir: Seq<Seq<char>>) -> bool {
    state.generation is Some && state.generation->0.data_dir@ == data_dir
        && state.generation->0.manifest.row_count != 0
}

impl ClipAnnState {
    /// A load under this token may still install its generation.
    pub open spec fn arm_current(self, token: u64) -> bool {
        self.token == token && self.status == ArmStatus::Loading
    }

    /// The state once the generation was let go.
    pub open spec fn disarmed(self) -> ClipAnnState {
        ClipAnnState {
            generation: None,
            token: next_token(self.token),
            status: ArmStatus::Idle,
            ..self
        }
    }

    /// The state once a generation was installed.
    pub open spec fn armed(self, generation: GenerationReader) -> ClipAnnState {
        ClipAnnState {
            generation: Some(generation),
            last_error: None,
            status: ArmStatus::Ready,
            ..self
        }
    }

    /// The epoch that the tail of a search begins at, where there is a
    /// generation to search in.
    pub fn generation_snapshot(&self, data_dir: &PathParts) -> (result: Option<u64>)
        ensures
            match result {
                Some(epoch) => searchable(*self, data_dir@)
                    && epoch == self.generation->0.manifest.covered_epoch,
                None => !searchable(*self, data_dir@),
            },
    {
        match &self.generation {
            Some(reader) => if reader.matches_storage(data_dir) && reader.manifest.row_count != 0 {
                Some(reader.manifest.covered_epoch)
            } else {
                None
            },
            None => None,
        }
    }

    /// A search goes to the graph: it is switched on, the query has the width
    /// of the index, and something is asked for.
    pub fn query_admissible(enabled: bool, width: usize, k: usize) -> (result: bool)
        ensures
            result == (enabled && width == CLIP_DIMENSIONS && k != 0),
    {
        enabled && width == CLIP_DIMENSIONS && k != 0
    }

    /// A tail that is too long is no failure: the search goes elsewhere.
    pub fn tail_failure(error: String) -> (result: Option<String>)
        ensures
            match result {
                None => text::begins(error@, "ann_tail_too_large:"@),
                Some(e) => e == error && !text::begins(error@, "ann_tail_too_large:"@),
            },
    {
        if text::starts_with(&error, "ann_tail_too_large:") {
            None
        } else {
            Some(error)
        }
    }

    pub fn has_generation(&self) -> (result: bool)
        ensures
            result == (self.generation is Some),
    {
        self.generation.is_some()
    }

    /// Lets the generation go. What began before is discarded.
    pub fn disarm(&mut self)
        ensures
            *final(self) == old(self).disarmed(),
    {
        self.generation = None;
        self.token = following(self.token);
        self.status = ArmStatus::Idle;
    }

    /// Whether a load begins.
    pub open spec fn arm_begun(before: Self, after: Self, result: Option<u64>) -> bool {
        match result {
            None => {
                &&& before.generation is Some || before.status == ArmStatus::Loading
                &&& after == if before.generation is Some {
                    ClipAnnState { status: ArmStatus::Ready, ..before }
                } else {
                    before
                }
            },
            Some(token) => {
                &&& before.generation is None && before.status != ArmStatus::Loading
                &&& token == next_token(before.token)
                &&& after == (ClipAnnState {
                    token,
                    status: ArmStatus::Loading,
                    ..before
                })
                &&& after.arm_current(token)
            },
        }
    }

    /// Begins to load a generation, unless one is in use or being loaded.
    pub fn begin_arm(&mut self) -> (result: Option<u64>)
        ensures
            Self::arm_begun(*old(self), *final(self), result),
    {
        if self.generation.is_some() {
            self.status = ArmStatus::Ready;
            return None;
        }
        if self.status == ArmStatus::Loading {
            return None;
        }
        self.token = following(self.token);
        self.status = ArmStatus::Loading;
        Some(self.token)
    }

    pub fn arm_is_current(&self, token: u64) -> (result: bool)
        ensures
            result == self.arm_current(token),
    {
        self.token == token && self.status == ArmStatus::Loading
    }

    pub fn lifecycle_token(&self) -> (result: u64)
        ensures
            result == self.token,
    {
        self.token
    }

    /// A load under this token ends with this status, if it is still current.
    pub fn finish_arm(&mut self, token: u64, status: ArmStatus) -> (result: bool)
        ensures
            result == old(self).arm_current(token),
            *final(self) == if result {
                ClipAnnState { status, ..*old(self) }
            } else {
                *old(self)
            },
    {
        if !self.arm_is_current(token) {
            return false;
        }
        self.status = status;
        true
    }

    /// Whether what was loaded is installed.
    pub open spec fn arm_installed(
        before: Self,
        after: Self,
        token: u64,
        data_dir: &PathParts,
        generation: GenerationReader,
        result: bool,
    ) -> bool {
        &&& result == (generation.data_dir@ == data_dir@ && before.arm_current(token))
        &&& after == if result {
            before.armed(generation)
        } else {
            before
        }
    }

    /// A load under this token installs its generation, if it is still current
    /// and the generation belongs to the data directory.
    pub fn install_from_arm(&mut self, token: u64, data_dir: &PathParts, generation: GenerationReader) -> (result:
        bool)
        ensures
            Self::arm_installed(*old(self), *final(self), token, data_dir, generation, result),
    {
        if !generation.matches_storage(data_dir) || !self.arm_is_current(token) {
            return false;
        }
        self.generation = Some(generation);
        self.last_error = None;
        self.status = ArmStatus::Ready;
        true
    }

    /// A build under this token may publish its generation.
    pub fn may_publish(&self, token: u64, data_dir: &PathParts, generation: &GenerationReader) -> (result:
        bool)
        ensures
            result == (generation.data_dir@ == data_dir@ && self.token == token),
    {
        generation.matches_storage(data_dir) && self.token == token
    }

    /// Whether a new generation is put in use.
    pub open spec fn publication_settled(
        before: Self,
        after: Self,
        token: u64,
        data_dir: &PathParts,
        generation: GenerationReader,
        recorded: Result<(), String>,
        result: Result<bool, String>,
    ) -> bool {
        ({
            let allowed = generation.data_dir@ == data_dir@ && before.token == token;
            if !allowed {
                result == Ok::<bool, String>(false) && after == before
            } else {
                match recorded {
                    Err(e) => result == Err::<bool, String>(e) && after == before,
                    Ok(_) => result == Ok::<bool, String>(true) && after == before.armed(generation),
                }
            }
        })
    }

    /// A build under this token publishes its generation. `recorded` tells how
    /// the manifest was stored; it is stored only where publishing is allowed.
    pub fn publish_from_lifecycle(
        &mut self,
        token: u64,
        data_dir: &PathParts,
        generation: GenerationReader,
        recorded: Result<(), String>,
    ) -> (result: Result<bool, String>)
        ensures
            Self::publication_settled(
                *old(self),
                *final(self),
                token,
                data_dir,
                generation,
                recorded,
                result,
            ),
    {
        if !self.may_publish(token, data_dir, &generation) {
            return Ok(false);
        }
        match recorded {
            Err(e) => Err(e),
            Ok(_) => {
                self.generation = Some(generation);
                self.last_error = None;
                self.status = ArmStatus::Ready;
                Ok(true)
            },
        }
    }

    /// What a failed load leaves behind.
    pub open spec fn arm_failed(
        before: Self,
        after: Self,
        token: u64,
        error: String,
        result: bool,
    ) -> bool {
        &&& result == before.arm_current(token)
        &&& after == if result {
            ClipAnnState {
                generation: None,
                last_error: Some(error),
                status: ArmStatus::Failed,
                ..before
            }
        } else {
            before
        }
    }

    /// A load under this token failed.
    pub fn fail_arm(&mut self, token: u64, error: String) -> (result: bool)
        ensures
            Self::arm_failed(*old(self), *final(self), token, error, result),
    {
        if !self.arm_is_current(token) {
            return false;
        }
        self.generation = None;
        self.last_error = Some(error);
        self.status = ArmStatus::Failed;
        true
    }

    /// A build under this token failed. A generation that is in use stays.
    pub fn record_error_if_current(&mut self, token: u64, error: String) -> (result: bool)
        ensures
            result == (old(self).token == token),
            *final(self) == if !result {
                *old(self)
            } else if old(self).generation is None {
                ClipAnnState {
                    last_error: Some(error),
                    status: ArmStatus::Failed,
                    ..*old(self)
                }
            } else {
                ClipAnnState { last_error: Some(error), ..*old(self) }
            },
    {
        if self.token != token {
            return false;
        }
        self.last_error = Some(error);
        if self.generation.is_none() {
            self.status = ArmStatus::Failed;
        }
        true
    }

    /// What a waiter for the load at startup learns: nothing yet while it
    /// lasts, then whether there is a generation.
    pub fn startup_answer(status: ArmStatus) -> (result: Option<bool>)
        ensures
            result == match status {
                ArmStatus::Ready => Some(true),
                ArmStatus::Loading => None,
                _ => Some(false),
            },
    {
        match status {
            ArmStatus::Ready => Some(true),
            ArmStatus::Loading => None,
            ArmStatus::Idle => Some(false),
            ArmStatus::Missing => Some(false),
            ArmStatus::Failed => Some(false),
        }
    }

    /// Settles a load at startup under this token.
    pub fn settle_startup(&mut self, token: u64, outcome: StartupOutcome) -> (result:
        StartupFollowUp)
        ensures
            match outcome {
                StartupOutcome::Installed => result == StartupFollowUp::Nothing && *final(self)
                    == *old(self),
                StartupOutcome::Discarded => result == StartupFollowUp::Nothing && *final(self)
                    == *old(self),
                StartupOutcome::Missing => {
                    &&& result == StartupFollowUp::Bootstrap
                    &&& *final(self) == if old(self).arm_current(token) {
                        ClipAnnState { status: ArmStatus::Missing, ..*old(self) }
                    } else {
                        *old(self)
                    }
                },
                StartupOutcome::Failed { error } => {
                    &&& result == StartupFollowUp::Rebuild
                    &&& *final(self) == if old(self).arm_current(token) {
                        ClipAnnState {
                            generation: None,
                            last_error: Some(error),
                            status: ArmStatus::Failed,
                            ..*old(self)
                        }
                    } else {
                        *old(self)
                    }
                },
                StartupOutcome::Crashed { error } => {
                    &&& result == StartupFollowUp::Nothing
                    &&& if old(self).arm_current(token) {
                        &&& final(self).last_error is Some
                        &&& final(self).last_error->0@ == "ANN startup task failed: "@ + error@
                        &&& *final(self) == (ClipAnnState {
                            generation: None,
                            last_error: final(self).last_error,
                            status: ArmStatus::Failed,
                            ..*old(self)
                        })
                    } else {
                        *final(self) == *old(self)
                    }
                },
            },
    {
        match outcome {
            StartupOutcome::Installed => StartupFollowUp::Nothing,
            StartupOutcome::Discarded => StartupFollowUp::Nothing,
            StartupOutcome::Missing => {
                self.finish_arm(token, ArmStatus::Missing);
                StartupFollowUp::Bootstrap
            },
            StartupOutcome::Failed { error } => {
                self.fail_arm(token, error);
                StartupFollowUp::Rebuild
            },
            StartupOutcome::Crashed { error } => {
                self.fail_arm(token, text::join2("ANN startup task failed: ", &error));
                StartupFollowUp::Nothing
            },
        }
    }

    /// How the graph stands: its state, the generation in use, and the last
    /// error.
    pub fn status(&self, enabled: bool) -> (result: (&'static str, Option<u64>, Option<String>))
        ensures
            if !enabled {
                result.0@ == "disabled"@ && result.1 is None && result.2 is None
            } else {
                &&& result.2 == self.last_error
                &&& match self.generation {
                    Some(reader) => result.0@ == "armed"@ && result.1 == Some(
                        reader.manifest.generation,
                    ),
                    None => {
                        &&& result.1 is None
                        &&& result.0@ == if self.status == ArmStatus::Loading {
                            "arming"@
                        } else if self.status == ArmStatus::Failed {
                            "failed"@
                        } else {
                            "exact_fallback"@
                        }
                    },
                }
            },
    {
        if !enabled {
            return ("disabled", None, None);
        }
        let error: Option<String> = match &self.last_error {
            Some(e) => Some(e.clone()),
            None => None,
        };
        match &self.generation {
            Some(reader) => ("armed", Some(reader.manifest.generation), error),
            None => {
                let status: &'static str = match self.status {
                    ArmStatus::Loading => "arming",
                    ArmStatus::Failed => "failed",
                    ArmStatus::Idle => "exact_fallback",
                    ArmStatus::Missing => "exact_fallback",
                    ArmStatus::Ready => "exact_fallback",
                };
                (status, None, error)
            },
        }
    }
}

/// Once the state was disarmed, neither a load nor a build that began before
/// can put a generation in place.
pub proof fn law_disarm_discards_older_work(state: ClipAnnState)
    ensures
        !state.disarmed().arm_current(state.token),
        state.disarmed().token != state.token,
        state.disarmed().generation is None,
{
}

/// A load that begins after the state was disarmed has a token of its own.
pub proof fn law_new_loads_have_new_tokens(state: ClipAnnState)
    ensures
        next_token(state.disarmed().token) != state.token,
        next_token(state.disarmed().token) != state.disarmed().token,
{
}

/// The first generation may be built.
pub fn startup_bootstrap_ready(clip_done: bool, maintenance_active: bool) -> (result: bool)
    ensures
        result == (clip_done && !maintenance_active),
{
    clip_done && !maintenance_active
}

/// The length of tail from which on a generation over so many rows is built
/// anew.
pub open spec fn rebuild_threshold(rows: u64) -> int {
    let scaled = if rows * 5 > u64::MAX {
        u64::MAX as int
    } else {
        rows * 5
    };
    if scaled / 100 < 5000 {
        5000
    } else {
        scaled / 100
    }
}

/// A generation is to be built: by request or without one there is, wherever
/// there is something to index; else once the tail is long and the present one
/// is twelve hours old. An age that cannot be told counts as old.
pub open spec fn rebuild_wanted(
    existing: Option<&DerivedAnnGeneration>,
    force: bool,
    visible: bool,
    tail: u64,
    age: Option<u128>,
) -> bool {
    match existing {
        None => visible,
        Some(generation) => if force {
            visible
        } else {
            &&& tail >= rebuild_threshold(generation.row_count)
            &&& age is None || age->0 >= 43_200_000_000_000
        },
    }
}

/// A generation is to be built, by the age of the present one.
pub fn rebuild_at_age(
    existing: Option<&DerivedAnnGeneration>,
    force: bool,
    visible: bool,
    tail: u64,
    age: Option<u128>,
) -> (result: bool)
    ensures
        result == rebuild_wanted(existing, force, visible, tail, age),
{
    let generation = match existing {
        None => {
            return visible;
        },
        Some(generation) => generation,
    };
    if force {
        return visible;
    }
    let scaled: u64 = match generation.row_count.checked_mul(REBUILD_TAIL_PERCENT) {
        Some(n) => n,
        None => u64::MAX,
    };
    let share: u64 = scaled / 100;
    let threshold: u64 = if share < REBUILD_TAIL_ROWS {
        REBUILD_TAIL_ROWS
    } else {
        share
    };
    if tail < threshold {
        return false;
    }
    match age {
        Some(ns) => ns >= MIN_REBUILD_INTERVAL_NS,
        None => true,
    }
}

/// The age of the moment that a stored text names.
pub open spec fn age_of(created_at: Seq<char>, now: Moment) -> Option<u128> {
    match timestamps::moment_from(
        timestamps::rfc3339_of(created_at),
        timestamps::plain_time_of(created_at, DATABASE_FORMAT@),
    ) {
        Some(created) => timestamps::elapsed_of(
            now.seconds,
            now.nanos,
            created.seconds,
            created.nanos,
        ),
        None => None,
    }
}

/// A generation is to be built.
pub fn rebuild_needed(
    existing: Option<&DerivedAnnGeneration>,
    force: bool,
    visible: bool,
    tail: u64,
    now: Moment,
) -> (result: bool)
    ensures
        result == rebuild_wanted(
            existing,
            force,
            visible,
            tail,
            match existing {
                Some(generation) => age_of(generation.created_at@, now),
                None => None,
            },
        ),
{
    let age: Option<u128> = match existing {
        Some(generation) => match parse_ann_timestamp(&generation.created_at) {
            Some(created) => timestamps::elapsed_since(now, created),
            None => None,
        },
        None => None,
    };
    rebuild_at_age(existing, force, visible, tail, age)
}

/// The manifest was written for this model and these formats.
pub open spec fn contract_holds(manifest: DerivedAnnGeneration) -> bool {
    &&& manifest.index_kind == DerivedIndexKind::ClipImage
    &&& manifest.model_id@ == CLIP_MODEL_ID@
    &&& manifest.model_revision@ == CLIP_VECTOR_SPACE_REVISION@
    &&& manifest.embedding_version == CLIP_EMBEDDING_VERSION
    &&& manifest.dimensions == CLIP_DIMENSIONS
    &&& manifest.sidecar_format_version == FORMAT_VERSION
    &&& manifest.ann_format_version == ANN_FILE_FORMAT_VERSION
    &&& manifest.algorithm@ == ANN_ALGORITHM@
    &&& manifest.implementation_version@ == ANN_IMPLEMENTATION_VERSION@
    &&& manifest.metric@ == ANN_METRIC@
    &&& manifest.quantization@ == ANN_QUANTIZATION@
    &&& manifest.connectivity == ANN_CONNECTIVITY
    &&& manifest.expansion_add == ANN_EXPANSION_ADD
}

/// The name of the file with the vectors of a generation.
pub open spec fn flat_name(generation: u64) -> Seq<char> {
    "clip_image-"@ + text::decimal(generation as nat) + ".cpdvec"@
}

/// The name of the file with the graph of a generation.
pub open spec fn graph_name(generation: u64) -> Seq<char> {
    "clip_image-"@ + text::decimal(generation as nat) + ".cpdann"@
}

pub fn flat_file_name(generation: u64) -> (result: String)
    ensures
        result@ == flat_name(generation),
{
    text::join3("clip_image-", &text::decimal_string(generation), ".cpdvec")
}

pub fn graph_file_name(generation: u64) -> (result: String)
    ensures
        result@ == graph_name(generation),
{
    text::join3("clip_image-", &text::decimal_string(generation), ".cpdann")
}

/// Why a manifest is refused, if it is. A file name other than that of the
/// generation could lead out of the directory.
pub open spec fn manifest_fault(manifest: DerivedAnnGeneration) -> Option<Seq<char>> {
    if !contract_holds(manifest) {
        Some("ANN generation model or format contract mismatch"@)
    } else if manifest.flat_file_name@ != flat_name(manifest.generation)
        || manifest.ann_file_name@ != graph_name(manifest.generation) {
        Some("ANN generation file names do not match the generation"@)
    } else {
        None
    }
}

/// Refuses a manifest that was not written for this model and these formats,
/// or names other files.
pub fn validate_manifest(manifest: &DerivedAnnGeneration) -> (result: Result<(), String>)
    ensures
        match result {
            Ok(_) => manifest_fault(*manifest) is None,
            Err(e) => manifest_fault(*manifest) == Some(e@),
        },
{
    if manifest.index_kind != DerivedIndexKind::ClipImage || !text::same(
        &manifest.model_id,
        CLIP_MODEL_ID,
    ) || !text::same(&manifest.model_revision, CLIP_VECTOR_SPACE_REVISION)
        || manifest.embedding_version != CLIP_EMBEDDING_VERSION || manifest.dimensions as usize
        != CLIP_DIMENSIONS || manifest.sidecar_format_version != FORMAT_VERSION
        || manifest.ann_format_version != ANN_FILE_FORMAT_VERSION || !text::same(
        &manifest.algorithm,
        ANN_ALGORITHM,
    ) || !text::same(&manifest.implementation_version, ANN_IMPLEMENTATION_VERSION) || !text::same(
        &manifest.metric,
        ANN_METRIC,
    ) || !text::same(&manifest.quantization, ANN_QUANTIZATION) || manifest.connectivity
        != ANN_CONNECTIVITY || manifest.expansion_add != ANN_EXPANSION_ADD {
        return Err("ANN generation model or format contract mismatch".to_owned());
    }
    if !text::same(&manifest.flat_file_name, &flat_file_name(manifest.generation)) || !text::same(
        &manifest.ann_file_name,
        &graph_file_name(manifest.generation),
    ) {
        return Err("ANN generation file names do not match the generation".to_owned());
    }
    Ok(())
}

/// The header says of itself what the manifest says of it.
pub open spec fn header_fits(manifest: DerivedAnnGeneration, header: Header) -> bool {
    &&& header.generation == manifest.generation
    &&& header.covered_epoch == manifest.covered_epoch
    &&& header.row_count == manifest.row_count
    &&& header.dimensions == manifest.dimensions
    &&& header.expansion_search == manifest.expansion_search
}

/// Refuses files whose digests are not those of the manifest.
pub fn check_checksums(manifest: &DerivedAnnGeneration, flat: &[u8], graph: &[u8]) -> (result: Result<
    (),
    String,
>)
    ensures
        ({
            let fits = digest::hex_text(digest::sha256_of(flat@)) == manifest.flat_checksum_sha256@
                && digest::hex_text(digest::sha256_of(graph@)) == manifest.ann_checksum_sha256@;
            match result {
                Ok(_) => fits,
                Err(e) => !fits && e@ == "ANN generation checksum mismatch"@,
            }
        }),
{
    if !text::same(&digest::sha256_hex(flat), &manifest.flat_checksum_sha256) || !text::same(
        &digest::sha256_hex(graph),
        &manifest.ann_checksum_sha256,
    ) {
        return Err("ANN generation checksum mismatch".to_owned());
    }
    Ok(())
}

/// Refuses vectors that are not those of the manifest.
pub fn check_header(manifest: &DerivedAnnGeneration, header: &Header) -> (result: Result<
    (),
    String,
>)
    ensures
        match result {
            Ok(_) => header_fits(*manifest, *header),
            Err(e) => !header_fits(*manifest, *header) && e@
                == "ANN flat header does not match manifest"@,
        },
{
    if header.generation != manifest.generation || header.covered_epoch != manifest.covered_epoch
        || header.row_count != manifest.row_count || header.dimensions != manifest.dimensions
        || header.expansion_search != manifest.expansion_search {
        return Err("ANN flat header does not match manifest".to_owned());
    }
    Ok(())
}

/// The graph says of itself what the manifest says of it.
pub open spec fn graph_fits(manifest: DerivedAnnGeneration, facts: GraphFacts) -> bool {
    &&& facts.dimensions == manifest.dimensions
    &&& facts.size == manifest.row_count
    &&& facts.connectivity == manifest.connectivity
    &&& facts.inner_product
    &&& facts.eight_bit
}

/// Refuses a graph that was not restored as the manifest says.
/// `expansion_search` is what the graph reports after it was set.
pub fn check_graph(
    manifest: &DerivedAnnGeneration,
    facts: GraphFacts,
    expansion_search: u64,
) -> (result: Result<(), String>)
    ensures
        match result {
            Ok(_) => expansion_search == manifest.expansion_search && graph_fits(*manifest, facts),
            Err(e) => if expansion_search != manifest.expansion_search {
                e@ == "ANN expansion_search was not restored"@
            } else {
                !graph_fits(*manifest, facts) && e@ == "ANN graph contract does not match manifest"@
            },
        },
{
    match apply_expansion_search(expansion_search, manifest.expansion_search as u64) {
        Err(e) => {
            return Err(e);
        },
        Ok(_) => {},
    }
    if facts.dimensions != manifest.dimensions as u64 || facts.size != manifest.row_count
        || facts.connectivity != manifest.connectivity as u64 || !facts.inner_product
        || !facts.eight_bit {
        return Err("ANN graph contract does not match manifest".to_owned());
    }
    Ok(())
}

/// The width of search was taken over: what the graph reports is what was set.
pub fn apply_expansion_search(reported: u64, expansion_search: u64) -> (result: Result<(), String>)
    ensures
        match result {
            Ok(_) => reported == expansion_search,
            Err(e) => reported != expansion_search && e@
                == "ANN expansion_search was not restored"@,
        },
{
    if reported != expansion_search {
        return Err("ANN expansion_search was not restored".to_owned());
    }
    Ok(())
}

/// The rows to be written, by key and by vector.
pub open spec fn page_keys(page: Seq<DerivedAnnSnapshotRow>) -> Seq<Seq<char>> {
    page.map_values(|row: DerivedAnnSnapshotRow| row.subject_key@)
}

pub open spec fn page_vectors(page: Seq<DerivedAnnSnapshotRow>) -> Seq<Seq<u8>> {
    page.map_values(|row: DerivedAnnSnapshotRow| row.vector_f32@)
}

/// Some row of the page has another width.
pub open spec fn page_mixed(page: Seq<DerivedAnnSnapshotRow>, dimensions: u32) -> bool {
    exists|i: int| 0 <= i < page.len() && (#[trigger] page[i]).dimensions != dimensions
}

/// Hands a page of the snapshot to the writer: all keys, then all vectors. A
/// page that is refused halfway leaves the writer with the keys.
pub fn write_ann_snapshot_page(
    writer: &mut FlatFileWriter,
    dimensions: u32,
    written_rows: &mut u64,
    page: &[DerivedAnnSnapshotRow],
) -> (result: Result<(), String>)
    requires
        old(writer).wf(),
        old(writer).shape().keys_offset + ann_sidecar::key_payload(old(writer).key_rows()).len()
            <= u64::MAX,
    ensures
        final(writer).wf(),
        if page_mixed(page@, dimensions) {
            &&& result is Err
            &&& result->Err_0@ == "ANN snapshot contains mixed dimensions"@
            &&& *final(writer) == *old(writer)
            &&& *final(written_rows) == *old(written_rows)
        } else {
            exists|middle: FlatFileWriter, keyed: Result<(), String>|
                {
                    &&& #[trigger] middle.keys_step(*old(writer), page_keys(page@), keyed)
                    &&& match keyed {
                        Err(e) => {
                            &&& result is Err
                            &&& result->Err_0@ == e@
                            &&& *final(writer) == middle
                            &&& *final(written_rows) == *old(written_rows)
                        },
                        Ok(_) => {
                            &&& final(writer).vectors_step(middle, page_vectors(page@), result)
                            &&& *final(written_rows) == if result is Err {
                                *old(written_rows)
                            } else if *old(written_rows) + page@.len() > u64::MAX {
                                u64::MAX
                            } else {
                                (*old(written_rows) + page@.len()) as u64
                            }
                        },
                    }
                }
        },
{
    let mut keys: Vec<&str> = Vec::new();
    let mut vectors: Vec<&[u8]> = Vec::new();
    let mut i: usize = 0;
    while i < page.len()
        invariant
            i <= page@.len(),
            *writer == *old(writer),
            *written_rows == *old(written_rows),
            old(writer).wf(),
            keys@.len() == i,
            vectors@.len() == i,
            forall|j: int| 0 <= j < i ==> (#[trigger] page@[j]).dimensions == dimensions,
            forall|j: int| 0 <= j < i ==> (#[trigger] keys@[j])@ == page@[j].subject_key@,
            forall|j: int| 0 <= j < i ==> (#[trigger] vectors@[j])@ == page@[j].vector_f32@,
        decreases page@.len() - i,
    {
        if page[i].dimensions != dimensions {
            return Err("ANN snapshot contains mixed dimensions".to_owned());
        }
        keys.push(page[i].subject_key.as_str());
        vectors.push(page[i].vector_f32.as_slice());
        i = i + 1;
    }
    assert(ann_sidecar::key_views(keys@) =~= page_keys(page@));
    assert(ann_sidecar::byte_views(vectors@) =~= page_vectors(page@));
    let ghost before = *writer;
    let keyed = writer.push_keys(&keys);
    let ghost middle = *writer;
    assert(middle.keys_step(before, page_keys(page@), keyed));
    match keyed {
        Err(e) => {
            return Err(e);
        },
        Ok(_) => {},
    }
    match writer.push_vector_bytes(&vectors) {
        Err(e) => {
            return Err(e);
        },
        Ok(_) => {},
    }
    let count: u64 = page.len() as u64;
    *written_rows = written_rows.saturating_add(count);
    Ok(())
}

/// A notice of a failed build.
#[derive(Debug)]
pub struct AnnFailureToast {
    pub id: String,
    pub details: String,
    pub timestamp: i64,
}

/// The notice of the last failed build. A moment that cannot be read is taken
/// to be now.
pub fn ann_failure_toast(state: &DerivedAnnBuildState, now_ms: i64) -> (result: AnnFailureToast)
    ensures
        result.id@ == "clip-ann-build-"@ + state.last_failure_at@,
        result.details@ == state.last_error_code@,
        result.timestamp == match timestamps::rfc3339_of(state.last_failure_at@) {
            Some(at) => at.2,
            None => match timestamps::plain_time_of(state.last_failure_at@, DATABASE_FORMAT@) {
                Some(at) => at.2,
                None => now_ms,
            },
        },
{
    AnnFailureToast {
        id: text::join2("clip-ann-build-", &state.last_failure_at),
        details: state.last_error_code.clone(),
        timestamp: match timestamps::parse_moment_millis(&state.last_failure_at) {
            Some(ms) => ms,
            None => now_ms,
        },
    }
}

/// A build may begin if it is forced or did not fail before; after a failure it
/// waits for its time, and without a time it waits for ever.
pub proof fn law_failed_builds_wait_for_their_time(
    next_retry: Option<Moment>,
    now: Moment,
    force: bool,
)
    ensures
        retry_due(false, next_retry, now, force),
        retry_due(true, next_retry, now, true),
        !retry_due(true, None, now, false),
        next_retry matches Some(at) ==> now.nanos < 1_000_000_000 && at.nanos < 1_000_000_000 ==> (
        retry_due(true, next_retry, now, false) <==> now.seconds * 1_000_000_000 + now.nanos
            >= at.seconds * 1_000_000_000 + at.nanos),
{
}

/// A failure that will not pass by itself stops the builds at once, for a day,
/// and is told: a missing program, no memory, a full disk, a denied access.
pub proof fn law_lasting_failures_stop_the_builds(
    policy: AnnFailurePolicy,
    error: Seq<char>,
    failures: u32,
)
    requires
        policy_fits(policy, error, failures),
    ensures
        ({
            let lower = text::lower_ascii(error);
            text::holds_text(lower, "carbonpaper-ml.exe was not found"@) || text::holds_text(
                lower,
                "ann builder job"@,
            ) || text::holds_text(lower, "out of memory"@) || text::holds_text(
                lower,
                "cannot allocate memory"@,
            ) || text::holds_text(lower, "std::bad_alloc"@) || text::holds_text(
                lower,
                "disk full"@,
            ) || text::holds_text(lower, "no space left"@) || text::holds_text(
                lower,
                "access is denied"@,
            ) || text::holds_text(lower, "permission denied"@) || text::holds_text(
                lower,
                "format contract mismatch"@,
            ) ==> policy.circuit_open && policy.notify && policy.delay == 86_400
        }),
        text::holds_text(text::lower_ascii(error), "carbonpaper-ml.exe was not found"@)
            ==> policy.code@ == "builder_missing"@,
        policy.circuit_open ==> policy.notify,
        failures >= 3 ==> policy.circuit_open,
        policy.delay >= 900 && policy.delay <= 86_400,
{
}

/// Any other failure is tried again, later after each further one: after a
/// quarter of an hour, an hour, six hours and a day. From the third on the
/// builds stop, and it is told.
pub proof fn law_passing_failures_are_tried_again(
    policy: AnnFailurePolicy,
    error: Seq<char>,
    failures: u32,
    more: u32,
)
    requires
        policy_fits(policy, error, failures),
        permanent_code(text::lower_ascii(error)) is None,
        failures <= more,
    ensures
        failures < 3 <==> !policy.circuit_open,
        policy.notify == policy.circuit_open,
        failures == 1 ==> policy.delay == 15 * 60,
        failures == 2 ==> policy.delay == 60 * 60,
        failures == 3 ==> policy.delay == 6 * 60 * 60,
        failures > 3 ==> policy.delay == 24 * 60 * 60,
        policy.delay <= transient_delay(more),
{
}

/// Each failure counts one more than the last.
pub proof fn law_failures_are_counted(state: DerivedAnnBuildState)
    requires
        state.consecutive_failures < u32::MAX,
    ensures
        one_more_failure(Some(&state)) == state.consecutive_failures + 1,
        one_more_failure(None) == 1,
{
}

/// A generation is built anew when what came since is five in a hundred of its
/// rows and at least five thousand, and it is half a day old. A first one is
/// built as soon as there is something to build it from.
pub proof fn law_generations_are_built_in_time(
    generation: DerivedAnnGeneration,
    visible: bool,
    tail: u64,
    age: u128,
)
    ensures
        rebuild_wanted(None, false, visible, tail, Some(age)) == visible,
        rebuild_wanted(Some(&generation), true, visible, tail, Some(age)) == visible,
        rebuild_wanted(Some(&generation), false, visible, tail, Some(age)) ==> tail >= 5000 && age
            >= 43_200_000_000_000,
        generation.row_count <= 1_000_000_000_000 ==> (rebuild_wanted(
            Some(&generation),
            false,
            visible,
            tail,
            Some(age),
        ) <==> tail >= 5000 && 100 * tail + 99 >= 5 * generation.row_count && age
            >= 43_200_000_000_000),
        tail < 5000 ==> !rebuild_wanted(Some(&generation), false, visible, tail, None),
{
}

/// Generations do not share files: each has two of its own, with its number in
/// their names.
pub proof fn law_generations_have_files_of_their_own(a: u64, b: u64)
    ensures
        a != b ==> flat_name(a) != flat_name(b),
        a != b ==> graph_name(a) != graph_name(b),
        flat_name(a) != graph_name(b),
{
    reveal_strlit("clip_image-");
    reveal_strlit(".cpdvec");
    reveal_strlit(".cpdann");
    let da = text::decimal(a as nat);
    let db = text::decimal(b as nat);
    text::law_decimals_tell_the_number(a as nat);
    text::law_decimals_tell_the_number(b as nat);
    if flat_name(a) == flat_name(b) {
        assert(flat_name(a).subrange(11, (11 + da.len()) as int) =~= da);
        assert(flat_name(b).subrange(11, (11 + db.len()) as int) =~= db);
        assert(flat_name(a).len() == 11 + da.len() + 7);
        assert(flat_name(b).len() == 11 + db.len() + 7);
        assert(da == db);
    }
    if graph_name(a) == graph_name(b) {
        assert(graph_name(a).subrange(11, (11 + da.len()) as int) =~= da);
        assert(graph_name(b).subrange(11, (11 + db.len()) as int) =~= db);
        assert(graph_name(a).len() == 11 + da.len() + 7);
        assert(graph_name(b).len() == 11 + db.len() + 7);
        assert(da == db);
    }
    let flat = flat_name(a);
    let graph = graph_name(b);
    assert(flat.last() == 'c');
    assert(graph.last() == 'n');
}

/// Only a generation of the model and the formats in use, with files of its own
/// number, is loaded.
pub proof fn law_foreign_generations_are_refused(manifest: DerivedAnnGeneration)
    requires
        manifest_fault(manifest) is None,
    ensures
        manifest.index_kind == DerivedIndexKind::ClipImage,
        manifest.model_id@ == CLIP_MODEL_ID@,
        manifest.model_revision@ == CLIP_VECTOR_SPACE_REVISION@,
        manifest.dimensions == CLIP_DIMENSIONS,
        manifest.ann_format_version == 1,
        manifest.metric@ == ANN_METRIC@,
        manifest.quantization@ == ANN_QUANTIZATION@,
        manifest.flat_file_name@ == "clip_image-"@ + text::decimal(manifest.generation as nat)
            + ".cpdvec"@,
        manifest.ann_file_name@ == "clip_image-"@ + text::decimal(manifest.generation as nat)
            + ".cpdann"@,
{
}

/// A load that was begun for one storage serves no other, and once disarmed
/// nothing is searched until a generation is installed.
pub proof fn law_only_installed_generations_are_searched(
    state: ClipAnnState,
    generation: GenerationReader,
    data_dir: Seq<Seq<char>>,
)
    ensures
        !searchable(state.disarmed(), data_dir),
        searchable(state.armed(generation), generation.data_dir@) <==> generation.manifest.row_count
            != 0,
        data_dir != generation.data_dir@ ==> !searchable(state.armed(generation), data_dir),
        state.armed(generation).last_error is None,
        state.armed(generation).status == ArmStatus::Ready,
        !state.armed(generation).arm_current(state.token),
{
}

/// A file is used only with the manifest that describes it: the same generation,
/// the same rows up to the same epoch, of the same width.
pub proof fn law_files_fit_their_manifest(
    manifest: DerivedAnnGeneration,
    header: Header,
    facts: GraphFacts,
)
    ensures
        header_fits(manifest, header) ==> header.generation == manifest.generation
            && header.row_count == manifest.row_count && header.covered_epoch
            == manifest.covered_epoch && header.dimensions == manifest.dimensions,
        graph_fits(manifest, facts) ==> facts.size == manifest.row_count && facts.dimensions
            == manifest.dimensions && facts.inner_product && facts.eight_bit,
{
}

/// One load is under way at a time, and none begins while a generation is there.
pub proof fn law_one_load_at_a_time(
    first: ClipAnnState,
    second: ClipAnnState,
    third: ClipAnnState,
    token: Option<u64>,
    again: Option<u64>,
)
    requires
        ClipAnnState::arm_begun(first, second, token),
        ClipAnnState::arm_begun(second, third, again),
    ensures
        first.generation is Some ==> token is None,
        first.status == ArmStatus::Loading ==> token is None,
        first.generation is None && first.status != ArmStatus::Loading ==> token is Some
            && second.status == ArmStatus::Loading && second.token == token->0 && token->0
            != first.token,
        token is Some ==> again is None,
        second.generation == first.generation,
{
}

/// What was loaded for a state that has been given up since is dropped, and so
/// is what was loaded for another storage.
pub proof fn law_stale_loads_are_dropped(
    before: ClipAnnState,
    after: ClipAnnState,
    token: u64,
    data_dir: &PathParts,
    generation: GenerationReader,
    installed: bool,
)
    requires
        ClipAnnState::arm_installed(before, after, token, data_dir, generation, installed),
    ensures
        token != before.token || before.status != ArmStatus::Loading || generation.data_dir@
            != data_dir@ ==> !installed && after == before,
        token == before.token && before.status == ArmStatus::Loading && generation.data_dir@
            == data_dir@ ==> installed && after.generation == Some(generation) && after.status
            == ArmStatus::Ready && after.last_error is None,
{
}

/// A generation is put in use only once it was recorded, for the state and the
/// storage it was built for; otherwise what is in use stays.
pub proof fn law_recorded_generations_are_put_in_use(
    before: ClipAnnState,
    after: ClipAnnState,
    token: u64,
    data_dir: &PathParts,
    generation: GenerationReader,
    recorded: Result<(), String>,
    result: Result<bool, String>,
)
    requires
        ClipAnnState::publication_settled(
            before,
            after,
            token,
            data_dir,
            generation,
            recorded,
            result,
        ),
    ensures
        result == Ok::<bool, String>(true) <==> token == before.token && generation.data_dir@
            == data_dir@ && recorded is Ok,
        result == Ok::<bool, String>(true) ==> after.generation == Some(generation),
        result != Ok::<bool, String>(true) ==> after == before,
{
}

/// Only the load that is under way can fail the state.
pub proof fn law_stale_failures_are_dropped(
    before: ClipAnnState,
    after: ClipAnnState,
    token: u64,
    error: String,
    told: bool,
)
    requires
        ClipAnnState::arm_failed(before, after, token, error, told),
    ensures
        token != before.token || before.status != ArmStatus::Loading ==> !told && after == before,
        told ==> after.generation is None && after.last_error == Some(error) && after.status
            == ArmStatus::Failed,
{
}

} // verus!
