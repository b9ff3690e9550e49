//! The resumable build of a generation.
//!
//! Frozen input, files and complete graph checkpoints each have their own
//! commit boundary, and searches keep using the generation before. A unit of
//! the build is one step of the phase that the checkpoint is in; the reads,
//! writes and requests of the step are done outside.
use crate::ann_format::{
    Header, ANN_ALGORITHM, ANN_CONNECTIVITY, ANN_EXPANSION_ADD, ANN_IMPLEMENTATION_VERSION,
    ANN_METRIC, ANN_QUANTIZATION, FORMAT_VERSION,
};
use crate::ann_protocol::{AnnReply, AnnRequest, ANN_WORKER_PROTOCOL};
use crate::background_policy::{CostKey, CostSample, CPU_RATE_PERCENT, IO_BYTES_PER_SECOND};
use crate::background_scheduler::{ScheduledSliceResult, TASK_ANN_BUILD};
use crate::clip_ann::ANN_FILE_FORMAT_VERSION;
use crate::clip_contract::{
    CLIP_DIMENSIONS, CLIP_EMBEDDING_VERSION, CLIP_MODEL_ID, CLIP_VECTOR_SPACE_REVISION,
};
use crate::derived::{DerivedAnnGeneration, DerivedAnnSnapshotRow, DerivedIndexKind};
use crate::paths::PathParts;
use crate::{
    ann_format, background_policy, clip_ann, clip_contract, clip_search, digest, ieee, text,
};
use vstd::prelude::*;
use vstd::string::*;
use vstd::utf8::*;

verus! {

/// How long an idle builder is kept, in milliseconds.
pub const WORKER_IDLE_MS: u64 = 300_000;

/// How long a step beside the user may take, in milliseconds.
pub const BACKGROUND_STEP_MS: u64 = 1000;

/// How long any step may take, in milliseconds.
pub const STEP_WATCHDOG_MS: u64 = 300_000;

/// How long a cancelled builder is waited for, in milliseconds.
pub const CANCEL_GRACE_MS: u64 = 500;

/// Rows written in one unit.
pub const PAGE_ROWS: u64 = 64;

/// A complete graph over the first rows of the input.
#[derive(Debug)]
pub struct AnnCheckpointFile {
    pub name: String,
    pub checksum: String,
    pub rows: u64,
}

/// How far a build has come.
#[derive(Debug)]
pub struct AnnBuildCheckpoint {
    pub runtime_generation: Option<u64>,
    pub generation: u64,
    pub dataset_id: String,
    pub model_fingerprint: String,
    pub covered_epoch: u64,
    pub scan_upper: String,
    pub scan_cursor: String,
    pub expected_rows: u64,
    pub frozen_rows: u64,
    pub key_bytes: u64,
    pub phase: String,
    pub materialized_rows: u64,
    pub materialized_key_bytes: u64,
    pub flat_checksum: Option<String>,
    pub graph_bytes: u64,
    pub complete: Option<AnnCheckpointFile>,
    pub previous: Option<AnnCheckpointFile>,
    pub copy_offset: u64,
}

/// The build moved to this phase, and nothing else changed.
pub open spec fn moved(after: AnnBuildCheckpoint, before: AnnBuildCheckpoint, phase: Seq<char>) -> bool {
    after.phase@ == phase && after == (AnnBuildCheckpoint { phase: after.phase, ..before })
}

/// The build starts over with writing its vectors.
pub open spec fn rewinds(after: AnnBuildCheckpoint, before: AnnBuildCheckpoint) -> bool {
    after == (AnnBuildCheckpoint { materialized_rows: 0, materialized_key_bytes: 0, ..before })
}

impl AnnBuildCheckpoint {
    /// The name of the file with the vectors.
    pub fn flat_name(&self) -> (result: String)
        ensures
            result@ == clip_ann::flat_name(self.generation),
    {
        clip_ann::flat_file_name(self.generation)
    }

    /// The name of the file with the graph.
    pub fn ann_name(&self) -> (result: String)
        ensures
            result@ == clip_ann::graph_name(self.generation),
    {
        clip_ann::graph_file_name(self.generation)
    }
}

/// What tells one build apart from another with other formats.
pub open spec fn contract_text() -> Seq<char> {
    CLIP_VECTOR_SPACE_REVISION@ + ":"@ + ANN_IMPLEMENTATION_VERSION@ + ":"@ + text::decimal(4)
        + ":"@ + text::decimal(1)
}

pub fn build_contract() -> (result: String)
    ensures
        result@ == contract_text(),
{
    let head = text::join3(CLIP_VECTOR_SPACE_REVISION, ":", ANN_IMPLEMENTATION_VERSION);
    let middle = text::join3(&head, ":", &text::decimal_string(FORMAT_VERSION as u64));
    text::join3(&middle, ":", &text::decimal_string(ANN_WORKER_PROTOCOL as u64))
}

/// The parameters that a cost is measured under.
pub const COST_PARAMETERS: &'static str = "usearch-2.26.0:i8:m16:ef160:threads1:io256k:v1";

/// The number of rows that a cost is counted for.
pub open spec fn cost_rows(state: AnnBuildCheckpoint) -> u64 {
    if state.expected_rows < state.frozen_rows {
        state.frozen_rows
    } else {
        state.expected_rows
    }
}

/// The identity of an operation of the build.
pub open spec fn key_for(operation: Seq<char>, rows: u64) -> background_policy::KeyModel {
    background_policy::KeyModel {
        task: "ann_build"@,
        operation,
        model: CLIP_VECTOR_SPACE_REVISION@,
        input_bucket: background_policy::bucket(rows),
        parameters: COST_PARAMETERS@,
    }
}

/// The identity of an operation of the build.
pub fn ann_key(state: &AnnBuildCheckpoint, operation: &str) -> (result: CostKey)
    ensures
        result@ == key_for(operation@, cost_rows(*state)),
{
    let rows: u64 = if state.expected_rows < state.frozen_rows {
        state.frozen_rows
    } else {
        state.expected_rows
    };
    CostKey::new(TASK_ANN_BUILD, operation, CLIP_VECTOR_SPACE_REVISION, rows, COST_PARAMETERS)
}

/// The character could lead out of a directory.
pub open spec fn leads_away(c: char) -> bool {
    c == '/' || c == '\\' || c == ':'
}

/// The name is that of a checkpoint of this generation, and of a file in the
/// directory itself.
pub open spec fn checkpoint_name_ok(generation: u64, name: Seq<char>) -> bool {
    &&& text::begins(
        name,
        "clip_image-"@ + text::decimal(generation as nat) + ".checkpoint-"@,
    )
    &&& forall|i: int| 0 <= i < name.len() ==> !leads_away(#[trigger] name[i])
}

/// The name is that of a checkpoint of this build.
pub fn check_checkpoint_name(state: &AnnBuildCheckpoint, name: &str) -> (result: bool)
    ensures
        result == checkpoint_name_ok(state.generation, name@),
{
    let prefix = text::join3(
        "clip_image-",
        &text::decimal_string(state.generation),
        ".checkpoint-",
    );
    if !text::starts_with(name, &prefix) {
        return false;
    }
    let chars = text::chars_of(name);
    let mut i: usize = 0;
    while i < chars.len()
        invariant
            i <= chars@.len(),
            chars@ == name@,
            forall|j: int| 0 <= j < i ==> !leads_away(#[trigger] name@[j]),
        decreases chars@.len() - i,
    {
        if chars[i] == '/' || chars[i] == '\\' || chars[i] == ':' {
            assert(leads_away(name@[i as int]));
            return false;
        }
        i = i + 1;
    }
    true
}

/// Both checkpoints that a build refers to have names of its own.
pub fn check_names(state: &AnnBuildCheckpoint) -> (result: Result<(), String>)
    ensures
        ({
            let ok = (state.complete is Some ==> checkpoint_name_ok(
                state.generation,
                state.complete->0.name@,
            )) && (state.previous is Some ==> checkpoint_name_ok(
                state.generation,
                state.previous->0.name@,
            ));
            match result {
                Ok(_) => ok,
                Err(e) => !ok && e@ == "ANN checkpoint filename is invalid"@,
            }
        }),
{
    let complete_ok = match &state.complete {
        Some(file) => check_checkpoint_name(state, &file.name),
        None => true,
    };
    let previous_ok = match &state.previous {
        Some(file) => check_checkpoint_name(state, &file.name),
        None => true,
    };
    if complete_ok && previous_ok {
        Ok(())
    } else {
        Err("ANN checkpoint filename is invalid".to_owned())
    }
}

fn width_for(rows: u64) -> (result: u32)
    ensures
        result == clip_search::search_width(rows as int),
{
    let wide: u64 = rows / 600;
    if wide < 2400 {
        2400
    } else if wide > 4096 {
        4096
    } else {
        wide as u32
    }
}

/// The header of the frozen input.
pub fn header(state: &AnnBuildCheckpoint) -> (result: Result<Header, String>)
    ensures
        match result {
            Ok(h) => {
                &&& h@.snapshot_layout()
                &&& h@.texts_fit()
                &&& h.generation == state.generation
                &&& h.covered_epoch == state.covered_epoch
                &&& h.row_count == state.frozen_rows
                &&& h.dimensions == CLIP_DIMENSIONS
                &&& h.keys_bytes == state.key_bytes
                &&& h.connectivity == ANN_CONNECTIVITY
                &&& h.expansion_add == ANN_EXPANSION_ADD
                &&& h.expansion_search == clip_search::search_width(state.frozen_rows as int)
                &&& h.ann_implementation@ == "usearch-2.26.0"@
                &&& h.index_kind@ == "clip_image"@
                &&& h.model_id@ == CLIP_MODEL_ID@
                &&& h.model_revision@ == CLIP_VECTOR_SPACE_REVISION@
            },
            Err(e) => if state.frozen_rows > ann_format::MAX_ROWS {
                e@ == "ANN sidecar row count "@ + text::decimal(state.frozen_rows as nat)
                    + " exceeds 2000000"@
            } else if 512 + 8 * (state.frozen_rows + 1) + state.key_bytes > u64::MAX {
                e@ == "ANN key section overflow"@
            } else {
                &&& 512 + 8 * (state.frozen_rows + 1) + state.key_bytes + 4095 > u64::MAX
                &&& e@ == "ANN sidecar alignment overflow"@
            },
        },
{
    proof {
        reveal_strlit("clip_image");
        reveal_strlit("chinese-clip-vit-base-patch16");
        reveal_strlit("chinese-clip-vit-b16-vector-space-v1");
        assert(CLIP_MODEL_ID@ == "chinese-clip-vit-base-patch16"@);
        assert(CLIP_VECTOR_SPACE_REVISION@ == "chinese-clip-vit-b16-vector-space-v1"@);
        assert(is_ascii_chars("clip_image"@));
        assert(is_ascii_chars("chinese-clip-vit-base-patch16"@));
        assert(is_ascii_chars("chinese-clip-vit-b16-vector-space-v1"@));
        is_ascii_chars_encode_utf8("clip_image"@);
        is_ascii_chars_encode_utf8("chinese-clip-vit-base-patch16"@);
        is_ascii_chars_encode_utf8("chinese-clip-vit-b16-vector-space-v1"@);
    }
    Header::for_snapshot(
        state.generation,
        state.covered_epoch,
        state.frozen_rows,
        CLIP_DIMENSIONS as u32,
        "clip_image",
        CLIP_MODEL_ID,
        CLIP_VECTOR_SPACE_REVISION,
        width_for(state.frozen_rows),
        state.key_bytes,
    )
}

/// What is known when a unit begins.
#[derive(Debug, Clone, Copy)]
pub struct UnitFacts {
    pub enabled: bool,
    /// No other build holds the lock.
    pub build_free: bool,
    pub retry_due: bool,
    pub background: bool,
    /// A generation is to be built.
    pub rebuild: bool,
}

/// What a unit does first.
#[derive(Debug, Clone, Copy)]
pub enum UnitStart {
    /// Nothing, for this reason.
    Skip { reason: &'static str },
    /// Nothing is left to do.
    Done,
    /// It gives its lease back and waits for an idle machine.
    WaitForIdle,
    /// It begins a build.
    Begin,
    /// It goes on with the build of the checkpoint.
    Resume,
}

/// The checkpoint belongs to this data set and these formats.
pub open spec fn belongs(state: AnnBuildCheckpoint, dataset: Seq<char>) -> bool {
    state.dataset_id@ == dataset && state.model_fingerprint@ == contract_text()
}

/// The build of the checkpoint can go on.
pub open spec fn unfinished(state: Option<&AnnBuildCheckpoint>, dataset: Seq<char>) -> bool {
    state is Some && belongs(*state->0, dataset) && state->0.phase@ != "complete"@
}

/// A checkpoint that cannot be read at all is treated as missing.
pub fn read_checkpoint(stored: Result<Option<AnnBuildCheckpoint>, String>) -> (result: Result<
    Option<AnnBuildCheckpoint>,
    String,
>)
    ensures
        match stored {
            Ok(state) => result == stored,
            Err(e) => if text::begins(e@, "invalid ANN checkpoint metadata:"@) {
                result is Ok && result->Ok_0 is None
            } else {
                result == stored
            },
        },
{
    match stored {
        Ok(state) => Ok(state),
        Err(e) => if text::starts_with(&e, "invalid ANN checkpoint metadata:") {
            Ok(None)
        } else {
            Err(e)
        },
    }
}

/// The builder of a checkpoint that belongs elsewhere is stopped.
pub fn is_foreign(state: Option<&AnnBuildCheckpoint>, dataset: &str) -> (result: bool)
    ensures
        result == (state is Some && !belongs(*state->0, dataset@)),
{
    match state {
        Some(s) => !text::same(&s.dataset_id, dataset) || !text::same(
            &s.model_fingerprint,
            &build_contract(),
        ),
        None => false,
    }
}

/// What a unit begins with: nothing while it may not run, else what is
/// unfinished, else a new build where one is wanted, but not beside the user.
pub open spec fn unit_started(
    facts: UnitFacts,
    state: Option<&AnnBuildCheckpoint>,
    dataset: &str,
    result: UnitStart,
) -> bool {
    if !facts.enabled {
        result is Skip && result->reason@ == "disabled"@
    } else if !facts.build_free {
        result is Skip && result->reason@ == "ann_busy"@
    } else if !facts.retry_due {
        result is Skip && result->reason@ == "retry_wait"@
    } else if unfinished(state, dataset@) {
        result is Resume
    } else if !facts.rebuild {
        result is Done
    } else if facts.background {
        result is WaitForIdle
    } else {
        result is Begin
    }
}

/// What a unit does first.
pub fn start_unit(facts: UnitFacts, state: Option<&AnnBuildCheckpoint>, dataset: &str) -> (result:
    UnitStart)
    ensures
        unit_started(facts, state, dataset, result),
{
    if !facts.enabled {
        return UnitStart::Skip { reason: "disabled" };
    }
    if !facts.build_free {
        return UnitStart::Skip { reason: "ann_busy" };
    }
    if !facts.retry_due {
        return UnitStart::Skip { reason: "retry_wait" };
    }
    let goes_on = match state {
        Some(s) => !is_foreign(state, dataset) && !text::same(&s.phase, "complete"),
        None => false,
    };
    if goes_on {
        return UnitStart::Resume;
    }
    if !facts.rebuild {
        return UnitStart::Done;
    }
    if facts.background {
        return UnitStart::WaitForIdle;
    }
    UnitStart::Begin
}

/// What the live index says of itself when it is frozen.
#[derive(Debug)]
pub struct SnapshotFacts {
    pub epoch: u64,
    pub rows: u64,
    pub dimensions: u32,
    pub model: String,
    pub revision: String,
    pub version: u32,
}

/// The index was made by the present model.
pub open spec fn snapshot_fits(facts: SnapshotFacts) -> bool {
    &&& facts.dimensions == CLIP_DIMENSIONS
    &&& facts.model@ == CLIP_MODEL_ID@
    &&& facts.revision@ == CLIP_VECTOR_SPACE_REVISION@
    &&& facts.version == CLIP_EMBEDDING_VERSION
}

/// The checkpoint of a build that begins.
pub fn begin_build(facts: &SnapshotFacts, generation: u64, db_generation: u64, dataset: &str) -> (result:
    Result<AnnBuildCheckpoint, String>)
    ensures
        match result {
            Err(e) => !snapshot_fits(*facts) && e@
                == "ANN source model contract does not match current CLIP"@,
            Ok(state) => {
                &&& snapshot_fits(*facts)
                &&& state.runtime_generation == Some(db_generation)
                &&& state.generation == generation
                &&& belongs(state, dataset@)
                &&& state.covered_epoch == facts.epoch
                &&& state.expected_rows == facts.rows
                &&& state.frozen_rows == 0
                &&& state.key_bytes == 0
                &&& state.scan_upper@.len() == 0
                &&& state.scan_cursor@.len() == 0
                &&& state.phase@ == "freeze"@
                &&& state.materialized_rows == 0
                &&& state.materialized_key_bytes == 0
                &&& state.flat_checksum is None
                &&& state.graph_bytes == 0
                &&& state.complete is None
                &&& state.previous is None
                &&& state.copy_offset == 0
            },
        },
{
    if facts.dimensions as usize != CLIP_DIMENSIONS || !text::same(&facts.model, CLIP_MODEL_ID)
        || !text::same(&facts.revision, CLIP_VECTOR_SPACE_REVISION) || facts.version
        != CLIP_EMBEDDING_VERSION {
        return Err("ANN source model contract does not match current CLIP".to_owned());
    }
    proof {
        reveal_strlit("");
    }
    Ok(
        AnnBuildCheckpoint {
            runtime_generation: Some(db_generation),
            generation,
            dataset_id: dataset.to_owned(),
            model_fingerprint: build_contract(),
            covered_epoch: facts.epoch,
            scan_upper: "".to_owned(),
            scan_cursor: "".to_owned(),
            expected_rows: facts.rows,
            frozen_rows: 0,
            key_bytes: 0,
            phase: "freeze".to_owned(),
            materialized_rows: 0,
            materialized_key_bytes: 0,
            flat_checksum: None,
            graph_bytes: 0,
            complete: None,
            previous: None,
            copy_offset: 0,
        },
    )
}

/// Beside the user, only a small build goes on, and none is cleaned up after.
pub fn must_wait_for_idle(state: &AnnBuildCheckpoint, background: bool, small: bool) -> (result: bool)
    ensures
        result == (background && (state.phase@ == "cleanup"@ || !small)),
{
    background && (text::same(&state.phase, "cleanup") || !small)
}

/// The operations that have to be qualified before a build goes on beside the
/// user.
pub fn required_operations() -> (result: Vec<&'static str>)
    ensures
        result@.len() == 6,
        result@[0]@ == "ann_insert"@,
        result@[1]@ == "ann_serialize"@,
        result@[2]@ == "ann_restore"@,
        result@[3]@ == "ann_validate"@,
        result@[4]@ == "ann_checksum"@,
        result@[5]@ == "ann_io"@,
{
    vec![
        "ann_insert",
        "ann_serialize",
        "ann_restore",
        "ann_validate",
        "ann_checksum",
        "ann_io",
    ]
}

/// How many rows are frozen in one unit.
pub fn freeze_rows(background: bool) -> (result: u64)
    ensures
        result == if background {
            1u64
        } else {
            64
        },
{
    if background {
        1
    } else {
        PAGE_ROWS
    }
}

/// An input without rows needs no graph.
pub fn materialize_empty(state: &mut AnnBuildCheckpoint) -> (result: bool)
    ensures
        result == (old(state).frozen_rows == 0),
        if result {
            moved(*final(state), *old(state), "complete"@)
        } else {
            *final(state) == *old(state)
        },
{
    if state.frozen_rows == 0 {
        state.phase = "complete".to_owned();
        return true;
    }
    false
}

/// How the file with the vectors is opened.
#[derive(Debug, Clone, Copy, PartialEq, Eq, Structural)]
pub enum MaterializePlan {
    /// A new file; what is there is removed.
    Create,
    /// The file as it was left.
    Resume { rows: u64, key_bytes: u64 },
}

/// How the file with the vectors is opened. Rows that were counted but whose
/// file is gone are written anew.
pub fn materialize_plan(state: &mut AnnBuildCheckpoint, partial_exists: bool) -> (result:
    MaterializePlan)
    ensures
        if old(state).materialized_rows > 0 && partial_exists {
            &&& *final(state) == *old(state)
            &&& result == (MaterializePlan::Resume {
                rows: old(state).materialized_rows,
                key_bytes: old(state).materialized_key_bytes,
            })
        } else {
            &&& result == MaterializePlan::Create
            &&& if old(state).materialized_rows > 0 {
                rewinds(*final(state), *old(state))
            } else {
                *final(state) == *old(state)
            }
        },
{
    if state.materialized_rows > 0 && !partial_exists {
        state.materialized_rows = 0;
        state.materialized_key_bytes = 0;
    }
    if state.materialized_rows == 0 {
        MaterializePlan::Create
    } else {
        MaterializePlan::Resume {
            rows: state.materialized_rows,
            key_bytes: state.materialized_key_bytes,
        }
    }
}

/// The file could not be opened as it was left. A page that does not fit is
/// written anew.
pub fn resume_failed(state: &mut AnnBuildCheckpoint, error: String) -> (result: Result<(), String>)
    ensures
        if error@ == "ANN partial flat checkpoint mismatch"@ {
            result is Ok && rewinds(*final(state), *old(state))
        } else {
            result == Err::<(), String>(error) && *final(state) == *old(state)
        },
{
    if text::same(&error, "ANN partial flat checkpoint mismatch") {
        state.materialized_rows = 0;
        state.materialized_key_bytes = 0;
        Ok(())
    } else {
        Err(error)
    }
}

/// The bytes of the keys of a page.
pub open spec fn page_key_bytes(page: Seq<DerivedAnnSnapshotRow>) -> int
    decreases page.len(),
{
    if page.len() == 0 {
        0
    } else {
        page_key_bytes(page.drop_last()) + encode_utf8(page.last().subject_key@).len()
    }
}

/// The bytes that a page takes in the file: vectors, keys and offsets.
pub open spec fn page_bytes(page: Seq<DerivedAnnSnapshotRow>) -> int
    decreases page.len(),
{
    if page.len() == 0 {
        0
    } else {
        page_bytes(page.drop_last()) + page.last().vector_f32@.len() + encode_utf8(
            page.last().subject_key@,
        ).len() + 8
    }
}

proof fn lemma_page_sums(page: Seq<DerivedAnnSnapshotRow>, n: int)
    requires
        0 <= n <= page.len(),
    ensures
        0 <= page_key_bytes(page.take(n)) <= page_key_bytes(page),
        0 <= page_bytes(page.take(n)) <= page_bytes(page),
    decreases page.len(),
{
    if n < page.len() {
        lemma_page_sums(page.drop_last(), n);
        assert(page.drop_last().take(n) =~= page.take(n));
    } else {
        assert(page.take(n) =~= page);
        if page.len() > 0 {
            lemma_page_sums(page.drop_last(), page.len() - 1);
            assert(page.drop_last().take(page.len() - 1) =~= page.drop_last());
        }
    }
}

/// A page was written and synced: the build moves on by it, and to the next
/// phase once every row is written. The bytes that were written are returned.
pub fn page_written(state: &mut AnnBuildCheckpoint, written: u64, page: &[DerivedAnnSnapshotRow]) -> (result:
    u64)
    requires
        page_bytes(page@) <= u64::MAX,
        old(state).materialized_key_bytes + page_key_bytes(page@) <= u64::MAX,
    ensures
        result == page_bytes(page@),
        final(state).phase@ == if written == old(state).frozen_rows {
            "hash_flat"@
        } else {
            old(state).phase@
        },
        *final(state) == (AnnBuildCheckpoint {
            phase: final(state).phase,
            materialized_rows: written,
            materialized_key_bytes: (old(state).materialized_key_bytes + page_key_bytes(
                page@,
            )) as u64,
            ..*old(state)
        }),
{
    let mut bytes: u64 = 0;
    let mut key_bytes: u64 = 0;
    let mut i: usize = 0;
    assert(page@.take(0) =~= Seq::<DerivedAnnSnapshotRow>::empty());
    proof {
        lemma_page_sums(page@, 0);
    }
    while i < page.len()
        invariant
            i <= page@.len(),
            bytes == page_bytes(page@.take(i as int)),
            key_bytes == page_key_bytes(page@.take(i as int)),
            page_bytes(page@) <= u64::MAX,
            page_key_bytes(page@) <= u64::MAX,
        decreases page@.len() - i,
    {
        let row = &page[i];
        proof {
            lemma_page_sums(page@, i + 1);
            assert(page@.take(i + 1).drop_last() =~= page@.take(i as int));
            assert(page@.take(i + 1).last() == page@[i as int]);
        }
        let width: usize = row.vector_f32.len();
        let key_len: usize = row.subject_key.as_str().as_bytes().len();
        bytes = bytes + (width as u64 + (key_len as u64 + 8));
        key_bytes = key_bytes + key_len as u64;
        i = i + 1;
    }
    assert(page@.take(page@.len() as int) =~= page@);
    state.materialized_rows = written;
    state.materialized_key_bytes = state.materialized_key_bytes + key_bytes;
    if written == state.frozen_rows {
        state.phase = "hash_flat".to_owned();
    }
    bytes
}

/// The file with the vectors is there; `bytes` is what it holds. A complete
/// graph over all rows is copied, else one is built.
pub fn flat_hashed(state: &mut AnnBuildCheckpoint, bytes: &[u8])
    ensures
        final(state).flat_checksum is Some,
        final(state).flat_checksum->0@ == digest::hex_text(digest::sha256_of(bytes@)),
        final(state).phase@ == if old(state).complete is Some && old(state).complete->0.rows == old(
            state,
        ).frozen_rows {
            "copy_ann"@
        } else {
            "build"@
        },
        *final(state) == (AnnBuildCheckpoint {
            phase: final(state).phase,
            flat_checksum: final(state).flat_checksum,
            ..*old(state)
        }),
{
    state.flat_checksum = Some(digest::sha256_hex(bytes));
    let whole = match &state.complete {
        Some(file) => file.rows == state.frozen_rows,
        None => false,
    };
    state.phase = if whole {
        "copy_ann".to_owned()
    } else {
        "build".to_owned()
    };
}

/// A builder that belongs to another build or was idle for long is stopped.
pub fn worker_is_stale(
    worker: (u64, u64),
    generation: u64,
    db_generation: u64,
    idle_ms: u64,
) -> (result: bool)
    ensures
        result == (worker.0 != generation || worker.1 != db_generation || idle_ms >= 300_000),
{
    worker.0 != generation || worker.1 != db_generation || idle_ms >= WORKER_IDLE_MS
}

/// An idle builder is given up, under memory pressure at once.
pub fn reclaim_builder(memory_pressure: bool, idle_ms: u64) -> (result: bool)
    ensures
        result == (memory_pressure || idle_ms >= 300_000),
{
    memory_pressure || idle_ms >= WORKER_IDLE_MS
}

/// The bytes have this digest. Without bytes or without a digest they have not.
pub open spec fn digest_fits(bytes: Option<Seq<u8>>, expected: Option<Seq<char>>) -> bool {
    bytes is Some && expected is Some && digest::hex_text(digest::sha256_of(bytes->0))
        == expected->0
}

/// What an optional file holds.
pub open spec fn held(bytes: Option<&[u8]>) -> Option<Seq<u8>> {
    match bytes {
        Some(b) => Some(b@),
        None => None,
    }
}

/// What an optional text says.
pub open spec fn said(value: Option<String>) -> Option<Seq<char>> {
    match value {
        Some(s) => Some(s@),
        None => None,
    }
}

fn digest_matches(bytes: Option<&[u8]>, expected: &Option<String>) -> (result: bool)
    ensures
        result == digest_fits(held(bytes), said(*expected)),
{
    match (bytes, expected) {
        (Some(b), Some(checksum)) => text::same(&digest::sha256_hex(b), checksum),
        _ => false,
    }
}

/// What the builder begins with: where the vectors do not fit their checksum
/// they are written anew, and a checkpoint whose file is gone gives way to the
/// one before.
pub open spec fn builder_prepared(
    before: AnnBuildCheckpoint,
    after: AnnBuildCheckpoint,
    flat: Option<&[u8]>,
    complete_exists: bool,
    result: bool,
) -> bool {
    &&& result == digest_fits(held(flat), said(before.flat_checksum))
    &&& if !result {
        &&& after.phase@ == "materialize"@
        &&& after == (AnnBuildCheckpoint {
            phase: after.phase,
            materialized_rows: 0,
            materialized_key_bytes: 0,
            ..before
        })
    } else if before.complete is Some && !complete_exists {
        after == (AnnBuildCheckpoint {
            complete: before.previous,
            previous: None,
            ..before
        })
    } else {
        after == before
    }
}

/// A builder is about to be started. Vectors that are not those of the
/// checkpoint are written anew; a complete graph whose file is gone is replaced
/// by the one before it. Returns whether the builder may be started.
pub fn prepare_builder(
    state: &mut AnnBuildCheckpoint,
    flat: Option<&[u8]>,
    complete_exists: bool,
) -> (result: bool)
    ensures
        builder_prepared(*old(state), *final(state), flat, complete_exists, result),
{
    if !digest_matches(flat, &state.flat_checksum) {
        state.phase = "materialize".to_owned();
        state.materialized_rows = 0;
        state.materialized_key_bytes = 0;
        return false;
    }
    if state.complete.is_some() && !complete_exists {
        state.complete = state.previous.take();
    }
    true
}

/// What follows a step that failed.
pub open spec fn step_settled(
    before: AnnBuildCheckpoint,
    after: AnnBuildCheckpoint,
    error: String,
    result: Result<(), String>,
) -> bool {
    if text::holds_text(error@, "checkpoint"@) && !background_policy::tells_pause(error@) {
        &&& result is Ok
        &&& after == (AnnBuildCheckpoint {
            complete: before.previous,
            previous: None,
            ..before
        })
    } else {
        result == Err::<(), String>(error) && after == before
    }
}

/// A step of the builder failed. A checkpoint that cannot be used is replaced
/// by the one before it; any other error is passed on.
pub fn step_failed(state: &mut AnnBuildCheckpoint, error: String) -> (result: Result<(), String>)
    ensures
        step_settled(*old(state), *final(state), error, result),
{
    if text::contains(&error, "checkpoint") && !background_policy::is_pause(&error) {
        state.complete = state.previous.take();
        Ok(())
    } else {
        Err(error)
    }
}

/// The name of a checkpoint over so many rows.
pub open spec fn checkpoint_name(generation: u64, built: u64, unique: u64) -> Seq<char> {
    "clip_image-"@ + text::decimal(generation as nat) + ".checkpoint-"@ + text::decimal(
        built as nat,
    ) + "-"@ + text::decimal(unique as nat) + ".cpdann"@
}

pub fn checkpoint_file_name(generation: u64, built: u64, unique: u64) -> (result: String)
    ensures
        result@ == checkpoint_name(generation, built, unique),
{
    let head = text::join3("clip_image-", &text::decimal_string(generation), ".checkpoint-");
    let middle = text::join3(&head, &text::decimal_string(built), "-");
    text::join3(&middle, &text::decimal_string(unique), ".cpdann")
}

/// The extension under which the builder writes a graph over so many rows.
pub fn scratch_extension(built: u64) -> (result: String)
    ensures
        result@ == "checkpoint-"@ + text::decimal(built as nat) + ".partial"@,
{
    text::join3("checkpoint-", &text::decimal_string(built), ".partial")
}

/// The builder may only hand over the file that it was told to write.
pub fn check_scratch_path(path: &PathParts, expected: &PathParts) -> (result: Result<(), String>)
    ensures
        match result {
            Ok(_) => path@ == expected@,
            Err(e) => path@ != expected@ && e@ == "ANN checkpoint path mismatch"@,
        },
{
    if path.same(expected) {
        Ok(())
    } else {
        Err("ANN checkpoint path mismatch".to_owned())
    }
}

/// A checkpoint was made: it is the complete one, the last complete one is kept
/// before it, and the one before that may go.
pub open spec fn checkpoint_kept(
    before: AnnBuildCheckpoint,
    after: AnnBuildCheckpoint,
    name: String,
    checksum: String,
    built: u64,
    graph_bytes: u64,
    result: Option<AnnCheckpointFile>,
) -> bool {
    &&& result == before.previous
    &&& after.phase@ == if built == before.frozen_rows {
        "copy_ann"@
    } else {
        before.phase@
    }
    &&& after == (AnnBuildCheckpoint {
        phase: after.phase,
        previous: before.complete,
        complete: Some(AnnCheckpointFile { name, checksum, rows: built }),
        graph_bytes,
        ..before
    })
}

/// A complete graph over the first `built` rows was put under this name. The
/// one before it is kept; the one before that is handed back, to be removed.
pub fn checkpoint_made(
    state: &mut AnnBuildCheckpoint,
    name: String,
    checksum: String,
    built: u64,
    graph_bytes: u64,
) -> (result: Option<AnnCheckpointFile>)
    ensures
        checkpoint_kept(*old(state), *final(state), name, checksum, built, graph_bytes, result),
{
    let obsolete = state.previous.take();
    state.previous = state.complete.take();
    state.complete = Some(AnnCheckpointFile { name, checksum, rows: built });
    state.graph_bytes = graph_bytes;
    if built == state.frozen_rows {
        state.phase = "copy_ann".to_owned();
    }
    obsolete
}

/// How the complete graph is copied.
#[derive(Debug, Clone, Copy, PartialEq, Eq, Structural)]
pub enum CopyPlan {
    /// Its file is gone: the build goes on from the checkpoint before.
    Recover,
    /// The copy is there already.
    Copied,
    /// The copy goes on from the offset.
    Continue { offset: u64 },
}

/// How the complete graph is copied.
pub open spec fn copy_planned(
    before: AnnBuildCheckpoint,
    after: AnnBuildCheckpoint,
    source_exists: bool,
    copy: Option<&[u8]>,
    source_len: u64,
    partial_len: Option<u64>,
    result: Result<CopyPlan, String>,
) -> bool {
    match before.complete {
        None => result is Err && result->Err_0@ == "ANN checkpoint missing"@ && after
            == before,
        Some(complete) => result is Ok && if !source_exists {
            &&& result->Ok_0 == CopyPlan::Recover
            &&& after.phase@ == "build"@
            &&& after == (AnnBuildCheckpoint {
                phase: after.phase,
                complete: before.previous,
                previous: None,
                copy_offset: 0,
                ..before
            })
        } else if digest_fits(held(copy), Some(complete.checksum@)) {
            &&& result->Ok_0 == CopyPlan::Copied
            &&& moved(after, before, "publish"@)
        } else {
            let kept = before.copy_offset <= source_len && partial_len is Some
                && partial_len->0 >= before.copy_offset;
            &&& after == (AnnBuildCheckpoint {
                copy_offset: if kept {
                    before.copy_offset
                } else {
                    0
                },
                ..before
            })
            &&& result->Ok_0 == (CopyPlan::Continue { offset: after.copy_offset })
        },
    }
}

/// How the complete graph is copied. `copy` is what the finished copy holds,
/// if there is one; the lengths are those of the source and of the unfinished
/// copy.
pub fn copy_plan(
    state: &mut AnnBuildCheckpoint,
    source_exists: bool,
    copy: Option<&[u8]>,
    source_len: u64,
    partial_len: Option<u64>,
) -> (result: Result<CopyPlan, String>)
    ensures
        copy_planned(
            *old(state),
            *final(state),
            source_exists,
            copy,
            source_len,
            partial_len,
            result,
        ),
{
    let copied = match &state.complete {
        None => {
            return Err("ANN checkpoint missing".to_owned());
        },
        Some(complete) => match copy {
            Some(bytes) => text::same(&digest::sha256_hex(bytes), &complete.checksum),
            None => false,
        },
    };
    if !source_exists {
        state.complete = state.previous.take();
        state.phase = "build".to_owned();
        state.copy_offset = 0;
        return Ok(CopyPlan::Recover);
    }
    if copied {
        state.phase = "publish".to_owned();
        return Ok(CopyPlan::Copied);
    }
    let short = match partial_len {
        Some(len) => len < state.copy_offset,
        None => true,
    };
    if state.copy_offset > source_len || short {
        state.copy_offset = 0;
    }
    Ok(CopyPlan::Continue { offset: state.copy_offset })
}

/// So many bytes were copied. The end of the source finishes the copy.
pub fn chunk_copied(state: &mut AnnBuildCheckpoint, count: u64)
    requires
        old(state).copy_offset + count <= u64::MAX,
    ensures
        final(state).phase@ == if count == 0 {
            "publish"@
        } else {
            old(state).phase@
        },
        *final(state) == (AnnBuildCheckpoint {
            phase: final(state).phase,
            copy_offset: (old(state).copy_offset + count) as u64,
            ..*old(state)
        }),
{
    state.copy_offset = state.copy_offset + count;
    if count == 0 {
        state.phase = "publish".to_owned();
    }
}

/// The generation of the checkpoint is in use already.
pub fn already_published(state: &mut AnnBuildCheckpoint, ready: Option<u64>) -> (result: bool)
    ensures
        result == (ready == Some(old(state).generation)),
        if result {
            moved(*final(state), *old(state), "cleanup"@)
        } else {
            *final(state) == *old(state)
        },
{
    let same = match ready {
        Some(generation) => generation == state.generation,
        None => false,
    };
    if same {
        state.phase = "cleanup".to_owned();
    }
    same
}

/// Where the build goes on if a file does not fit its checksum.
pub open spec fn publication_recovered(
    before: AnnBuildCheckpoint,
    after: AnnBuildCheckpoint,
    flat: Option<&[u8]>,
    graph: Option<&[u8]>,
    complete_file: Option<&[u8]>,
    result: Result<bool, String>,
) -> bool {
    if !digest_fits(held(flat), said(before.flat_checksum)) {
        &&& result == Ok::<bool, String>(true)
        &&& after.phase@ == "materialize"@
        &&& after == (AnnBuildCheckpoint {
            phase: after.phase,
            materialized_rows: 0,
            materialized_key_bytes: 0,
            copy_offset: 0,
            flat_checksum: None,
            ..before
        })
    } else {
        match before.complete {
            None => {
                &&& result is Err
                &&& result->Err_0@ == "ANN complete checkpoint missing"@
                &&& after == before
            },
            Some(complete) => if digest_fits(held(graph), Some(complete.checksum@)) {
                result == Ok::<bool, String>(false) && after == before
            } else {
                &&& result == Ok::<bool, String>(true)
                &&& if digest_fits(held(complete_file), Some(complete.checksum@)) {
                    &&& after.phase@ == "copy_ann"@
                    &&& after == (AnnBuildCheckpoint {
                        phase: after.phase,
                        copy_offset: 0,
                        ..before
                    })
                } else {
                    &&& after.phase@ == "build"@
                    &&& after == (AnnBuildCheckpoint {
                        phase: after.phase,
                        copy_offset: 0,
                        complete: before.previous,
                        previous: None,
                        ..before
                    })
                }
            },
        }
    }
}

/// Holds the unpublished files against the checkpoint, and tells where the
/// build has to go on if one of them does not fit. Neither the generation in
/// use nor a complete graph that is intact is given up.
pub fn recover_publication(
    state: &mut AnnBuildCheckpoint,
    flat: Option<&[u8]>,
    graph: Option<&[u8]>,
    complete_file: Option<&[u8]>,
) -> (result: Result<bool, String>)
    ensures
        publication_recovered(*old(state), *final(state), flat, graph, complete_file, result),
{
    if !digest_matches(flat, &state.flat_checksum) {
        state.phase = "materialize".to_owned();
        state.materialized_rows = 0;
        state.materialized_key_bytes = 0;
        state.copy_offset = 0;
        state.flat_checksum = None;
        return Ok(true);
    }
    let checksum: Option<String> = match &state.complete {
        None => {
            return Err("ANN complete checkpoint missing".to_owned());
        },
        Some(complete) => Some(complete.checksum.clone()),
    };
    if digest_matches(graph, &checksum) {
        return Ok(false);
    }
    state.copy_offset = 0;
    if digest_matches(complete_file, &checksum) {
        state.phase = "copy_ann".to_owned();
    } else {
        state.complete = state.previous.take();
        state.phase = "build".to_owned();
    }
    Ok(true)
}

/// The manifest of a finished build.
pub fn manifest(state: &AnnBuildCheckpoint, created_at: String) -> (result: Result<
    DerivedAnnGeneration,
    String,
>)
    ensures
        match result {
            Err(e) => if state.flat_checksum is None {
                e@ == "ANN flat checksum missing"@
            } else {
                state.complete is None && e@ == "ANN complete checkpoint missing"@
            },
            Ok(m) => {
                &&& state.flat_checksum is Some
                &&& state.complete is Some
                &&& clip_ann::contract_holds(m)
                &&& m.generation == state.generation
                &&& m.covered_epoch == state.covered_epoch
                &&& m.flat_file_name@ == clip_ann::flat_name(state.generation)
                &&& m.ann_file_name@ == clip_ann::graph_name(state.generation)
                &&& m.flat_checksum_sha256@ == state.flat_checksum->0@
                &&& m.ann_checksum_sha256@ == state.complete->0.checksum@
                &&& m.row_count == state.frozen_rows
                &&& m.expansion_search == clip_search::search_width(state.frozen_rows as int)
                &&& m.created_at == created_at
            },
        },
{
    let flat_checksum = match &state.flat_checksum {
        Some(checksum) => checksum.clone(),
        None => {
            return Err("ANN flat checksum missing".to_owned());
        },
    };
    let ann_checksum = match &state.complete {
        Some(complete) => complete.checksum.clone(),
        None => {
            return Err("ANN complete checkpoint missing".to_owned());
        },
    };
    Ok(
        DerivedAnnGeneration {
            index_kind: DerivedIndexKind::ClipImage,
            generation: state.generation,
            covered_epoch: state.covered_epoch,
            flat_file_name: state.flat_name(),
            flat_checksum_sha256: flat_checksum,
            ann_file_name: state.ann_name(),
            ann_checksum_sha256: ann_checksum,
            row_count: state.frozen_rows,
            dimensions: CLIP_DIMENSIONS as u32,
            model_id: CLIP_MODEL_ID.to_owned(),
            model_revision: CLIP_VECTOR_SPACE_REVISION.to_owned(),
            embedding_version: CLIP_EMBEDDING_VERSION,
            sidecar_format_version: FORMAT_VERSION,
            ann_format_version: ANN_FILE_FORMAT_VERSION,
            algorithm: ANN_ALGORITHM.to_owned(),
            implementation_version: ANN_IMPLEMENTATION_VERSION.to_owned(),
            metric: ANN_METRIC.to_owned(),
            quantization: ANN_QUANTIZATION.to_owned(),
            connectivity: ANN_CONNECTIVITY,
            expansion_add: ANN_EXPANSION_ADD,
            expansion_search: width_for(state.frozen_rows),
            created_at,
        },
    )
}

/// The manifest of a finished build is one that is accepted on opening.
pub proof fn law_manifests_are_accepted(m: DerivedAnnGeneration)
    requires
        clip_ann::contract_holds(m),
        m.flat_file_name@ == clip_ann::flat_name(m.generation),
        m.ann_file_name@ == clip_ann::graph_name(m.generation),
    ensures
        clip_ann::manifest_fault(m) is None,
{
}

proof fn lemma_digits_stay(n: nat)
    ensures
        forall|i: int| 0 <= i < text::decimal(n).len() ==> !leads_away(#[trigger] text::decimal(n)[i]),
    decreases n,
{
    if n >= 10 {
        lemma_digits_stay(n / 10);
        let head = text::decimal(n / 10);
        assert forall|i: int| 0 <= i < text::decimal(n).len() implies !leads_away(
            #[trigger] text::decimal(n)[i],
        ) by {
            if i < head.len() {
                assert(text::decimal(n)[i] == head[i]);
            }
        }
    }
}

/// The names that the build gives its checkpoints are names that it accepts.
pub proof fn law_own_checkpoint_names_are_accepted(generation: u64, built: u64, unique: u64)
    ensures
        checkpoint_name_ok(generation, checkpoint_name(generation, built, unique)),
{
    reveal_strlit("clip_image-");
    reveal_strlit(".checkpoint-");
    reveal_strlit("-");
    reveal_strlit(".cpdann");
    lemma_digits_stay(generation as nat);
    lemma_digits_stay(built as nat);
    lemma_digits_stay(unique as nat);
    let prefix = "clip_image-"@ + text::decimal(generation as nat) + ".checkpoint-"@;
    let name = checkpoint_name(generation, built, unique);
    let rest = text::decimal(built as nat) + "-"@ + text::decimal(unique as nat) + ".cpdann"@;
    assert(name =~= prefix + rest);
    assert(name.take(prefix.len() as int) =~= prefix);
    assert forall|i: int| 0 <= i < name.len() implies !leads_away(#[trigger] name[i]) by {
        let a = "clip_image-"@;
        let b = text::decimal(generation as nat);
        let c = ".checkpoint-"@;
        let d = text::decimal(built as nat);
        let e = text::decimal(unique as nat);
        let p1 = a.len() as int;
        let p2 = p1 + b.len();
        let p3 = p2 + c.len();
        let p4 = p3 + d.len();
        let p5 = p4 + 1;
        let p6 = p5 + e.len();
        if i < p1 {
            assert(name[i] == a[i]);
        } else if i < p2 {
            assert(name[i] == b[i - p1]);
        } else if i < p3 {
            assert(name[i] == c[i - p2]);
        } else if i < p4 {
            assert(name[i] == d[i - p3]);
        } else if i < p5 {
            assert(name[i] == "-"@[0]);
        } else if i < p6 {
            assert(name[i] == e[i - p5]);
        } else {
            assert(name[i] == ".cpdann"@[i - p6]);
        }
    }
}

/// The generation was published: what the build left behind is cleaned up.
pub fn published(state: &mut AnnBuildCheckpoint) -> (result: ScheduledSliceResult)
    ensures
        moved(*final(state), *old(state), "cleanup"@),
        result.completed,
        result.has_more,
        result.processed == old(state).frozen_rows,
        result.skipped_reason is None,
{
    state.phase = "cleanup".to_owned();
    ScheduledSliceResult::complete(true).with_processed(state.frozen_rows)
}

/// Inputs were cleaned up; `more` tells whether some are left.
pub fn cleaned(state: &mut AnnBuildCheckpoint, more: bool)
    ensures
        if more {
            *final(state) == *old(state)
        } else {
            moved(*final(state), *old(state), "complete"@)
        },
{
    if !more {
        state.phase = "complete".to_owned();
    }
}

/// Which step a unit performs.
#[derive(Debug, Clone, Copy, PartialEq, Eq, Structural)]
pub enum UnitPhase {
    Freeze,
    Materialize,
    HashFlat,
    Build,
    CopyAnn,
    Publish,
    Cleanup,
}

/// The step of a phase.
pub open spec fn phase_named(name: Seq<char>) -> Option<UnitPhase> {
    if name == "freeze"@ {
        Some(UnitPhase::Freeze)
    } else if name == "materialize"@ {
        Some(UnitPhase::Materialize)
    } else if name == "hash_flat"@ {
        Some(UnitPhase::HashFlat)
    } else if name == "build"@ {
        Some(UnitPhase::Build)
    } else if name == "copy_ann"@ {
        Some(UnitPhase::CopyAnn)
    } else if name == "publish"@ {
        Some(UnitPhase::Publish)
    } else if name == "cleanup"@ {
        Some(UnitPhase::Cleanup)
    } else {
        None
    }
}

/// Which step a unit performs.
pub fn unit_phase(state: &AnnBuildCheckpoint) -> (result: Result<UnitPhase, String>)
    ensures
        match result {
            Ok(phase) => phase_named(state.phase@) == Some(phase),
            Err(e) => phase_named(state.phase@) is None && e@ == "Unknown ANN checkpoint phase"@,
        },
{
    if text::same(&state.phase, "freeze") {
        Ok(UnitPhase::Freeze)
    } else if text::same(&state.phase, "materialize") {
        Ok(UnitPhase::Materialize)
    } else if text::same(&state.phase, "hash_flat") {
        Ok(UnitPhase::HashFlat)
    } else if text::same(&state.phase, "build") {
        Ok(UnitPhase::Build)
    } else if text::same(&state.phase, "copy_ann") {
        Ok(UnitPhase::CopyAnn)
    } else if text::same(&state.phase, "publish") {
        Ok(UnitPhase::Publish)
    } else if text::same(&state.phase, "cleanup") {
        Ok(UnitPhase::Cleanup)
    } else {
        Err("Unknown ANN checkpoint phase".to_owned())
    }
}

/// The failure of a unit counts as a failed build, unless it was a pause.
pub fn counts_as_failure(error: &str) -> (result: bool)
    ensures
        result == !background_policy::tells_pause(error@),
{
    !background_policy::is_pause(error)
}

/// What follows a unit of a scheduled slice.
#[derive(Debug)]
pub enum SliceStep {
    /// The slice ends with this result.
    End { result: ScheduledSliceResult },
    /// A further unit follows.
    Continue,
}

/// What follows a unit.
pub open spec fn slice_stepped(
    manual: bool,
    unit: ScheduledSliceResult,
    deadline_passed: bool,
    gate: Option<&'static str>,
    result: SliceStep,
) -> bool {
    if !manual || !unit.has_more || unit.skipped_reason is Some {
        result == (SliceStep::End { result: unit })
    } else if deadline_passed || gate is Some {
        &&& result is End
        &&& !result->result.completed
        &&& result->result.has_more
        &&& result->result.processed == 0
        &&& result->result.skipped_reason is Some
        &&& result->result.skipped_reason->0@ == if deadline_passed {
            "manual_deadline"@
        } else {
            gate->0@
        }
    } else {
        result is Continue
    }
}

/// What follows a unit. An automatic slice is one unit; one that was asked for
/// goes on until nothing is left, half an hour has passed, or a gate closes.
pub fn slice_step(
    manual: bool,
    unit: ScheduledSliceResult,
    deadline_passed: bool,
    gate: Option<&'static str>,
) -> (result: SliceStep)
    ensures
        slice_stepped(manual, unit, deadline_passed, gate, result),
{
    if !manual || !unit.has_more || unit.skipped_reason.is_some() {
        return SliceStep::End { result: unit };
    }
    if deadline_passed {
        return SliceStep::End { result: ScheduledSliceResult::skipped("manual_deadline") };
    }
    match gate {
        Some(reason) => SliceStep::End { result: ScheduledSliceResult::skipped(reason) },
        None => SliceStep::Continue,
    }
}

/// The request for a step, or for opening the input.
pub fn build_request(
    state: &AnnBuildCheckpoint,
    request_id: u64,
    open: bool,
    background: bool,
    flat_path: String,
    checkpoint_path: Option<String>,
) -> (result: AnnRequest)
    ensures
        if open {
            &&& result is Open
            &&& result->Open_request_id == request_id
            &&& result->protocol == ANN_WORKER_PROTOCOL
            &&& result->flat == flat_path
            &&& result->checkpoint == checkpoint_path
            &&& said(result->checksum) == match state.complete {
                Some(complete) => Some(complete.checksum@),
                None => None,
            }
            &&& result->checkpoint_rows == match state.complete {
                Some(complete) => complete.rows,
                None => 0,
            }
        } else {
            result == (AnnRequest::Step { request_id, background })
        },
{
    if open {
        let checksum: Option<String> = match &state.complete {
            Some(complete) => Some(complete.checksum.clone()),
            None => None,
        };
        let checkpoint_rows: u64 = match &state.complete {
            Some(complete) => complete.rows,
            None => 0,
        };
        AnnRequest::Open {
            request_id,
            protocol: ANN_WORKER_PROTOCOL,
            flat: flat_path,
            checkpoint: checkpoint_path,
            checksum,
            checkpoint_rows,
        }
    } else {
        AnnRequest::Step { request_id, background }
    }
}

/// What waits for the reply to a request.
#[derive(Debug)]
pub struct RequestWatch {
    pub request_id: u64,
    pub background: bool,
    pub started: u64,
    pub cancelled_at: Option<u64>,
    pub error: Option<String>,
}

/// What the builder was heard to say.
#[derive(Debug, Clone, Copy)]
pub enum Heard {
    Nothing,
    Reply { request_id: u64 },
    Gone,
}

/// What waiting for a reply calls for.
#[derive(Debug)]
pub enum WatchStep {
    /// The reply has come.
    Reply,
    /// Waiting goes on.
    Wait,
    /// The request is cancelled. Where `overrun`, it took too long beside the
    /// user, and loses its qualification.
    Cancel { overrun: bool },
    /// The builder is killed, and the error is returned.
    Kill { error: String },
    /// The error is returned.
    Fail { error: String },
}

impl RequestWatch {
    /// The time since the request was sent.
    pub open spec fn waited(self, now: u64) -> int {
        if now < self.started {
            0
        } else {
            now - self.started
        }
    }

    /// Why the request is cancelled now, if it is.
    pub open spec fn objection(self, lease_error: Option<Seq<char>>, now: u64) -> Option<Seq<char>> {
        if lease_error is Some {
            lease_error
        } else if self.background && self.waited(now) > 1000 {
            Some("background_paused: ANN cost overrun"@)
        } else if self.waited(now) > 300_000 {
            Some("ANN builder failed: stage watchdog expired"@)
        } else {
            None
        }
    }

    /// What is done about a request that is under way.
    pub open spec fn polled(
        before: Self,
        after: Self,
        heard: Heard,
        lease_error: Option<String>,
        now: u64,
        result: WatchStep,
    ) -> bool {
        &&& after.cancelled_at is Some == (after.error is Some)
        &&& after.request_id == before.request_id
        &&& after.background == before.background
        &&& after.started == before.started
        &&& match heard {
            Heard::Reply { request_id } => {
                &&& after == before
                &&& if request_id == before.request_id {
                    result is Reply
                } else {
                    result is Fail && result->Fail_error@ == "ANN worker response ID mismatch"@
                }
            },
            Heard::Gone => {
                &&& after == before
                &&& result is Fail
                &&& result->Fail_error@ == "ANN builder failed: worker disconnected"@
            },
            Heard::Nothing => match before.cancelled_at {
                Some(at) => {
                    &&& after == before
                    &&& if now >= at && now - at >= 500 {
                        result is Kill && result->Kill_error@ == before.error->0@
                    } else {
                        result is Wait
                    }
                },
                None => match before.objection(said(lease_error), now) {
                    Some(why) => {
                        &&& result is Cancel
                        &&& result->overrun == (lease_error is None && before.background
                            && before.waited(now) > 1000)
                        &&& after.cancelled_at == Some(now)
                        &&& after.error->0@ == why
                    },
                    None => result is Wait && after == before,
                },
            },
        }
    }

    /// What follows, by what was heard of the builder and by the lease. Once
    /// cancelled, a builder that does not answer in time is killed.
    pub fn poll(&mut self, heard: Heard, lease_error: Option<String>, now: u64) -> (result: WatchStep)
        requires
            old(self).cancelled_at is Some == (old(self).error is Some),
        ensures
            Self::polled(*old(self), *final(self), heard, lease_error, now, result),
    {
        match heard {
            Heard::Reply { request_id } => {
                return if request_id == self.request_id {
                    WatchStep::Reply
                } else {
                    WatchStep::Fail { error: "ANN worker response ID mismatch".to_owned() }
                };
            },
            Heard::Gone => {
                return WatchStep::Fail {
                    error: "ANN builder failed: worker disconnected".to_owned(),
                };
            },
            Heard::Nothing => {},
        }
        match self.cancelled_at {
            Some(at) => {
                if now >= at && now - at >= CANCEL_GRACE_MS {
                    let error = match &self.error {
                        Some(e) => e.clone(),
                        None => "".to_owned(),
                    };
                    return WatchStep::Kill { error };
                }
                return WatchStep::Wait;
            },
            None => {},
        }
        let waited: u64 = now.saturating_sub(self.started);
        let mut overrun = false;
        let objection: Option<String> = match lease_error {
            Some(e) => Some(e),
            None => if self.background && waited > BACKGROUND_STEP_MS {
                overrun = true;
                Some("background_paused: ANN cost overrun".to_owned())
            } else if waited > STEP_WATCHDOG_MS {
                Some("ANN builder failed: stage watchdog expired".to_owned())
            } else {
                None
            },
        };
        match objection {
            Some(e) => {
                self.cancelled_at = Some(now);
                self.error = Some(e);
                WatchStep::Cancel { overrun }
            },
            None => WatchStep::Wait,
        }
    }

    /// The reply has come: a request that was cancelled fails all the same, and
    /// so does one that the builder failed on.
    pub fn settle(self, reply: AnnReply) -> (result: Result<AnnReply, String>)
        ensures
            match self.error {
                Some(e) => result == Err::<AnnReply, String>(e),
                None => match reply.error {
                    Some(e) => result is Err && result->Err_0@ == e@,
                    None => result == Ok::<AnnReply, String>(reply),
                },
            },
    {
        match self.error {
            Some(e) => {
                return Err(e);
            },
            None => {},
        }
        match &reply.error {
            Some(e) => {
                return Err(e.clone());
            },
            None => {},
        }
        Ok(reply)
    }
}

/// The identity under which a cost that the builder reported is put down: by
/// the rows that the graph held, except for transfers.
pub fn sample_key(state: &AnnBuildCheckpoint, operation: &str, built: u64) -> (result: CostKey)
    ensures
        result@ == key_for(
            operation@,
            if operation@ == "ann_io"@ {
                cost_rows(*state)
            } else {
                built
            },
        ),
{
    if text::same(operation, "ann_io") {
        return ann_key(state, operation);
    }
    CostKey::new(TASK_ANN_BUILD, operation, CLIP_VECTOR_SPACE_REVISION, built, COST_PARAMETERS)
}

/// The cost that the builder reported. The times are given as bit patterns;
/// the memory is what was seen while the request ran.
pub fn reported_cost(elapsed_ms: u64, cpu_ms: u64, peak: u64, baseline: u64) -> (result: CostSample)
    ensures
        result == (CostSample {
            elapsed_ms,
            cpu_ms,
            peak_private_bytes: peak,
            additional_peak_bytes: if peak < baseline {
                0
            } else {
                (peak - baseline) as u64
            },
            cpu_rate_percent: CPU_RATE_PERCENT,
        }),
{
    CostSample {
        elapsed_ms,
        cpu_ms,
        peak_private_bytes: peak,
        additional_peak_bytes: peak.saturating_sub(baseline),
        cpu_rate_percent: CPU_RATE_PERCENT,
    }
}

/// How long to rest after a transfer beside the user, in nanoseconds.
pub fn io_rest_ns(background: bool, bytes: u64) -> (result: u128)
    ensures
        result == if background {
            ieee::nearest(bytes * 1_000_000_000, 2_097_152)
        } else {
            0
        },
{
    if background {
        ieee::nearest_quotient(bytes as u128 * 1_000_000_000, IO_BYTES_PER_SECOND as u64)
    } else {
        0
    }
}

/// A unit does something only where it may: the feature is on, no other build is
/// under way, and it need not wait after a failure. Unfinished work goes on, and
/// a new build is begun only when one is wanted, and never beside the user.
pub proof fn law_unfinished_builds_go_on(
    facts: UnitFacts,
    state: Option<&AnnBuildCheckpoint>,
    dataset: &str,
    result: UnitStart,
)
    requires
        unit_started(facts, state, dataset, result),
    ensures
        result is Skip <==> !facts.enabled || !facts.build_free || !facts.retry_due,
        facts.enabled && facts.build_free && facts.retry_due ==> (result is Resume <==> {
            &&& state matches Some(s)
            &&& s.dataset_id@ == dataset@
            &&& s.model_fingerprint@ == contract_text()
            &&& s.phase@ != "complete"@
        }),
        result is Begin ==> facts.rebuild && !facts.background,
        result is WaitForIdle ==> facts.rebuild && facts.background,
        result is Done ==> !facts.rebuild,
{
}

/// Two checkpoints are kept: making one keeps the last complete one behind it,
/// and only the one before that may go. When the newest cannot be used, the one
/// behind it is back.
pub proof fn law_a_bad_checkpoint_gives_way_to_the_last(
    first: AnnBuildCheckpoint,
    second: AnnBuildCheckpoint,
    third: AnnBuildCheckpoint,
    name: String,
    checksum: String,
    built: u64,
    graph_bytes: u64,
    gone: Option<AnnCheckpointFile>,
    error: String,
    settled: Result<(), String>,
)
    requires
        checkpoint_kept(first, second, name, checksum, built, graph_bytes, gone),
        step_settled(second, third, error, settled),
        text::holds_text(error@, "checkpoint"@),
        !background_policy::tells_pause(error@),
    ensures
        second.complete == Some(AnnCheckpointFile { name, checksum, rows: built }),
        gone == first.previous,
        settled is Ok,
        third.complete == first.complete,
        third.previous is None,
        built == first.frozen_rows ==> second.phase@ == "copy_ann"@,
        built != first.frozen_rows ==> second.phase@ == first.phase@,
        third.materialized_rows == first.materialized_rows && third.flat_checksum
            == first.flat_checksum && third.generation == first.generation,
{
}

/// A pause, or an error that is not about a checkpoint, costs no checkpoint.
pub proof fn law_pauses_cost_no_checkpoint(
    before: AnnBuildCheckpoint,
    after: AnnBuildCheckpoint,
    error: String,
    settled: Result<(), String>,
)
    requires
        step_settled(before, after, error, settled),
        background_policy::tells_pause(error@) || !text::holds_text(error@, "checkpoint"@),
    ensures
        after == before,
        settled is Err,
{
}

/// The builder works only on vectors that fit their checksum; vectors that do
/// not are written from the beginning.
pub proof fn law_damaged_vectors_are_written_anew(
    before: AnnBuildCheckpoint,
    after: AnnBuildCheckpoint,
    flat: Option<&[u8]>,
    complete_exists: bool,
    ready: bool,
)
    requires
        builder_prepared(before, after, flat, complete_exists, ready),
    ensures
        flat is None || before.flat_checksum is None ==> !ready,
        flat matches Some(bytes) ==> (before.flat_checksum matches Some(expected) ==> (ready
            <==> digest::hex_text(digest::sha256_of(bytes@)) == expected@)),
        !ready ==> after.phase@ == "materialize"@ && after.materialized_rows == 0
            && after.materialized_key_bytes == 0 && after.complete == before.complete,
        ready && before.complete is Some && !complete_exists ==> after.complete == before.previous,
        ready && complete_exists ==> after == before,
{
}

/// A copy goes on where it stopped, as long as what is there reaches so far, and
/// from the beginning otherwise; what was copied in full is published.
pub proof fn law_copies_go_on_where_they_stopped(
    before: AnnBuildCheckpoint,
    after: AnnBuildCheckpoint,
    source_exists: bool,
    copy: Option<&[u8]>,
    source_len: u64,
    partial_len: Option<u64>,
    result: Result<CopyPlan, String>,
)
    requires
        copy_planned(before, after, source_exists, copy, source_len, partial_len, result),
    ensures
        before.complete is None <==> result is Err,
        result matches Ok(CopyPlan::Continue { offset }) ==> {
            &&& source_exists
            &&& offset <= source_len
            &&& offset > 0 ==> offset == before.copy_offset && (partial_len matches Some(there)
                && offset <= there)
            &&& after.copy_offset == offset
            &&& after.phase == before.phase
        },
        before.complete is Some && !source_exists ==> result == Ok::<CopyPlan, String>(
            CopyPlan::Recover,
        ) && after.complete == before.previous && after.phase@ == "build"@ && after.copy_offset
            == 0,
        result == Ok::<CopyPlan, String>(CopyPlan::Copied) ==> {
            &&& after.phase@ == "publish"@
            &&& copy is Some
            &&& digest::hex_text(digest::sha256_of(copy->0@)) == before.complete->0.checksum@
        },
{
}

/// What is published fits its checksums. Vectors that do not are written anew; a
/// graph that does not is copied again from a complete one that does; and only
/// if that does not either is the build taken up from the checkpoint before.
pub proof fn law_only_intact_files_are_published(
    before: AnnBuildCheckpoint,
    after: AnnBuildCheckpoint,
    flat: Option<&[u8]>,
    graph: Option<&[u8]>,
    complete_file: Option<&[u8]>,
    result: Result<bool, String>,
)
    requires
        publication_recovered(before, after, flat, graph, complete_file, result),
    ensures
        result == Ok::<bool, String>(false) ==> {
            &&& flat is Some && before.flat_checksum is Some && digest::hex_text(
                digest::sha256_of(flat->0@),
            ) == before.flat_checksum->0@
            &&& graph is Some && before.complete is Some && digest::hex_text(
                digest::sha256_of(graph->0@),
            ) == before.complete->0.checksum@
            &&& after == before
        },
        result == Ok::<bool, String>(true) ==> {
            ||| after.phase@ == "materialize"@ && after.flat_checksum is None && after.complete
                == before.complete
            ||| after.phase@ == "copy_ann"@ && after.complete == before.complete && complete_file
                is Some && digest::hex_text(digest::sha256_of(complete_file->0@))
                == before.complete->0.checksum@
            ||| after.phase@ == "build"@ && after.complete == before.previous
        },
        result == Ok::<bool, String>(true) ==> after.copy_offset == 0,
        after.generation == before.generation && after.frozen_rows == before.frozen_rows,
{
}

/// An answer counts only for its own request. A request is cancelled when its
/// lease is revoked, after a second beside the user, and after five minutes
/// anyway; a builder that does not answer half a second after that is killed.
pub proof fn law_requests_do_not_overstay(
    before: RequestWatch,
    after: RequestWatch,
    heard: Heard,
    lease_error: Option<String>,
    now: u64,
    result: WatchStep,
)
    requires
        RequestWatch::polled(before, after, heard, lease_error, now, result),
        before.started <= now,
    ensures
        result is Reply ==> heard == (Heard::Reply { request_id: before.request_id }),
        heard is Gone ==> result is Fail,
        heard is Nothing && before.cancelled_at is None ==> (result is Cancel <==> lease_error
            is Some || (before.background && now - before.started > 1000) || now - before.started
            > 300_000),
        result is Cancel ==> after.cancelled_at == Some(now),
        result is Cancel && result->overrun ==> before.background && lease_error is None,
        result is Kill ==> before.cancelled_at is Some && before.cancelled_at->0 + 500 <= now,
        heard is Nothing ==> (before.cancelled_at matches Some(at) ==> at + 500 <= now ==> result
            is Kill),
{
}

/// An automatic slice is a single unit. One that was asked for goes on while
/// there is more, unless its time is up or a gate closed, which it then says.
pub proof fn law_requested_slices_go_on(
    manual: bool,
    unit: ScheduledSliceResult,
    deadline_passed: bool,
    gate: Option<&'static str>,
    result: SliceStep,
)
    requires
        slice_stepped(manual, unit, deadline_passed, gate, result),
    ensures
        !manual ==> result == (SliceStep::End { result: unit }),
        result is Continue <==> manual && unit.has_more && unit.skipped_reason is None
            && !deadline_passed && gate is None,
        manual && unit.has_more && unit.skipped_reason is None && deadline_passed ==> result is End
            && result->result.has_more && (result->result.skipped_reason matches Some(why) && why@
            == "manual_deadline"@),
{
}

/// A name that leads out of the directory is refused, and so is one of another
/// generation.
pub proof fn law_foreign_checkpoint_names_are_refused(generation: u64, name: Seq<char>, i: int)
    ensures
        0 <= i < name.len() && (name[i] == '/' || name[i] == '\\' || name[i] == ':')
            ==> !checkpoint_name_ok(generation, name),
        name.len() < 11 ==> !checkpoint_name_ok(generation, name),
        checkpoint_name_ok(generation, name) ==> name.len() >= 11 && name.take(11)
            == "clip_image-"@,
{
    reveal_strlit("clip_image-");
    let prefix = "clip_image-"@ + text::decimal(generation as nat) + ".checkpoint-"@;
    assert(prefix.take(11) =~= "clip_image-"@);
    if checkpoint_name_ok(generation, name) {
        assert(name.subrange(0, prefix.len() as int) == prefix);
        assert(name.take(11) =~= prefix.take(11));
    }
}

/// A checkpoint belongs to the data and the formats that it was made with, and
/// is taken up only with them.
pub proof fn law_checkpoints_belong_to_their_data(
    state: AnnBuildCheckpoint,
    dataset: Seq<char>,
    other: Seq<char>,
)
    requires
        belongs(state, dataset),
        other != dataset,
    ensures
        !belongs(state, other),
        !unfinished(Some(&state), other),
        unfinished(Some(&state), dataset) <==> state.phase@ != "complete"@,
{
}

/// Each phase has a name of its own, and nothing else names one.
pub proof fn law_phases_have_names(name: Seq<char>)
    ensures
        phase_named(name) == Some(UnitPhase::Freeze) <==> name == "freeze"@,
        phase_named(name) is None <==> name != "freeze"@ && name != "materialize"@ && name
            != "hash_flat"@ && name != "build"@ && name != "copy_ann"@ && name != "publish"@ && name
            != "cleanup"@,
        phase_named("materialize"@) == Some(UnitPhase::Materialize),
        phase_named("hash_flat"@) == Some(UnitPhase::HashFlat),
        phase_named("build"@) == Some(UnitPhase::Build),
        phase_named("copy_ann"@) == Some(UnitPhase::CopyAnn),
        phase_named("publish"@) == Some(UnitPhase::Publish),
        phase_named("cleanup"@) == Some(UnitPhase::Cleanup),
{
    reveal_strlit("freeze");
    reveal_strlit("materialize");
    reveal_strlit("hash_flat");
    reveal_strlit("build");
    reveal_strlit("copy_ann");
    reveal_strlit("publish");
    reveal_strlit("cleanup");
    assert("freeze"@.len() == 6 && "materialize"@.len() == 11 && "hash_flat"@.len() == 9
        && "build"@.len() == 5 && "copy_ann"@.len() == 8 && "publish"@.len() == 7
        && "cleanup"@.len() == 7);
    assert("publish"@[0] == 'p' && "cleanup"@[0] == 'c');
}

/// The bytes of two pages add up.
pub proof fn law_pages_add_up(a: Seq<DerivedAnnSnapshotRow>, b: Seq<DerivedAnnSnapshotRow>)
    ensures
        page_bytes(a + b) == page_bytes(a) + page_bytes(b),
        page_key_bytes(a + b) == page_key_bytes(a) + page_key_bytes(b),
        page_key_bytes(a) <= page_bytes(a),
    decreases b.len(), a.len(),
{
    if a.len() > 0 {
        law_pages_add_up(a.drop_last(), Seq::empty());
    }
    if b.len() == 0 {
        assert(a + b =~= a);
    } else {
        law_pages_add_up(a, b.drop_last());
        assert((a + b).drop_last() =~= a + b.drop_last());
        assert((a + b).last() == b.last());
    }
}

/// What a build costs is looked up by its rows: the frozen ones, or those that
/// are expected where they are more.
pub proof fn law_costs_go_by_the_larger_count(state: AnnBuildCheckpoint, operation: Seq<char>)
    ensures
        cost_rows(state) >= state.expected_rows,
        cost_rows(state) >= state.frozen_rows,
        cost_rows(state) == state.expected_rows || cost_rows(state) == state.frozen_rows,
        key_for(operation, cost_rows(state)).task == "ann_build"@,
        key_for(operation, cost_rows(state)).operation == operation,
{
}

} // verus!
