//! The rows that the derived indexes are kept in.
use vstd::prelude::*;

verus! {

/// A derived index.
#[derive(Debug, Clone, Copy, PartialEq, Eq, Structural)]
pub enum DerivedIndexKind {
    SemanticText,
    ClipImage,
}

/// What a row of a derived index is to be made from, and by what.
#[derive(Debug)]
pub struct DerivedIndexJobSpec {
    pub index_kind: DerivedIndexKind,
    pub subject_key: String,
    pub model_id: String,
    pub model_revision: String,
    pub embedding_version: u32,
    pub source_fingerprint: String,
}

/// A published generation of the graph.
#[derive(Debug)]
pub struct DerivedAnnGeneration {
    pub index_kind: DerivedIndexKind,
    pub generation: u64,
    pub covered_epoch: u64,
    pub flat_file_name: String,
    pub flat_checksum_sha256: String,
    pub ann_file_name: String,
    pub ann_checksum_sha256: String,
    pub row_count: u64,
    pub dimensions: u32,
    pub model_id: String,
    pub model_revision: String,
    pub embedding_version: u32,
    pub sidecar_format_version: u32,
    pub ann_format_version: u32,
    pub algorithm: String,
    pub implementation_version: String,
    pub metric: String,
    pub quantization: String,
    pub connectivity: u32,
    pub expansion_add: u32,
    pub expansion_search: u32,
    pub created_at: String,
}

/// How the last builds of the graph went.
#[derive(Debug)]
pub struct DerivedAnnBuildState {
    pub consecutive_failures: u32,
    pub last_failure_at: String,
    pub next_retry_at: String,
    pub last_error_code: String,
    pub last_error: String,
    pub circuit_open: bool,
    pub notification_sent: bool,
}

/// A subject that changed after a generation was built. Without a vector it
/// was deleted. The vector is given by bit patterns.
#[derive(Debug)]
pub struct DerivedAnnTailRow {
    pub subject_key: String,
    pub vector: Option<Vec<u32>>,
}

/// A row of the snapshot that a generation is built from.
#[derive(Debug)]
pub struct DerivedAnnSnapshotRow {
    pub subject_key: String,
    pub dimensions: u32,
    pub vector_f32: Vec<u8>,
}

} // verus!
