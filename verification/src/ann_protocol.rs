//! Control protocol between the desktop and the resumable graph builder.
use vstd::prelude::*;

verus! {

pub const ANN_WORKER_PROTOCOL: u32 = 1;

pub const IO_CHUNK: usize = 262_144;

pub const IO_RATE: u64 = 2_097_152;

pub const CHECKPOINT_ROWS: u64 = 5000;

/// Thirty seconds of insertion time.
pub const CHECKPOINT_COMPUTE_NS: u64 = 30_000_000_000;

/// A request to the builder.
#[derive(Debug)]
pub enum AnnRequest {
    Open {
        request_id: u64,
        protocol: u32,
        flat: String,
        checkpoint: Option<String>,
        checksum: Option<String>,
        checkpoint_rows: u64,
    },
    Step { request_id: u64, background: bool },
    Cancel { request_id: u64 },
}

impl AnnRequest {
    /// The request's id.
    pub open spec fn request(&self) -> u64 {
        match *self {
            AnnRequest::Open { request_id, .. } => request_id,
            AnnRequest::Step { request_id, .. } => request_id,
            AnnRequest::Cancel { request_id } => request_id,
        }
    }

    /// The request's id.
    pub fn id(&self) -> (result: u64)
        ensures
            result == self.request(),
    {
        match self {
            AnnRequest::Open { request_id, .. } => *request_id,
            AnnRequest::Step { request_id, .. } => *request_id,
            AnnRequest::Cancel { request_id } => *request_id,
        }
    }
}

/// What one operation cost, in nanoseconds.
#[derive(Debug, Clone)]
pub struct AnnCost {
    pub operation: String,
    pub elapsed_ns: u64,
    pub cpu_ns: u64,
}

/// The builder's answer to one request.
#[derive(Debug)]
pub struct AnnReply {
    pub request_id: u64,
    pub phase: String,
    pub built: u64,
    pub graph_bytes: u64,
    pub checkpoint: Option<String>,
    pub checksum: Option<String>,
    pub samples: Vec<AnnCost>,
    pub error: Option<String>,
}

impl AnnReply {
    /// The reply to a request before anything was done for it.
    pub fn blank(request_id: u64) -> (result: Self)
        ensures
            result.request_id == request_id,
            result.phase@ == "ann_io"@,
            result.built == 0,
            result.graph_bytes == 0,
            result.checkpoint is None,
            result.checksum is None,
            result.samples@.len() == 0,
            result.error is None,
    {
        AnnReply {
            request_id,
            phase: "ann_io".to_owned(),
            built: 0,
            graph_bytes: 0,
            checkpoint: None,
            checksum: None,
            samples: Vec::new(),
            error: None,
        }
    }
}

} // verus!
