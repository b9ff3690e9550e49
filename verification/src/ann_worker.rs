//! The persistent graph builder as a state machine.
//!
//! A session reads the frozen input, restores a checkpoint if one was given,
//! inserts rows, and writes, reads back and validates checkpoints. Files and
//! the graph itself are handled outside: the session says what comes next and
//! is told how it went. Only a validated checkpoint moves the committed row
//! count.
use crate::ann_format::{Header, HeaderModel};
use crate::ann_protocol::{
    AnnCost, AnnReply, AnnRequest, ANN_WORKER_PROTOCOL, CHECKPOINT_COMPUTE_NS, CHECKPOINT_ROWS,
    IO_CHUNK, IO_RATE,
};
use crate::{ann_format, ann_sidecar, codec, digest, ieee, text};
use vstd::prelude::*;
use vstd::string::*;

verus! {

/// The largest input or graph that is handled in the background.
pub const BACKGROUND_BYTES: u64 = 67_108_864;

/// The largest file that is read into memory.
pub const READ_LIMIT: u64 = 1_073_741_824;

/// Which request is being served, and whether it was revoked.
pub struct Control {
    pub active: u64,
    pub revoked: bool,
}

impl Default for Control {
    fn default() -> (result: Self)
        ensures
            result.active == 0,
            !result.revoked,
    {
        Control { active: 0, revoked: false }
    }
}

impl Control {
    /// Starts serving a request.
    pub fn begin(&mut self, id: u64)
        ensures
            final(self).active == id,
            !final(self).revoked,
    {
        self.active = id;
        self.revoked = false;
    }

    /// What a request to cancel does to the one that is under way.
    pub open spec fn cancelled(before: Self, after: Self, id: u64) -> bool {
        &&& after.active == before.active
        &&& after.revoked == (before.revoked || before.active == id)
    }

    /// Revokes the request with this id, if it is the one being served.
    pub fn cancel(&mut self, id: u64)
        ensures
            Self::cancelled(*old(self), *final(self), id),
    {
        if self.active == id {
            self.revoked = true;
        }
    }

    /// Fails once the request was revoked.
    pub fn check(&self) -> (result: Result<(), String>)
        ensures
            match result {
                Ok(_) => !self.revoked,
                Err(e) => self.revoked && e@ == "background_paused: ANN request revoked"@,
            },
    {
        if self.revoked {
            Err("background_paused: ANN request revoked".to_owned())
        } else {
            Ok(())
        }
    }

    /// How long to rest after moving `bytes`, in nanoseconds.
    pub fn throttle(&self, bytes: usize, background: bool) -> (result: u128)
        ensures
            result == if background {
                ieee::nearest(bytes as int * 1_000_000_000, IO_RATE as int)
            } else {
                0
            },
    {
        if background {
            assert(bytes as int * 1_000_000_000 <= u64::MAX * 1_000_000_000);
            ieee::nearest_quotient(bytes as u128 * 1_000_000_000, IO_RATE as u64)
        } else {
            0
        }
    }
}

/// What a session does next.
#[derive(Clone, Copy, Debug, PartialEq, Eq, Structural)]
pub enum Phase {
    Flat,
    ReadCheckpoint,
    Restore,
    Build,
    Serialize,
    Write,
    ReadBack,
    VerifyRestore,
    Validate,
}

impl Phase {
    /// The cost class of the phase.
    pub open spec fn class(self) -> Seq<char> {
        match self {
            Phase::Flat => "ann_io"@,
            Phase::ReadCheckpoint => "ann_io"@,
            Phase::Write => "ann_io"@,
            Phase::ReadBack => "ann_io"@,
            Phase::Restore => "ann_restore"@,
            Phase::VerifyRestore => "ann_restore"@,
            Phase::Build => "ann_insert"@,
            Phase::Serialize => "ann_serialize"@,
            Phase::Validate => "ann_validate"@,
        }
    }

    /// The cost class of the phase.
    pub fn operation(self) -> (result: &'static str)
        ensures
            result@ == self.class(),
    {
        match self {
            Phase::Flat => "ann_io",
            Phase::ReadCheckpoint => "ann_io",
            Phase::Write => "ann_io",
            Phase::ReadBack => "ann_io",
            Phase::Restore => "ann_restore",
            Phase::VerifyRestore => "ann_restore",
            Phase::Build => "ann_insert",
            Phase::Serialize => "ann_serialize",
            Phase::Validate => "ann_validate",
        }
    }
}

/// How the frozen input is to be brought in.
#[derive(Clone, Copy, Debug, PartialEq, Eq, Structural)]
pub enum FlatPlan {
    Mapped,
    Chunks,
}

/// What a restored graph says of itself.
#[derive(Clone, Copy, Debug)]
pub struct GraphFacts {
    pub size: u64,
    pub dimensions: u64,
    pub inner_product: bool,
    pub eight_bit: bool,
    pub connectivity: u64,
}

/// How a graph is made.
#[derive(Clone, Copy, Debug)]
pub struct GraphOptions {
    pub dimensions: u32,
    pub connectivity: u32,
    pub expansion_add: u32,
    pub expansion_search: u32,
}

/// One build of a graph over a frozen input.
pub struct Session {
    pub flat_path: String,
    pub flat_bytes: Vec<u8>,
    pub mapped: bool,
    pub header: Option<Header>,
    pub read_path: Option<String>,
    pub read_bytes: Vec<u8>,
    pub expected_checksum: Option<String>,
    pub built: u64,
    pub committed: u64,
    pub compute_ns: u64,
    pub graph_bytes: Vec<u8>,
    pub output: Option<String>,
    pub cursor: usize,
    pub phase: Phase,
}

/// What an optional string says.
pub open spec fn said(value: Option<String>) -> Option<Seq<char>> {
    match value {
        Some(s) => Some(s@),
        None => None,
    }
}

/// `a - b`, or zero where `b` is larger.
pub open spec fn minus(a: int, b: int) -> int {
    if a > b {
        a - b
    } else {
        0
    }
}

impl Session {
    /// A session that continues behind `rows` committed rows.
    pub fn new(flat: String, checkpoint: Option<String>, checksum: Option<String>, rows: u64) -> (result:
        Self)
        ensures
            result.flat_path == flat,
            result.flat_bytes@.len() == 0,
            !result.mapped,
            result.header is None,
            result.read_path == checkpoint,
            result.read_bytes@.len() == 0,
            result.expected_checksum == checksum,
            result.built == rows,
            result.committed == rows,
            result.compute_ns == 0,
            result.graph_bytes@.len() == 0,
            result.output is None,
            result.cursor == 0,
            result.phase == Phase::Flat,
    {
        Session {
            flat_path: flat,
            flat_bytes: Vec::new(),
            mapped: false,
            header: None,
            read_path: checkpoint,
            read_bytes: Vec::new(),
            expected_checksum: checksum,
            built: rows,
            committed: rows,
            compute_ns: 0,
            graph_bytes: Vec::new(),
            output: None,
            cursor: 0,
            phase: Phase::Flat,
        }
    }

    /// The rows of the input.
    pub open spec fn total(&self) -> u64 {
        self.header->0.row_count
    }

    /// A checkpoint is owed: every row is in, enough rows are uncommitted, or
    /// enough time went into them.
    pub open spec fn checkpoint_due(&self) -> bool {
        self.built >= self.total() || self.commit_due()
    }

    /// A step begins with the phase that the session is in, unless the request
    /// was revoked: then it does nothing.
    pub fn begin_step(&self, control: &Control) -> (result: Result<Phase, String>)
        ensures
            match result {
                Ok(phase) => !control.revoked && phase == self.phase,
                Err(e) => control.revoked && e@ == "background_paused: ANN request revoked"@,
            },
    {
        match control.check() {
            Ok(_) => Ok(self.phase),
            Err(e) => Err(e),
        }
    }

    /// How a graph for this input is made.
    pub fn options(&self) -> (result: GraphOptions)
        requires
            self.header is Some,
        ensures
            result.dimensions == self.header->0.dimensions,
            result.connectivity == self.header->0.connectivity,
            result.expansion_add == self.header->0.expansion_add,
            result.expansion_search == self.header->0.expansion_search,
    {
        let header = self.header.as_ref().unwrap();
        GraphOptions {
            dimensions: header.dimensions,
            connectivity: header.connectivity,
            expansion_add: header.expansion_add,
            expansion_search: header.expansion_search,
        }
    }

    /// How the input is read.
    pub open spec fn flat_planned(
        own: Self,
        size: u64,
        background: bool,
        result: Result<FlatPlan, String>,
    ) -> bool {
        match result {
            Ok(plan) => if size > BACKGROUND_BYTES {
                !background && plan == FlatPlan::Mapped
            } else {
                plan == FlatPlan::Chunks
            },
            Err(e) => {
                &&& size > BACKGROUND_BYTES
                &&& background
                &&& e@ == "background_paused: ANN input exceeds B limit"@
            },
        }
    }

    /// How an input of `size` bytes is brought in.
    pub fn flat_plan(&self, size: u64, background: bool) -> (result: Result<FlatPlan, String>)
        ensures
            Self::flat_planned(*self, size, background, result),
    {
        if size > BACKGROUND_BYTES {
            if background {
                return Err("background_paused: ANN input exceeds B limit".to_owned());
            }
            Ok(FlatPlan::Mapped)
        } else {
            Ok(FlatPlan::Chunks)
        }
    }

    /// The phase behind the input: a given checkpoint is read first.
    pub open spec fn after_flat(&self) -> Phase {
        if self.read_path is Some {
            Phase::ReadCheckpoint
        } else {
            Phase::Build
        }
    }

    fn enter_after_flat(&mut self)
        ensures
            *final(self) == (Session { phase: old(self).after_flat(), ..*old(self) }),
    {
        if self.read_path.is_some() {
            self.phase = Phase::ReadCheckpoint;
        } else {
            self.phase = Phase::Build;
        }
    }

    /// The input was mapped and opens with this header.
    pub fn flat_mapped(&mut self, header: Header)
        requires
            old(self).phase == Phase::Flat,
        ensures
            *final(self) == (Session {
                mapped: true,
                header: Some(header),
                phase: old(self).after_flat(),
                ..*old(self)
            }),
    {
        self.header = Some(header);
        self.mapped = true;
        self.enter_after_flat();
    }

    /// The graph that is to be filled could not be made: the next step brings
    /// the input in anew.
    pub fn graph_not_made(&mut self)
        requires
            old(self).phase == Phase::Build,
        ensures
            *final(self) == (Session { phase: Phase::Flat, ..*old(self) }),
    {
        self.phase = Phase::Flat;
    }

    /// A further chunk of an input of `size` bytes was read. The last chunk
    /// completes the header.
    pub fn flat_chunk(&mut self, chunk: &[u8], size: u64) -> (result: Result<(), String>)
        requires
            old(self).phase == Phase::Flat,
            old(self).flat_bytes@.len() + chunk@.len() <= usize::MAX,
        ensures
            *final(self) == (Session {
                flat_bytes: final(self).flat_bytes,
                header: final(self).header,
                phase: final(self).phase,
                ..*old(self)
            }),
            final(self).flat_bytes@ == old(self).flat_bytes@ + chunk@,
            ({
                let bytes = old(self).flat_bytes@ + chunk@;
                match result {
                    Ok(_) => {
                        &&& if bytes.len() == size {
                            &&& final(self).header is Some
                            &&& ann_format::decoded(bytes) == Ok::<HeaderModel, Seq<char>>(
                                final(self).header->0@,
                            )
                        } else {
                            chunk@.len() > 0 && final(self).header == old(self).header
                        }
                        &&& final(self).phase == if final(self).header is Some {
                            old(self).after_flat()
                        } else {
                            Phase::Flat
                        }
                    },
                    Err(e) => {
                        &&& final(self).phase == Phase::Flat
                        &&& final(self).header == old(self).header
                        &&& if bytes.len() != size {
                            chunk@.len() == 0 && e@ == "ANN input truncated during read"@
                        } else {
                            ann_format::decoded(bytes) == Err::<HeaderModel, Seq<char>>(e@)
                        }
                    },
                }
            }),
    {
        codec::push_bytes(&mut self.flat_bytes, chunk);
        if chunk.len() == 0 && self.flat_bytes.len() as u64 != size {
            return Err("ANN input truncated during read".to_owned());
        }
        if self.flat_bytes.len() as u64 == size {
            match Header::decode(&self.flat_bytes) {
                Ok(header) => {
                    self.header = Some(header);
                },
                Err(e) => {
                    return Err(e);
                },
            }
        }
        if self.header.is_some() {
            self.enter_after_flat();
        }
        Ok(())
    }

    /// A file of `length` bytes may be read into memory.
    pub fn read_allowed(&self, length: u64) -> (result: Result<(), String>)
        ensures
            match result {
                Ok(_) => length <= READ_LIMIT,
                Err(e) => length > READ_LIMIT && e@
                    == "ANN checkpoint exceeds worker memory budget"@,
            },
    {
        if length > READ_LIMIT {
            Err("ANN checkpoint exceeds worker memory budget".to_owned())
        } else {
            Ok(())
        }
    }

    /// The file that is read in this phase.
    pub fn checkpoint_path(&self) -> (result: Result<&String, String>)
        ensures
            match result {
                Ok(path) => self.read_path == Some(*path),
                Err(e) => self.read_path is None && e@ == "ANN checkpoint path missing"@,
            },
    {
        match &self.read_path {
            Some(path) => Ok(path),
            None => Err("ANN checkpoint path missing".to_owned()),
        }
    }

    /// The bytes are those that the checksum was taken of.
    pub open spec fn checksum_holds(&self, bytes: Seq<u8>) -> bool {
        said(self.expected_checksum) == Some(digest::hex_text(digest::sha256_of(bytes)))
    }

    /// What a further piece of a checkpoint comes to.
    pub open spec fn chunk_read(
        before: Self,
        after: Self,
        chunk: &[u8],
        length: u64,
        result: Result<(), String>,
    ) -> bool {
        &&& after == (Session {
            read_bytes: after.read_bytes,
            phase: after.phase,
            ..before
        })
        &&& after.read_bytes@ == before.read_bytes@ + chunk@
        &&& ({
            let bytes = before.read_bytes@ + chunk@;
            match result {
                Ok(_) => if bytes.len() == length {
                    &&& before.checksum_holds(bytes)
                    &&& after.phase == if before.phase == Phase::ReadCheckpoint {
                        Phase::Restore
                    } else {
                        Phase::VerifyRestore
                    }
                } else {
                    chunk@.len() > 0 && after.phase == before.phase
                },
                Err(e) => {
                    &&& after.phase == before.phase
                    &&& if bytes.len() != length {
                        chunk@.len() == 0 && e@ == "ANN input truncated during read"@
                    } else {
                        !before.checksum_holds(bytes) && e@
                            == "ANN checkpoint checksum mismatch"@
                    }
                },
            }
        })
    }

    /// A further chunk of a checkpoint file of `length` bytes was read. The
    /// last chunk has the whole file held against its checksum.
    pub fn checkpoint_chunk(&mut self, chunk: &[u8], length: u64) -> (result: Result<(), String>)
        requires
            old(self).phase == Phase::ReadCheckpoint || old(self).phase == Phase::ReadBack,
            old(self).read_bytes@.len() + chunk@.len() <= usize::MAX,
        ensures
            Self::chunk_read(*old(self), *final(self), chunk, length, result),
    {
        codec::push_bytes(&mut self.read_bytes, chunk);
        if chunk.len() == 0 && self.read_bytes.len() as u64 != length {
            return Err("ANN input truncated during read".to_owned());
        }
        if self.read_bytes.len() as u64 == length {
            let found = digest::sha256_hex(&self.read_bytes);
            let matches = match &self.expected_checksum {
                Some(expected) => *expected == found,
                None => false,
            };
            if !matches {
                return Err("ANN checkpoint checksum mismatch".to_owned());
            }
            self.phase = if self.phase == Phase::ReadCheckpoint {
                Phase::Restore
            } else {
                Phase::VerifyRestore
            };
        }
        Ok(())
    }

    /// The graph is the one that the checkpoint claims to be.
    pub open spec fn graph_fits(&self, facts: GraphFacts) -> bool {
        &&& facts.size == self.built
        &&& facts.dimensions == self.header->0.dimensions
        &&& facts.inner_product
        &&& facts.eight_bit
        &&& facts.connectivity == self.header->0.connectivity
    }

    /// A graph that says this of itself is the one that the checkpoint claims
    /// to be.
    pub fn check_graph(&self, facts: GraphFacts) -> (result: Result<(), String>)
        requires
            self.header is Some,
        ensures
            match result {
                Ok(_) => self.graph_fits(facts),
                Err(e) => !self.graph_fits(facts) && e@ == "ANN checkpoint contract mismatch"@,
            },
    {
        let options = self.options();
        if facts.size != self.built || facts.dimensions != options.dimensions as u64
            || !facts.inner_product || !facts.eight_bit || facts.connectivity
            != options.connectivity as u64 {
            Err("ANN checkpoint contract mismatch".to_owned())
        } else {
            Ok(())
        }
    }

    /// What a graph that was read comes to.
    pub open spec fn graph_restored(
        before: Self,
        after: Self,
        facts: GraphFacts,
        result: Result<(), String>,
    ) -> bool {
        match result {
            Ok(_) => {
                &&& before.graph_fits(facts)
                &&& after.read_bytes@.len() == 0
                &&& after == (Session {
                    read_bytes: after.read_bytes,
                    phase: if before.phase == Phase::Restore {
                        Phase::Build
                    } else {
                        Phase::Validate
                    },
                    ..before
                })
            },
            Err(e) => {
                &&& !before.graph_fits(facts)
                &&& e@ == "ANN checkpoint contract mismatch"@
                &&& after == before
            },
        }
    }

    /// The bytes that were read were loaded as a graph that says this of
    /// itself.
    pub fn restored(&mut self, facts: GraphFacts) -> (result: Result<(), String>)
        requires
            old(self).phase == Phase::Restore || old(self).phase == Phase::VerifyRestore,
            old(self).header is Some,
        ensures
            Self::graph_restored(*old(self), *final(self), facts, result),
    {
        match self.check_graph(facts) {
            Ok(_) => {},
            Err(e) => {
                return Err(e);
            },
        }
        self.read_bytes = Vec::new();
        self.phase = if self.phase == Phase::Restore {
            Phase::Build
        } else {
            Phase::Validate
        };
        Ok(())
    }

    /// The most rows that one step inserts.
    pub open spec fn step_rows(background: bool) -> u64 {
        if background {
            1
        } else {
            CHECKPOINT_ROWS
        }
    }

    /// Enough rows are uncommitted, or enough time went into them.
    pub open spec fn commit_due(&self) -> bool {
        ||| minus(self.built as int, self.committed as int) >= CHECKPOINT_ROWS
        ||| self.compute_ns >= CHECKPOINT_COMPUTE_NS
    }

    /// A step that inserted so many rows inserts no more.
    pub open spec fn step_full(&self, inserted: u64, background: bool) -> bool {
        inserted >= Self::step_rows(background) || (inserted > 0 && self.commit_due())
    }

    /// The row that is inserted next in a step, if there is one.
    pub open spec fn row_next(
        own: Self,
        inserted: u64,
        background: bool,
        control: &Control,
        result: Result< Option<u64>, String, >,
    ) -> bool {
        match result {
            Ok(Some(row)) => {
                &&& !own.step_full(inserted, background)
                &&& !control.revoked
                &&& row == own.built
                &&& row < own.total()
            },
            Ok(None) => own.step_full(inserted, background) || (!control.revoked && own.built
                >= own.total()),
            Err(e) => {
                &&& !own.step_full(inserted, background)
                &&& control.revoked
                &&& e@ == "background_paused: ANN request revoked"@
            },
        }
    }

    /// The row to insert next, after `inserted` rows of this step. A step that
    /// is not full fails once the request was revoked, also behind the last row.
    pub fn next_row(&self, inserted: u64, background: bool, control: &Control) -> (result: Result<
        Option<u64>,
        String,
    >)
        requires
            self.phase == Phase::Build,
            self.header is Some,
        ensures
            Self::row_next(*self, inserted, background, control, result),
    {
        let limit: u64 = if background {
            1
        } else {
            CHECKPOINT_ROWS
        };
        if inserted >= limit {
            return Ok(None);
        }
        if inserted > 0 && (self.built.saturating_sub(self.committed) >= CHECKPOINT_ROWS
            || self.compute_ns >= CHECKPOINT_COMPUTE_NS) {
            return Ok(None);
        }
        match control.check() {
            Ok(_) => {},
            Err(e) => {
                return Err(e);
            },
        }
        let total: u64 = self.header.as_ref().unwrap().row_count;
        if self.built >= total {
            return Ok(None);
        }
        Ok(Some(self.built))
    }

    /// The row that was asked for is in the graph.
    pub fn row_inserted(&mut self, elapsed_ns: u64, cpu_ns: u64, reply: &mut AnnReply)
        requires
            old(self).phase == Phase::Build,
            old(self).header is Some,
            old(self).built < old(self).total(),
        ensures
            *final(self) == (Session {
                built: (old(self).built + 1) as u64,
                compute_ns: final(self).compute_ns,
                ..*old(self)
            }),
            final(self).compute_ns == ann_sidecar::capped(
                old(self).compute_ns as int,
                elapsed_ns as int,
            ),
            *final(reply) == (AnnReply { samples: final(reply).samples, ..*old(reply) }),
            ({
                let kept = if old(reply).samples@.len() == 64 {
                    old(reply).samples@.skip(1)
                } else {
                    old(reply).samples@
                };
                &&& final(reply).samples@.drop_last() == kept
                &&& final(reply).samples@.len() == kept.len() + 1
                &&& final(reply).samples@.last().operation@ == "ann_insert"@
                &&& final(reply).samples@.last().elapsed_ns == if elapsed_ns < 1000 {
                    1000
                } else {
                    elapsed_ns
                }
                &&& final(reply).samples@.last().cpu_ns == cpu_ns
            }),
    {
        self.built = self.built + 1;
        self.compute_ns = self.compute_ns.saturating_add(elapsed_ns);
        if reply.samples.len() == 64 {
            reply.samples.remove(0);
            assert(reply.samples@ =~= old(reply).samples@.skip(1));
        }
        let ghost kept = reply.samples@;
        reply.samples.push(
            AnnCost {
                operation: "ann_insert".to_owned(),
                elapsed_ns: at_least_a_microsecond(elapsed_ns),
                cpu_ns,
            },
        );
        assert(reply.samples@.drop_last() =~= kept);
    }

    /// What follows the rows of a step.
    pub open spec fn step_over(before: Self, after: Self) -> bool {
        after == (Session {
            phase: if before.checkpoint_due() {
                Phase::Serialize
            } else {
                Phase::Build
            },
            ..before
        })
    }

    /// No further row is inserted in this step.
    pub fn build_paused(&mut self)
        requires
            old(self).phase == Phase::Build,
            old(self).header is Some,
        ensures
            Self::step_over(*old(self), *final(self)),
    {
        let total: u64 = self.header.as_ref().unwrap().row_count;
        if self.built >= total || self.built.saturating_sub(self.committed) >= CHECKPOINT_ROWS
            || self.compute_ns >= CHECKPOINT_COMPUTE_NS {
            self.phase = Phase::Serialize;
        }
    }

    /// Whether the graph may be written out now.
    pub open spec fn serialization_allowed(
        own: Self,
        size: u64,
        background: bool,
        result: Result<(), String>,
    ) -> bool {
        match result {
            Ok(_) => !(background && size > BACKGROUND_BYTES),
            Err(e) => background && size > BACKGROUND_BYTES && e@
                == "background_paused: ANN graph exceeds B limit"@,
        }
    }

    /// A graph of `size` bytes may be serialized now.
    pub fn serialize_allowed(&self, size: u64, background: bool) -> (result: Result<(), String>)
        ensures
            Self::serialization_allowed(*self, size, background, result),
    {
        if background && size > BACKGROUND_BYTES {
            Err("background_paused: ANN graph exceeds B limit".to_owned())
        } else {
            Ok(())
        }
    }

    /// The extension of the scratch file for the rows built so far.
    pub fn scratch_extension(&self) -> (result: String)
        ensures
            result@ == "checkpoint-"@ + text::decimal(self.built as nat) + ".partial"@,
    {
        text::join3("checkpoint-", &text::decimal_string(self.built), ".partial")
    }

    /// The graph was serialized, and the scratch file at `path` is empty.
    pub fn serialized(&mut self, graph: Vec<u8>, path: String)
        requires
            old(self).phase == Phase::Serialize,
        ensures
            *final(self) == (Session {
                graph_bytes: graph,
                output: Some(path),
                cursor: 0,
                phase: Phase::Write,
                ..*old(self)
            }),
    {
        self.graph_bytes = graph;
        self.output = Some(path);
        self.cursor = 0;
        self.phase = Phase::Write;
    }

    /// The end of the chunk that is written next.
    pub open spec fn chunk_end(&self) -> int {
        if self.cursor + IO_CHUNK < self.graph_bytes@.len() {
            self.cursor + IO_CHUNK
        } else {
            self.graph_bytes@.len() as int
        }
    }

    /// The chunk that is written next.
    pub fn next_chunk(&self) -> (result: &[u8])
        requires
            self.phase == Phase::Write,
            self.cursor <= self.graph_bytes@.len(),
        ensures
            result@ == self.graph_bytes@.subrange(self.cursor as int, self.chunk_end()),
    {
        let end: usize = if self.graph_bytes.len() - self.cursor > IO_CHUNK {
            self.cursor + IO_CHUNK
        } else {
            self.graph_bytes.len()
        };
        vstd::slice::slice_subrange(self.graph_bytes.as_slice(), self.cursor, end)
    }

    /// The chunk that is written next is the last one.
    pub open spec fn at_last_chunk(&self) -> bool {
        self.chunk_end() == self.graph_bytes@.len()
    }

    /// The chunk that is written next is the last one: behind it, the file is
    /// synced.
    pub fn writes_last_chunk(&self) -> (result: bool)
        requires
            self.cursor <= self.graph_bytes@.len(),
        ensures
            result == self.at_last_chunk(),
    {
        self.graph_bytes.len() - self.cursor <= IO_CHUNK
    }

    /// The last chunk was written, but the file could not be synced: the next
    /// step writes nothing more and tries again.
    pub fn sync_failed(&mut self)
        requires
            old(self).phase == Phase::Write,
            old(self).cursor <= old(self).graph_bytes@.len(),
            old(self).at_last_chunk(),
        ensures
            *final(self) == (Session { cursor: old(self).graph_bytes@.len() as usize, ..*old(self) }),
    {
        self.cursor = self.graph_bytes.len();
    }

    /// What follows a piece of the graph that was written.
    pub open spec fn piece_written(before: Self, after: Self) -> bool {
        if before.at_last_chunk() {
            &&& after == (Session {
                read_path: after.read_path,
                read_bytes: after.read_bytes,
                expected_checksum: after.expected_checksum,
                graph_bytes: after.graph_bytes,
                cursor: before.chunk_end() as usize,
                phase: Phase::ReadBack,
                ..before
            })
            &&& said(after.read_path) == said(before.output)
            &&& after.read_bytes@.len() == 0
            &&& after.checksum_holds(before.graph_bytes@)
            &&& after.graph_bytes@.len() == 0
        } else {
            after == (Session {
                cursor: before.chunk_end() as usize,
                ..before
            })
        }
    }

    /// The chunk was written; behind the last one the file was synced.
    pub fn chunk_written(&mut self)
        requires
            old(self).phase == Phase::Write,
            old(self).output is Some,
            old(self).cursor <= old(self).graph_bytes@.len(),
        ensures
            Self::piece_written(*old(self), *final(self)),
    {
        let end: usize = if self.graph_bytes.len() - self.cursor > IO_CHUNK {
            self.cursor + IO_CHUNK
        } else {
            self.graph_bytes.len()
        };
        self.cursor = end;
        if end == self.graph_bytes.len() {
            let path = self.output.as_ref().unwrap().clone();
            self.read_path = Some(path);
            self.read_bytes = Vec::new();
            self.expected_checksum = Some(digest::sha256_hex(&self.graph_bytes));
            self.graph_bytes = Vec::new();
            self.phase = Phase::ReadBack;
        }
    }

    /// The rows that are probed in a restored checkpoint: both ends.
    pub open spec fn probe_rows(&self) -> Seq<u64> {
        if self.built == 0 {
            Seq::empty()
        } else {
            seq![0u64, (self.built - 1) as u64]
        }
    }

    /// The rows that are probed in a restored checkpoint.
    pub fn probes(&self) -> (result: Vec<u64>)
        ensures
            result@ == self.probe_rows(),
    {
        let mut rows: Vec<u64> = Vec::new();
        if self.built > 0 {
            rows.push(0);
            rows.push(self.built - 1);
        }
        assert(rows@ =~= self.probe_rows());
        rows
    }

    /// Every probe succeeded: the checkpoint is offered and committed.
    pub fn validated(&mut self, reply: &mut AnnReply)
        requires
            old(self).phase == Phase::Validate,
            old(self).output is Some,
        ensures
            *final(self) == (Session {
                committed: old(self).built,
                compute_ns: 0,
                output: None,
                phase: Phase::Build,
                ..*old(self)
            }),
            *final(reply) == (AnnReply {
                checkpoint: old(self).output,
                checksum: final(reply).checksum,
                ..*old(reply)
            }),
            said(final(reply).checksum) == said(old(self).expected_checksum),
    {
        let output = self.output.take();
        reply.checkpoint = output;
        reply.checksum = match &self.expected_checksum {
            Some(checksum) => Some(checksum.clone()),
            None => None,
        };
        self.committed = self.built;
        self.compute_ns = 0;
        self.phase = Phase::Build;
    }

    /// A row of an input that was read into memory, as bit patterns.
    pub fn vector(&self, ordinal: usize) -> (result: Result<Vec<u32>, String>)
        requires
            !self.mapped,
            self.header is Some ==> ann_format::decoded(self.flat_bytes@) == Ok::<
                HeaderModel,
                Seq<char>,
            >(self.header->0@),
        ensures
            match result {
                Ok(vector) => {
                    &&& self.header is Some
                    &&& ordinal < self.total()
                    &&& vector@ == ann_sidecar::words(
                        ann_sidecar::vector_bytes_of(
                            self.flat_bytes@,
                            self.header->0@,
                            ordinal as nat,
                        ),
                    )
                },
                Err(e) => if self.header is None {
                    e@ == "ANN flat header missing"@
                } else {
                    ordinal >= self.total() && e@ == "ANN ordinal outside frozen input"@
                },
            },
    {
        let header = match &self.header {
            Some(header) => header,
            None => {
                return Err("ANN flat header missing".to_owned());
            },
        };
        if ordinal >= header.row_count as usize {
            return Err("ANN ordinal outside frozen input".to_owned());
        }
        Ok(ann_sidecar::row_words(&self.flat_bytes, header, ordinal))
    }

    /// Closes a step: what it cost, without what was already put down for
    /// checksums, and where the session stands.
    pub fn report(
        &self,
        phase: Phase,
        elapsed_ns: u64,
        cpu_ns: u64,
        graph_bytes: u64,
        reply: &mut AnnReply,
    )
        ensures
            final(reply).built == self.built,
            final(reply).graph_bytes == graph_bytes,
            final(reply).phase@ == self.phase.class(),
            final(reply).request_id == old(reply).request_id,
            final(reply).checkpoint == old(reply).checkpoint,
            final(reply).checksum == old(reply).checksum,
            final(reply).error == old(reply).error,
            if phase == Phase::Build {
                final(reply).samples == old(reply).samples
            } else {
                let spent = checksum_totals(old(reply).samples@);
                let left = minus(elapsed_ns as int, spent.0);
                &&& final(reply).samples@.len() == old(reply).samples@.len() + 1
                &&& final(reply).samples@.drop_last() == old(reply).samples@
                &&& final(reply).samples@.last().operation@ == phase.class()
                &&& final(reply).samples@.last().elapsed_ns == if left < 1000 {
                    1000
                } else {
                    left
                }
                &&& final(reply).samples@.last().cpu_ns == minus(cpu_ns as int, spent.1)
            },
    {
        if phase != Phase::Build {
            let spent = checksum_costs(&reply.samples);
            let left: u64 = minus_capped(elapsed_ns, spent.0);
            let left_cpu: u64 = minus_capped(cpu_ns, spent.1);
            reply.samples.push(
                AnnCost {
                    operation: phase.operation().to_owned(),
                    elapsed_ns: at_least_a_microsecond(left),
                    cpu_ns: left_cpu,
                },
            );
            assert(reply.samples@.drop_last() =~= old(reply).samples@);
        }
        reply.built = self.built;
        reply.graph_bytes = graph_bytes;
        reply.phase = self.phase.operation().to_owned();
    }
}

fn at_least_a_microsecond(ns: u64) -> (result: u64)
    ensures
        result == if ns < 1000 {
            1000
        } else {
            ns
        },
{
    if ns < 1000 {
        1000
    } else {
        ns
    }
}

fn minus_capped(a: u64, b: u128) -> (result: u64)
    ensures
        result == minus(a as int, b as int),
{
    if a as u128 > b {
        (a as u128 - b) as u64
    } else {
        0
    }
}

/// The elapsed and the processor time of the checksums among the samples.
pub open spec fn checksum_totals(samples: Seq<AnnCost>) -> (int, int)
    decreases samples.len(),
{
    if samples.len() == 0 {
        (0, 0)
    } else {
        let rest = checksum_totals(samples.drop_last());
        let last = samples.last();
        if last.operation@ == "ann_checksum"@ {
            (rest.0 + last.elapsed_ns, rest.1 + last.cpu_ns)
        } else {
            rest
        }
    }
}

fn checksum_costs(samples: &Vec<AnnCost>) -> (result: (u128, u128))
    ensures
        result.0 == checksum_totals(samples@).0,
        result.1 == checksum_totals(samples@).1,
{
    let count: usize = samples.len();
    let mut elapsed: u128 = 0;
    let mut cpu: u128 = 0;
    let mut i: usize = 0;
    assert(samples@.take(0) =~= Seq::<AnnCost>::empty());
    while i < count
        invariant
            i <= count == samples@.len(),
            elapsed == checksum_totals(samples@.take(i as int)).0,
            cpu == checksum_totals(samples@.take(i as int)).1,
            elapsed <= i * u64::MAX,
            cpu <= i * u64::MAX,
        decreases samples@.len() - i,
    {
        assert(samples@.take(i + 1).drop_last() =~= samples@.take(i as int));
        assert((i + 1) * u64::MAX == i * u64::MAX + u64::MAX) by (nonlinear_arith);
        assert(i * u64::MAX <= usize::MAX * u64::MAX) by (nonlinear_arith)
            requires
                i <= usize::MAX,
        ;
        if text::same(&samples[i].operation, "ann_checksum") {
            elapsed = elapsed + samples[i].elapsed_ns as u128;
            cpu = cpu + samples[i].cpu_ns as u128;
        }
        i = i + 1;
    }
    assert(samples@.take(samples@.len() as int) =~= samples@);
    (elapsed, cpu)
}

/// Puts down what holding a checkpoint against its checksum cost.
pub fn note_checksum(elapsed_ns: u64, cpu_ns: u64, reply: &mut AnnReply)
    ensures
        final(reply).samples@.len() == old(reply).samples@.len() + 1,
        final(reply).samples@.drop_last() == old(reply).samples@,
        final(reply).samples@.last().operation@ == "ann_checksum"@,
        final(reply).samples@.last().elapsed_ns == if elapsed_ns < 1000 {
            1000
        } else {
            elapsed_ns
        },
        final(reply).samples@.last().cpu_ns == cpu_ns,
        *final(reply) == (AnnReply { samples: final(reply).samples, ..*old(reply) }),
{
    reply.samples.push(
        AnnCost {
            operation: "ann_checksum".to_owned(),
            elapsed_ns: at_least_a_microsecond(elapsed_ns),
            cpu_ns,
        },
    );
    assert(reply.samples@.drop_last() =~= old(reply).samples@);
}

/// What is read back of a checkpoint has the digest of what was serialized.
pub proof fn law_read_back_matches(session: Session, serialized: Seq<u8>, read_back: Seq<u8>)
    requires
        session.checksum_holds(serialized),
        session.checksum_holds(read_back),
    ensures
        digest::sha256_of(serialized) == digest::sha256_of(read_back),
{
    digest::law_hex_tells_apart(digest::sha256_of(serialized), digest::sha256_of(read_back));
}

/// How a request is taken up.
#[derive(Debug)]
pub enum Dispatch {
    /// A session is opened with these arguments.
    Open {
        flat: String,
        checkpoint: Option<String>,
        checksum: Option<String>,
        checkpoint_rows: u64,
    },
    /// The open session takes a step.
    Step { background: bool },
    /// The request is answered with an error.
    Refuse { error: String },
}

/// Takes up a request, given whether a session is open. A cancellation is
/// handled by [`Control::cancel`] and never gets here.
pub fn dispatch(request: AnnRequest, session_open: bool) -> (result: Dispatch)
    requires
        !(request is Cancel),
    ensures
        match request {
            AnnRequest::Open { protocol, flat, checkpoint, checksum, checkpoint_rows, .. } => if protocol
                == ANN_WORKER_PROTOCOL {
                result == (Dispatch::Open { flat, checkpoint, checksum, checkpoint_rows })
            } else {
                result is Refuse && result->error@ == "ANN worker protocol mismatch"@
            },
            AnnRequest::Step { background, .. } => if session_open {
                result == (Dispatch::Step { background })
            } else {
                result is Refuse && result->error@ == "ANN session not initialized"@
            },
            AnnRequest::Cancel { .. } => true,
        },
{
    match request {
        AnnRequest::Open { protocol, flat, checkpoint, checksum, checkpoint_rows, .. } => {
            if protocol != ANN_WORKER_PROTOCOL {
                Dispatch::Refuse { error: "ANN worker protocol mismatch".to_owned() }
            } else {
                Dispatch::Open { flat, checkpoint, checksum, checkpoint_rows }
            }
        },
        AnnRequest::Step { background, .. } => {
            if session_open {
                Dispatch::Step { background }
            } else {
                Dispatch::Refuse { error: "ANN session not initialized".to_owned() }
            }
        },
        AnnRequest::Cancel { .. } => Dispatch::Refuse { error: String::new() },
    }
}

/// Cancelling a request stops that request only, and it stays stopped.
pub proof fn law_only_the_request_under_way_is_cancelled(before: Control, after: Control, id: u64)
    requires
        Control::cancelled(before, after, id),
    ensures
        id == before.active ==> after.revoked,
        id != before.active ==> after.revoked == before.revoked,
        before.revoked ==> after.revoked,
        after.active == before.active,
{
}

/// Rows are inserted in their order, each once: the next is the first that is
/// not in the graph yet. Beside the user a step takes one row, else five
/// thousand at most, and none after its lease was revoked.
pub proof fn law_rows_are_inserted_in_order(
    session: Session,
    inserted: u64,
    background: bool,
    control: &Control,
    result: Result<Option<u64>, String>,
)
    requires
        Session::row_next(session, inserted, background, control, result),
        session.header is Some,
    ensures
        result matches Ok(Some(row)) ==> row == session.built && row
            < session.header->0.row_count && !control.revoked,
        background && inserted >= 1 ==> result == Ok::<Option<u64>, String>(None),
        inserted >= 5000 ==> result == Ok::<Option<u64>, String>(None),
        inserted == 0 && !control.revoked && session.built < session.header->0.row_count ==> result
            == Ok::<Option<u64>, String>(Some(session.built)),
        inserted == 0 && control.revoked ==> result is Err,
{
}

/// A checkpoint is made when all rows are in the graph, five thousand are since
/// the last one, or half a minute was spent on them; otherwise inserting goes
/// on.
pub proof fn law_checkpoints_are_made_in_time(before: Session, after: Session)
    requires
        Session::step_over(before, after),
        before.header is Some,
        before.phase == Phase::Build,
        before.committed <= before.built,
    ensures
        after.phase == Phase::Serialize <==> before.built >= before.header->0.row_count
            || before.built - before.committed >= 5000 || before.compute_ns >= 30_000_000_000,
        after.phase == Phase::Serialize || after.phase == Phase::Build,
        after.built == before.built,
{
}

/// A checkpoint is used only if its bytes have the checksum that was told, and
/// only if the graph in it has the rows, the width and the form that are asked
/// for.
pub proof fn law_checkpoints_are_held_to_their_checksum(
    first: Session,
    second: Session,
    third: Session,
    chunk: &[u8],
    length: u64,
    read: Result<(), String>,
    facts: GraphFacts,
    restored: Result<(), String>,
)
    requires
        first.phase == Phase::ReadCheckpoint,
        first.header is Some,
        Session::chunk_read(first, second, chunk, length, read),
        second.phase == Phase::Restore,
        Session::graph_restored(second, third, facts, restored),
        third.phase == Phase::Build,
    ensures
        (first.read_bytes@ + chunk@).len() == length,
        first.expected_checksum is Some,
        digest::hex_text(digest::sha256_of(first.read_bytes@ + chunk@))
            == first.expected_checksum->0@,
        facts.size == first.built,
        facts.dimensions == first.header->0.dimensions,
        facts.connectivity == first.header->0.connectivity,
        facts.inner_product && facts.eight_bit,
{
}

/// A graph is written in pieces of a quarter of a mebibyte, one after another,
/// until all of it is; then it is read back, and has to have the checksum of
/// what was written.
pub proof fn law_graphs_are_written_in_full(before: Session, after: Session)
    requires
        Session::piece_written(before, after),
        before.cursor <= before.graph_bytes@.len() <= usize::MAX,
    ensures
        before.cursor <= after.cursor <= before.cursor + 262_144,
        before.graph_bytes@.len() - before.cursor <= 262_144 ==> after.phase == Phase::ReadBack
            && after.expected_checksum is Some && after.expected_checksum->0@ == digest::hex_text(
            digest::sha256_of(before.graph_bytes@),
        ),
        before.graph_bytes@.len() - before.cursor > 262_144 ==> after.cursor == before.cursor
            + 262_144 && after.phase == before.phase && after.graph_bytes == before.graph_bytes,
{
}

/// Beside the user nothing above sixty-four mebibytes is read or written.
pub proof fn law_large_graphs_wait_for_an_idle_machine(
    session: Session,
    size: u64,
    background: bool,
    plan: Result<FlatPlan, String>,
    allowed: Result<(), String>,
)
    requires
        Session::flat_planned(session, size, background, plan),
        Session::serialization_allowed(session, size, background, allowed),
    ensures
        size > 64 * 1024 * 1024 && background <==> plan is Err,
        size > 64 * 1024 * 1024 && background <==> allowed is Err,
        size <= 64 * 1024 * 1024 ==> plan == Ok::<FlatPlan, String>(FlatPlan::Chunks),
        size > 64 * 1024 * 1024 && !background ==> plan == Ok::<FlatPlan, String>(
            FlatPlan::Mapped,
        ),
{
}

/// The first and the last row of the graph are looked for again.
pub proof fn law_both_ends_are_probed(session: Session)
    ensures
        session.built > 0 ==> session.probe_rows().contains(0) && session.probe_rows().contains(
            (session.built - 1) as u64,
        ),
        session.built == 0 ==> session.probe_rows().len() == 0,
{
    if session.built > 0 {
        assert(session.probe_rows()[0] == 0);
        assert(session.probe_rows()[1] == session.built - 1);
    }
}

} // verus!
