//! Admission and cost history for resumable automatic work.
//!
//! Clock values are given by the caller, in milliseconds. Load and latency
//! readings are floating-point numbers given by their bit patterns.
use crate::names::Tally;
use crate::{ieee, order, text};
use vstd::prelude::*;
use vstd::string::*;

verus! {

pub const SHORT_IDLE_SECS: u64 = 60;

pub const CPU_RATE_PERCENT: u32 = 5;

pub const SAMPLE_LIMIT: usize = 64;

pub const MIN_SAMPLES: usize = 20;

pub const MIN_COLD_SAMPLES: usize = 3;

/// The bits of 500.0.
pub const UNIT_P95_MS: u64 = 0x407F_4000_0000_0000;

/// The bits of 1000.0.
pub const COLD_P95_MS: u64 = 0x408F_4000_0000_0000;

/// 0.8 GiB, rounded up.
pub const MEMORY_RESERVE_BYTES: u64 = 858_993_460;

pub const SMALL_ANN_ROWS: u64 = 20_000;

pub const SMALL_ANN_BYTES: u64 = 67_108_864;

pub const IO_CHUNK_BYTES: usize = 262_144;

pub const IO_BYTES_PER_SECOND: u64 = 2_097_152;

/// The most operations that a book keeps apart.
pub const HISTORY_LIMIT: usize = 512;

/// What an optional reason says.
pub open spec fn shown(reason: Option<&'static str>) -> Option<Seq<char>> {
    match reason {
        Some(s) => Some(s@),
        None => None,
    }
}

#[derive(Debug, Clone, Copy, PartialEq, Eq, Structural)]
pub enum SchedulingMode {
    Auto,
    IdleOnly,
}

impl Default for SchedulingMode {
    fn default() -> (result: Self)
        ensures
            result == SchedulingMode::Auto,
    {
        SchedulingMode::Auto
    }
}

impl SchedulingMode {
    /// The mode with this configured name.
    pub fn parse(value: &str) -> (result: Result<Self, String>)
        ensures
            match result {
                Ok(SchedulingMode::Auto) => value@ == "auto"@,
                Ok(SchedulingMode::IdleOnly) => value@ == "idle_only"@,
                Err(e) => {
                    &&& value@ != "auto"@
                    &&& value@ != "idle_only"@
                    &&& e@ == "background_scheduling_mode must be auto or idle_only"@
                },
            },
    {
        if text::same(value, "auto") {
            Ok(SchedulingMode::Auto)
        } else if text::same(value, "idle_only") {
            Ok(SchedulingMode::IdleOnly)
        } else {
            Err("background_scheduling_mode must be auto or idle_only".to_owned())
        }
    }
}

#[derive(Debug, Clone, Copy, PartialEq, Eq, Structural)]
pub enum ExecutionProfile {
    Paused,
    Idle,
    Background,
    Manual,
}

impl Default for ExecutionProfile {
    fn default() -> (result: Self)
        ensures
            result == ExecutionProfile::Paused,
    {
        ExecutionProfile::Paused
    }
}

/// The machine that costs were measured on.
#[derive(Debug, Clone)]
pub struct ExecutionEnvironment {
    pub logical_cores: usize,
    pub physical_memory_bytes: u64,
    pub runtime: String,
}

impl ExecutionEnvironment {
    /// The same machine and runtime.
    pub open spec fn alike(&self, other: Self) -> bool {
        &&& self.logical_cores == other.logical_cores
        &&& self.physical_memory_bytes == other.physical_memory_bytes
        &&& self.runtime@ == other.runtime@
    }

    fn same_as(&self, other: &Self) -> (result: bool)
        ensures
            result == self.alike(*other),
    {
        self.logical_cores == other.logical_cores && self.physical_memory_bytes
            == other.physical_memory_bytes && self.runtime == other.runtime
    }
}

/// The smallest of `p`, `2p`, `4p`, ... that is not below `n`.
pub open spec fn doubled_to(p: nat, n: nat) -> nat
    decreases
            if p < n {
                n - p
            } else {
                0
            },
{
    if p >= n || p == 0 {
        p
    } else {
        doubled_to(2 * p, n)
    }
}

/// The size class of an input: the next power of two, or the largest number
/// where that does not fit.
pub open spec fn bucket(size: u64) -> u64 {
    let power = doubled_to(1, size as nat);
    if power <= u64::MAX {
        power as u64
    } else {
        u64::MAX
    }
}

proof fn lemma_doubled_above(p: nat, n: nat)
    requires
        p > 0,
    ensures
        doubled_to(p, n) >= n,
        doubled_to(p, n) >= p,
    decreases
            if p < n {
                n - p
            } else {
                0
            },
{
    if p < n {
        lemma_doubled_above(2 * p, n);
    }
}

fn bucket_for(size: u64) -> (result: u64)
    ensures
        result == bucket(size),
{
    let mut power: u64 = 1;
    while power < size
        invariant
            power > 0,
            doubled_to(power as nat, size as nat) == doubled_to(1, size as nat),
        decreases
                if power < size {
                    size - power
                } else {
                    0
                },
    {
        if power > u64::MAX / 2 {
            proof {
                assert(doubled_to(power as nat, size as nat) == doubled_to(
                    2 * power as nat,
                    size as nat,
                ));
                lemma_doubled_above(2 * power as nat, size as nat);
            }
            return u64::MAX;
        }
        power = power * 2;
    }
    power
}

/// The identity of an operation whose cost is measured. The size class is part
/// of it: a small input never qualifies a large one.
#[derive(Debug, Clone)]
pub struct CostKey {
    pub task: String,
    pub operation: String,
    pub model: String,
    pub input_bucket: u64,
    pub parameters: String,
}

/// What a key says.
pub struct KeyModel {
    pub task: Seq<char>,
    pub operation: Seq<char>,
    pub model: Seq<char>,
    pub input_bucket: u64,
    pub parameters: Seq<char>,
}

impl View for CostKey {
    type V = KeyModel;

    open spec fn view(&self) -> KeyModel {
        KeyModel {
            task: self.task@,
            operation: self.operation@,
            model: self.model@,
            input_bucket: self.input_bucket,
            parameters: self.parameters@,
        }
    }
}

impl CostKey {
    /// The key of an operation on an input of `size`.
    pub fn new(task: &str, operation: &str, model: &str, size: u64, parameters: &str) -> (result:
        Self)
        ensures
            result@ == (KeyModel {
                task: task@,
                operation: operation@,
                model: model@,
                input_bucket: bucket(size),
                parameters: parameters@,
            }),
    {
        CostKey {
            task: task.to_owned(),
            operation: operation.to_owned(),
            model: model.to_owned(),
            input_bucket: bucket_for(size),
            parameters: parameters.to_owned(),
        }
    }

    /// The key of loading the model of this operation.
    pub fn cold(&self) -> (result: Self)
        ensures
            result@ == (KeyModel { operation: "cold_load"@, input_bucket: 1, ..self@ }),
    {
        CostKey {
            task: self.task.clone(),
            operation: "cold_load".to_owned(),
            model: self.model.clone(),
            input_bucket: 1,
            parameters: self.parameters.clone(),
        }
    }

    fn same_as(&self, other: &Self) -> (result: bool)
        ensures
            result == (self@ == other@),
    {
        self.task == other.task && self.operation == other.operation && self.model == other.model
            && self.input_bucket == other.input_bucket && self.parameters == other.parameters
    }

    fn copy(&self) -> (result: Self)
        ensures
            result@ == self@,
    {
        CostKey {
            task: self.task.clone(),
            operation: self.operation.clone(),
            model: self.model.clone(),
            input_bucket: self.input_bucket,
            parameters: self.parameters.clone(),
        }
    }
}

/// One measurement. The times are bit patterns and leave out queueing and
/// voluntary rests.
#[derive(Debug, Clone, Copy, PartialEq, Eq, Structural)]
pub struct CostSample {
    pub elapsed_ms: u64,
    pub cpu_ms: u64,
    pub peak_private_bytes: u64,
    pub additional_peak_bytes: u64,
    pub cpu_rate_percent: u32,
}

impl CostSample {
    /// The measurement can be believed.
    pub open spec fn sound(&self) -> bool {
        &&& ieee::is_positive(self.elapsed_ms)
        &&& ieee::is_non_negative(self.cpu_ms)
        &&& self.peak_private_bytes > 0
    }

    fn valid(&self) -> (result: bool)
        ensures
            result == self.sound(),
    {
        0 < self.elapsed_ms && self.elapsed_ms < 0x7FF0_0000_0000_0000 && ieee::non_negative(
            self.cpu_ms,
        ) && self.peak_private_bytes > 0
    }
}

/// The measurements of one operation.
#[derive(Debug, Clone)]
pub struct CostHistory {
    pub samples: Vec<CostSample>,
    pub revoked: bool,
    pub revocations: u64,
    /// An unrestricted result is kept for diagnosis and never qualifies.
    pub last_unrestricted: Option<CostSample>,
}

/// What a history says.
pub struct HistoryModel {
    pub samples: Seq<CostSample>,
    pub revoked: bool,
    pub revocations: u64,
    pub last_unrestricted: Option<CostSample>,
}

impl View for CostHistory {
    type V = HistoryModel;

    open spec fn view(&self) -> HistoryModel {
        HistoryModel {
            samples: self.samples@,
            revoked: self.revoked,
            revocations: self.revocations,
            last_unrestricted: self.last_unrestricted,
        }
    }
}

impl Default for CostHistory {
    fn default() -> (result: Self)
        ensures
            result@ == fresh_history(),
    {
        CostHistory {
            samples: Vec::new(),
            revoked: false,
            revocations: 0,
            last_unrestricted: None,
        }
    }
}

/// A history without measurements.
pub open spec fn fresh_history() -> HistoryModel {
    HistoryModel {
        samples: Seq::empty(),
        revoked: false,
        revocations: 0,
        last_unrestricted: None,
    }
}

/// The elapsed times of the measurements.
pub open spec fn times(samples: Seq<CostSample>) -> Seq<u64> {
    samples.map_values(|s: CostSample| s.elapsed_ms)
}

/// The position of the 95th percentile among `n` ascending values.
pub open spec fn p95_index(n: int) -> int {
    (95 * n + 99) / 100 - 1
}

/// The 95th percentile of the elapsed times.
pub open spec fn p95_of(samples: Seq<CostSample>) -> Option<u64> {
    if samples.len() == 0 {
        None
    } else {
        Some(order::ascending(times(samples))[p95_index(samples.len() as int)])
    }
}

/// The largest value of a measure over the measurements, or zero.
pub open spec fn largest(values: Seq<u64>) -> u64
    decreases values.len(),
{
    if values.len() == 0 {
        0
    } else {
        let rest = largest(values.drop_last());
        if values.last() > rest {
            values.last()
        } else {
            rest
        }
    }
}

/// The additional memory peaks of the measurements.
pub open spec fn extra_peaks(samples: Seq<CostSample>) -> Seq<u64> {
    samples.map_values(|s: CostSample| s.additional_peak_bytes)
}

/// The memory peaks of the measurements.
pub open spec fn peaks(samples: Seq<CostSample>) -> Seq<u64> {
    samples.map_values(|s: CostSample| s.peak_private_bytes)
}

/// How many measurements qualify an operation.
pub open spec fn enough(cold: bool) -> int {
    if cold {
        3
    } else {
        20
    }
}

/// The time that an operation may take, as bits.
pub open spec fn time_limit(cold: bool) -> u64 {
    if cold {
        COLD_P95_MS
    } else {
        UNIT_P95_MS
    }
}

impl HistoryModel {
    /// The operation may run beside the user.
    pub open spec fn qualifies(self, cold: bool) -> bool {
        &&& !self.revoked
        &&& self.samples.len() >= enough(cold)
        &&& match p95_of(self.samples) {
            Some(p95) => p95 <= time_limit(cold),
            None => false,
        }
    }

    /// The measurement took more than the limit and more than twice what was
    /// usual. Doubling a number adds one to its exponent field.
    pub open spec fn overrun(self, cold: bool, sample: CostSample) -> bool {
        let usual = match p95_of(self.samples) {
            Some(p95) => p95,
            None => time_limit(cold),
        };
        sample.elapsed_ms > time_limit(cold) && sample.elapsed_ms > usual + 0x10_0000_0000_0000
    }

    /// The history after a sound measurement.
    pub open spec fn after(
        self,
        cold: bool,
        sample: CostSample,
        profile: ExecutionProfile,
    ) -> HistoryModel {
        if sample.cpu_rate_percent != CPU_RATE_PERCENT || profile == ExecutionProfile::Manual {
            HistoryModel { last_unrestricted: Some(sample), ..self }
        } else if profile == ExecutionProfile::Background && self.overrun(cold, sample) {
            self.dropped()
        } else if self.revoked && profile != ExecutionProfile::Idle {
            self
        } else {
            let added = self.samples.push(sample);
            let kept = if added.len() > 64 {
                added.skip(added.len() - 64)
            } else {
                added
            };
            HistoryModel {
                samples: kept,
                revoked: self.revoked && !(profile == ExecutionProfile::Idle && kept.len()
                    >= enough(cold)),
                ..self
            }
        }
    }

    /// The history after its qualification was taken away.
    pub open spec fn dropped(self) -> HistoryModel {
        HistoryModel {
            samples: Seq::empty(),
            revoked: true,
            revocations: (self.revocations + 1) as u64,
            ..self
        }
    }
}

fn p95_position(n: usize) -> (result: usize)
    requires
        0 < n <= 1_000_000,
    ensures
        result == p95_index(n as int),
        result < n,
{
    (95 * n + 99) / 100 - 1
}

impl CostHistory {
    /// No more measurements than are kept.
    pub open spec fn bounded(&self) -> bool {
        self.samples@.len() <= SAMPLE_LIMIT
    }

    fn p95_ms(&self) -> (result: Option<u64>)
        requires
            self.bounded(),
        ensures
            result == p95_of(self@.samples),
    {
        if self.samples.len() == 0 {
            return None;
        }
        let mut values: Vec<u64> = Vec::new();
        let mut i: usize = 0;
        while i < self.samples.len()
            invariant
                i <= self.samples@.len(),
                values@ =~= times(self.samples@).take(i as int),
            decreases self.samples@.len() - i,
        {
            values.push(self.samples[i].elapsed_ms);
            i = i + 1;
        }
        assert(values@ =~= times(self.samples@));
        let sorted = order::sort_ascending(&values);
        proof {
            order::law_ascending(values@);
        }
        Some(sorted[p95_position(self.samples.len())])
    }

    fn eligible(&self, cold: bool) -> (result: bool)
        requires
            self.bounded(),
        ensures
            result == self@.qualifies(cold),
    {
        let needed: usize = if cold {
            MIN_COLD_SAMPLES
        } else {
            MIN_SAMPLES
        };
        if self.revoked || self.samples.len() < needed {
            return false;
        }
        let limit: u64 = if cold {
            COLD_P95_MS
        } else {
            UNIT_P95_MS
        };
        match self.p95_ms() {
            Some(p95) => p95 <= limit,
            None => false,
        }
    }

    fn additional_peak(&self) -> (result: u64)
        ensures
            result == largest(extra_peaks(self@.samples)),
    {
        let mut most: u64 = 0;
        let mut i: usize = 0;
        let ghost values = extra_peaks(self.samples@);
        assert(values.take(0) =~= Seq::<u64>::empty());
        while i < self.samples.len()
            invariant
                i <= self.samples@.len(),
                values == extra_peaks(self.samples@),
                most == largest(values.take(i as int)),
            decreases self.samples@.len() - i,
        {
            assert(values.take(i + 1).drop_last() =~= values.take(i as int));
            if self.samples[i].additional_peak_bytes > most {
                most = self.samples[i].additional_peak_bytes;
            }
            i = i + 1;
        }
        assert(values.take(values.len() as int) =~= values);
        most
    }

    fn private_peak(&self) -> (result: u64)
        ensures
            result == largest(peaks(self@.samples)),
    {
        let mut most: u64 = 0;
        let mut i: usize = 0;
        let ghost values = peaks(self.samples@);
        assert(values.take(0) =~= Seq::<u64>::empty());
        while i < self.samples.len()
            invariant
                i <= self.samples@.len(),
                values == peaks(self.samples@),
                most == largest(values.take(i as int)),
            decreases self.samples@.len() - i,
        {
            assert(values.take(i + 1).drop_last() =~= values.take(i as int));
            if self.samples[i].peak_private_bytes > most {
                most = self.samples[i].peak_private_bytes;
            }
            i = i + 1;
        }
        assert(values.take(values.len() as int) =~= values);
        most
    }

    fn drop_qualification(&mut self)
        requires
            old(self).revocations < u64::MAX,
        ensures
            final(self)@ == old(self)@.dropped(),
    {
        self.samples = Vec::new();
        self.revoked = true;
        self.revocations = self.revocations + 1;
        assert(self.samples@ =~= Seq::<CostSample>::empty());
    }

    fn take_sample(&mut self, cold: bool, sample: CostSample, profile: ExecutionProfile)
        requires
            old(self).bounded(),
            old(self).revocations < u64::MAX,
        ensures
            final(self)@ == old(self)@.after(cold, sample, profile),
            final(self).bounded(),
    {
        if sample.cpu_rate_percent != CPU_RATE_PERCENT || profile == ExecutionProfile::Manual {
            self.last_unrestricted = Some(sample);
            return ;
        }
        let limit: u64 = if cold {
            COLD_P95_MS
        } else {
            UNIT_P95_MS
        };
        let usual: u64 = match self.p95_ms() {
            Some(p95) => p95,
            None => limit,
        };
        if profile == ExecutionProfile::Background && sample.elapsed_ms > limit
            && sample.elapsed_ms as u128 > usual as u128 + 0x10_0000_0000_0000 {
            self.drop_qualification();
            return ;
        }
        if self.revoked && profile != ExecutionProfile::Idle {
            return ;
        }
        let ghost added = self.samples@.push(sample);
        self.samples.push(sample);
        if self.samples.len() > SAMPLE_LIMIT {
            self.samples.remove(0);
            assert(self.samples@ =~= added.skip(1));
        }
        let needed: usize = if cold {
            MIN_COLD_SAMPLES
        } else {
            MIN_SAMPLES
        };
        if profile == ExecutionProfile::Idle && self.samples.len() >= needed {
            self.revoked = false;
        }
    }
}

/// How an operation stands.
#[derive(Debug)]
pub struct Qualification {
    pub key: CostKey,
    pub eligible: bool,
    pub samples: usize,
    pub p95_ms: Option<u64>,
    pub expected_additional_peak_bytes: u64,
    pub peak_private_bytes: u64,
    pub revoked: bool,
}

impl Qualification {
    /// It tells how an operation stands.
    pub open spec fn tells(&self, entry: (KeyModel, HistoryModel)) -> bool {
        &&& self.key@ == entry.0
        &&& self.eligible == entry.1.qualifies(entry.0.operation == "cold_load"@)
        &&& self.samples == entry.1.samples.len()
        &&& self.p95_ms == p95_of(entry.1.samples)
        &&& self.expected_additional_peak_bytes == largest(extra_peaks(entry.1.samples))
        &&& self.peak_private_bytes == largest(peaks(entry.1.samples))
        &&& self.revoked == entry.1.revoked
    }
}

/// They tell how every operation stands, in the order of the book.
pub open spec fn told_of(book: Seq<(KeyModel, HistoryModel)>, list: Seq<Qualification>) -> bool {
    &&& list.len() == book.len()
    &&& forall|i: int| 0 <= i < list.len() ==> (#[trigger] list[i]).tells(book[i])
}

/// The histories of every operation on one machine.
#[derive(Debug)]
pub struct PerformanceBook {
    pub environment: ExecutionEnvironment,
    pub histories: Vec<(CostKey, CostHistory)>,
}

/// What the entries of a book say.
pub open spec fn entries(histories: Seq<(CostKey, CostHistory)>) -> Seq<(KeyModel, HistoryModel)> {
    histories.map_values(|entry: (CostKey, CostHistory)| (entry.0@, entry.1@))
}

/// The first entry with this key, or the number of entries.
pub open spec fn find_key(book: Seq<(KeyModel, HistoryModel)>, key: KeyModel) -> int
    decreases book.len(),
{
    if book.len() == 0 {
        0
    } else if book[0].0 == key {
        0
    } else {
        1 + find_key(book.drop_first(), key)
    }
}

/// The history of an operation: that of the first entry with its key.
pub open spec fn history_of(book: Seq<(KeyModel, HistoryModel)>, key: KeyModel) -> Option<
    HistoryModel,
> {
    let at = find_key(book, key);
    if at < book.len() {
        Some(book[at].1)
    } else {
        None
    }
}

/// The book with an entry for the key: where it had none, the oldest entry
/// makes room for it if need be.
pub open spec fn with_entry(book: Seq<(KeyModel, HistoryModel)>, key: KeyModel) -> Seq<
    (KeyModel, HistoryModel),
> {
    if find_key(book, key) < book.len() {
        book
    } else if book.len() >= 512 {
        book.skip(1).push((key, fresh_history()))
    } else {
        book.push((key, fresh_history()))
    }
}

/// The book after a measurement.
pub open spec fn with_sample(
    book: Seq<(KeyModel, HistoryModel)>,
    key: KeyModel,
    sample: CostSample,
    profile: ExecutionProfile,
) -> Seq<(KeyModel, HistoryModel)> {
    if !sample.sound() {
        book
    } else {
        let open = with_entry(book, key);
        let at = find_key(open, key);
        open.update(at, (key, open[at].1.after(key.operation == "cold_load"@, sample, profile)))
    }
}

proof fn lemma_find(book: Seq<(KeyModel, HistoryModel)>, key: KeyModel)
    ensures
        0 <= find_key(book, key) <= book.len(),
        find_key(book, key) < book.len() ==> book[find_key(book, key)].0 == key,
        forall|i: int| 0 <= i < find_key(book, key) ==> (#[trigger] book[i]).0 != key,
    decreases book.len(),
{
    if book.len() > 0 && book[0].0 != key {
        let rest = book.drop_first();
        lemma_find(rest, key);
        assert forall|i: int| 0 <= i < find_key(book, key) implies (#[trigger] book[i]).0
            != key by {
            if i > 0 {
                assert(rest[i - 1] == book[i]);
            }
        }
    }
}

proof fn lemma_found_at(book: Seq<(KeyModel, HistoryModel)>, key: KeyModel, at: int)
    requires
        0 <= at <= book.len(),
        at < book.len() ==> book[at].0 == key,
        forall|i: int| 0 <= i < at ==> (#[trigger] book[i]).0 != key,
    ensures
        find_key(book, key) == at,
    decreases book.len(),
{
    if book.len() > 0 && at > 0 {
        let rest = book.drop_first();
        assert(book[0].0 != key);
        assert forall|i: int| 0 <= i < at - 1 implies (#[trigger] rest[i]).0 != key by {
            assert(rest[i] == book[i + 1]);
        }
        lemma_found_at(rest, key, at - 1);
    }
}

/// Once its qualification was taken away, an operation gets it back only by
/// work on an idle machine, and none of the measurements from before counts.
pub proof fn law_only_idle_work_requalifies(
    history: HistoryModel,
    cold: bool,
    sample: CostSample,
    profile: ExecutionProfile,
)
    ensures
        history.dropped().revoked,
        history.dropped().samples.len() == 0,
        history.revoked && profile != ExecutionProfile::Idle ==> history.after(
            cold,
            sample,
            profile,
        ).revoked,
        history.revoked && profile != ExecutionProfile::Idle ==> !history.after(
            cold,
            sample,
            profile,
        ).qualifies(cold),
{
}

/// What was measured of one operation says nothing of another, not even of the
/// same one on an input of another size: its history stays as it was, unless it
/// is the oldest of a full book and makes room.
pub proof fn law_measurements_do_not_transfer(
    book: Seq<(KeyModel, HistoryModel)>,
    key: KeyModel,
    sample: CostSample,
    profile: ExecutionProfile,
    other: KeyModel,
)
    requires
        other != key,
        find_key(book, key) < book.len() || book.len() < HISTORY_LIMIT || find_key(book, other) > 0,
    ensures
        history_of(with_sample(book, key, sample, profile), other) == history_of(book, other),
{
    if sample.sound() {
        let open = with_entry(book, key);
        let after = with_sample(book, key, sample, profile);
        lemma_find(book, key);
        lemma_find(book, other);
        let at = find_key(book, other);
        let known = find_key(book, key) < book.len();
        let shift = if !known && book.len() >= 512 {
            1int
        } else {
            0int
        };
        let place = if at < book.len() {
            at - shift
        } else {
            open.len() as int
        };
        lemma_find(open, key);
        let changed = find_key(open, key);
        assert(changed < open.len()) by {
            if !known {
                assert(open[open.len() - 1].0 == key);
            }
        }
        assert(after.len() == open.len());
        assert forall|i: int| 0 <= i < open.len() implies (#[trigger] after[i]).0 == open[i].0 by {
        }
        assert forall|i: int| 0 <= i < place implies (#[trigger] open[i]).0 != other by {
            if i + shift < book.len() {
                assert(open[i] == book[i + shift]);
            }
        }
        lemma_found_at(open, other, place);
        assert forall|i: int| 0 <= i < place implies (#[trigger] after[i]).0 != other by {
            assert(open[i].0 != other);
        }
        lemma_found_at(after, other, place);
    }
}

impl PerformanceBook {
    /// What the book says.
    pub open spec fn model(&self) -> Seq<(KeyModel, HistoryModel)> {
        entries(self.histories@)
    }

    /// The book keeps to its limits.
    pub open spec fn wf(&self) -> bool {
        &&& self.histories@.len() <= HISTORY_LIMIT
        &&& forall|i: int|
            0 <= i < self.histories@.len() ==> (#[trigger] self.histories@[i]).1.bounded()
    }

    /// The count of withdrawn qualifications can still grow.
    pub open spec fn countable(&self) -> bool {
        forall|i: int|
            0 <= i < self.histories@.len() ==> (#[trigger] self.histories@[i]).1.revocations
                < u64::MAX
    }

    /// A book without entries.
    pub fn new(environment: ExecutionEnvironment) -> (result: Self)
        ensures
            result.wf(),
            result.environment == environment,
            result.model() == Seq::<(KeyModel, HistoryModel)>::empty(),
    {
        let result = PerformanceBook { environment, histories: Vec::new() };
        assert(result.model() =~= Seq::<(KeyModel, HistoryModel)>::empty());
        result
    }

    /// A stored book can be taken over on this machine.
    pub open spec fn trusted_on(&self, environment: ExecutionEnvironment) -> bool {
        &&& self.environment.alike(environment)
        &&& self.wf()
        &&& forall|i: int, j: int|
            0 <= i < self.histories@.len() && 0 <= j < self.histories@[i].1.samples@.len() ==> ({
                let sample = #[trigger] self.histories@[i].1.samples@[j];
                sample.sound() && sample.cpu_rate_percent == CPU_RATE_PERCENT
            })
    }

    fn trusted(&self, environment: &ExecutionEnvironment) -> (result: bool)
        ensures
            result == self.trusted_on(*environment),
    {
        if !self.environment.same_as(environment) || self.histories.len() > HISTORY_LIMIT {
            return false;
        }
        let mut i: usize = 0;
        while i < self.histories.len()
            invariant
                i <= self.histories@.len() <= HISTORY_LIMIT,
                self.environment.alike(*environment),
                forall|k: int|
                    0 <= k < i ==> (#[trigger] self.histories@[k]).1.bounded(),
                forall|k: int, j: int|
                    0 <= k < i && 0 <= j < self.histories@[k].1.samples@.len() ==> ({
                        let sample = #[trigger] self.histories@[k].1.samples@[j];
                        sample.sound() && sample.cpu_rate_percent == CPU_RATE_PERCENT
                    }),
            decreases self.histories@.len() - i,
        {
            let history = &self.histories[i].1;
            if history.samples.len() > SAMPLE_LIMIT {
                return false;
            }
            let mut j: usize = 0;
            while j < history.samples.len()
                invariant
                    i < self.histories@.len(),
                    *history == self.histories@[i as int].1,
                    j <= history.samples@.len() <= SAMPLE_LIMIT,
                    forall|k: int|
                        0 <= k < j ==> (#[trigger] history.samples@[k]).sound()
                            && history.samples@[k].cpu_rate_percent == CPU_RATE_PERCENT,
                decreases history.samples@.len() - j,
            {
                let sample = history.samples[j];
                if !sample.valid() || sample.cpu_rate_percent != CPU_RATE_PERCENT {
                    assert(self.histories@[i as int].1.samples@[j as int] == sample);
                    return false;
                }
                j = j + 1;
            }
            i = i + 1;
        }
        true
    }

    /// Takes over a stored book, or begins a new one.
    pub fn restore(environment: ExecutionEnvironment, stored: Option<PerformanceBook>) -> (result:
        Self)
        ensures
            result.wf(),
            match stored {
                Some(book) => if book.trusted_on(environment) {
                    result == book
                } else {
                    result.environment == environment && result.model().len() == 0
                },
                None => result.environment == environment && result.model().len() == 0,
            },
    {
        match stored {
            Some(book) => {
                if book.trusted(&environment) {
                    book
                } else {
                    PerformanceBook::new(environment)
                }
            },
            None => PerformanceBook::new(environment),
        }
    }

    fn position(&self, key: &CostKey) -> (result: usize)
        ensures
            result == find_key(self.model(), key@),
            result <= self.histories@.len(),
    {
        let mut i: usize = 0;
        while i < self.histories.len()
            invariant
                i <= self.histories@.len(),
                forall|k: int| 0 <= k < i ==> (#[trigger] self.model()[k]).0 != key@,
            decreases self.histories@.len() - i,
        {
            if self.histories[i].0.same_as(key) {
                proof {
                    lemma_found_at(self.model(), key@, i as int);
                }
                return i;
            }
            i = i + 1;
        }
        proof {
            lemma_found_at(self.model(), key@, i as int);
        }
        i
    }

    /// Puts down a measurement.
    pub fn record(&mut self, key: CostKey, sample: CostSample, profile: ExecutionProfile)
        requires
            old(self).wf(),
            old(self).countable(),
        ensures
            final(self).wf(),
            final(self).environment == old(self).environment,
            final(self).model() == with_sample(old(self).model(), key@, sample, profile),
    {
        if !sample.valid() {
            return ;
        }
        let ghost before = self.model();
        let cold = text::same(&key.operation, "cold_load");
        let mut at: usize = self.position(&key);
        let ghost key_model = key@;
        if at == self.histories.len() {
            if self.histories.len() >= HISTORY_LIMIT {
                self.histories.remove(0);
                assert(self.model() =~= before.skip(1));
            }
            at = self.histories.len();
            proof {
                lemma_find(before, key_model);
                assert forall|i: int| 0 <= i < self.model().len() implies (#[trigger] self.model()[i]).0
                    != key_model by {
                    if self.model().len() < before.len() {
                        assert(self.model()[i] == before[i + 1]);
                    } else {
                        assert(self.model()[i] == before[i]);
                    }
                }
            }
            let ghost shortened = self.model();
            self.histories.push((key, CostHistory::default()));
            assert(self.model() =~= shortened.push((key_model, fresh_history())));
            assert(self.model() == with_entry(before, key_model));
            proof {
                lemma_found_at(self.model(), key_model, at as int);
            }
        } else {
            proof {
                lemma_find(before, key_model);
            }
        }
        let ghost open = self.model();
        assert(open == with_entry(before, key_model));
        assert(at == find_key(open, key_model) && at < self.histories@.len());
        assert(open[at as int].0 == key_model);
        let mut entry = self.histories.remove(at);
        entry.1.take_sample(cold, sample, profile);
        self.histories.insert(at, entry);
        proof {
            let goal = with_sample(before, key_model, sample, profile);
            assert(self.model().len() == goal.len());
            assert(self.model() =~= goal);
        }
    }

    /// Takes the qualification of an operation away.
    pub fn revoke(&mut self, key: &CostKey)
        requires
            old(self).wf(),
            old(self).countable(),
        ensures
            final(self).wf(),
            final(self).environment == old(self).environment,
            ({
                let at = find_key(old(self).model(), key@);
                final(self).model() == if at < old(self).model().len() {
                    old(self).model().update(at, (key@, old(self).model()[at].1.dropped()))
                } else {
                    old(self).model()
                }
            }),
    {
        let ghost before = self.model();
        let at: usize = self.position(key);
        proof {
            lemma_find(before, key@);
        }
        if at < self.histories.len() {
            let mut entry = self.histories.remove(at);
            entry.1.drop_qualification();
            self.histories.insert(at, entry);
            assert(self.model() =~= before.update(
                at as int,
                (key@, before[at as int].1.dropped()),
            ));
        }
    }

    /// The operation may run beside the user.
    pub fn eligible(&self, key: &CostKey) -> (result: bool)
        requires
            self.wf(),
        ensures
            result == match history_of(self.model(), key@) {
                Some(history) => history.qualifies(key.operation@ == "cold_load"@),
                None => false,
            },
    {
        let at: usize = self.position(key);
        if at < self.histories.len() {
            self.histories[at].1.eligible(text::same(&key.operation, "cold_load"))
        } else {
            false
        }
    }

    /// Some qualified operation of the task has this name.
    pub open spec fn operation_qualified(&self, task: Seq<char>, operation: Seq<char>) -> bool {
        exists|i: int|
            0 <= i < self.model().len() && (#[trigger] self.model()[i]).0.task == task
                && self.model()[i].0.operation == operation && self.model()[i].1.qualifies(false)
    }

    /// The task as a whole may run beside the user.
    pub open spec fn task_qualified(&self, task: Seq<char>) -> bool {
        if task == "smart_cluster"@ {
            self.operation_qualified(task, "scoring_unit"@)
        } else if task == "ann_build"@ {
            &&& self.operation_qualified(task, "ann_insert"@)
            &&& self.operation_qualified(task, "ann_serialize"@)
            &&& self.operation_qualified(task, "ann_restore"@)
            &&& self.operation_qualified(task, "ann_validate"@)
            &&& self.operation_qualified(task, "ann_checksum"@)
            &&& self.operation_qualified(task, "ann_io"@)
        } else {
            exists|i: int|
                0 <= i < self.model().len() && (#[trigger] self.model()[i]).0.task == task
                    && self.model()[i].0.operation != "cold_load"@ && self.model()[i].1.qualifies(
                    false,
                )
        }
    }

    fn operation_eligible(&self, task: &str, operation: &str) -> (result: bool)
        requires
            self.wf(),
        ensures
            result == self.operation_qualified(task@, operation@),
    {
        let mut i: usize = 0;
        while i < self.histories.len()
            invariant
                i <= self.histories@.len(),
                self.wf(),
                forall|k: int|
                    0 <= k < i ==> !((#[trigger] self.model()[k]).0.task == task@
                        && self.model()[k].0.operation == operation@
                        && self.model()[k].1.qualifies(false)),
            decreases self.histories@.len() - i,
        {
            let entry = &self.histories[i];
            assert(self.model()[i as int] == (entry.0@, entry.1@));
            if text::same(&entry.0.task, task) && text::same(&entry.0.operation, operation)
                && entry.1.eligible(false) {
                return true;
            }
            i = i + 1;
        }
        false
    }

    /// The task as a whole may run beside the user.
    pub fn task_eligible(&self, task: &str) -> (result: bool)
        requires
            self.wf(),
        ensures
            result == self.task_qualified(task@),
    {
        if text::same(task, "smart_cluster") {
            return self.operation_eligible(task, "scoring_unit");
        }
        if text::same(task, "ann_build") {
            return self.operation_eligible(task, "ann_insert") && self.operation_eligible(
                task,
                "ann_serialize",
            ) && self.operation_eligible(task, "ann_restore") && self.operation_eligible(
                task,
                "ann_validate",
            ) && self.operation_eligible(task, "ann_checksum") && self.operation_eligible(
                task,
                "ann_io",
            );
        }
        let mut i: usize = 0;
        while i < self.histories.len()
            invariant
                i <= self.histories@.len(),
                self.wf(),
                task@ != "smart_cluster"@,
                task@ != "ann_build"@,
                forall|k: int|
                    0 <= k < i ==> !((#[trigger] self.model()[k]).0.task == task@
                        && self.model()[k].0.operation != "cold_load"@
                        && self.model()[k].1.qualifies(false)),
            decreases self.histories@.len() - i,
        {
            let entry = &self.histories[i];
            assert(self.model()[i as int] == (entry.0@, entry.1@));
            if text::same(&entry.0.task, task) && !text::same(&entry.0.operation, "cold_load")
                && entry.1.eligible(false) {
                return true;
            }
            i = i + 1;
        }
        false
    }

    /// The most additional memory that the operation was seen to take.
    pub fn additional_peak(&self, key: &CostKey) -> (result: u64)
        ensures
            result == match history_of(self.model(), key@) {
                Some(history) => largest(extra_peaks(history.samples)),
                None => 0,
            },
    {
        let at: usize = self.position(key);
        if at < self.histories.len() {
            self.histories[at].1.additional_peak()
        } else {
            0
        }
    }

    /// How every operation stands, in the order of the book.
    pub fn qualifications(&self) -> (result: Vec<Qualification>)
        requires
            self.wf(),
        ensures
            told_of(self.model(), result@),
    {
        let mut result: Vec<Qualification> = Vec::new();
        let mut i: usize = 0;
        while i < self.histories.len()
            invariant
                i <= self.histories@.len(),
                self.wf(),
                result@.len() == i,
                forall|k: int| 0 <= k < i ==> (#[trigger] result@[k]).tells(self.model()[k]),
            decreases self.histories@.len() - i,
        {
            let entry = &self.histories[i];
            result.push(
                Qualification {
                    key: entry.0.copy(),
                    eligible: entry.1.eligible(text::same(&entry.0.operation, "cold_load")),
                    samples: entry.1.samples.len(),
                    p95_ms: entry.1.p95_ms(),
                    expected_additional_peak_bytes: entry.1.additional_peak(),
                    peak_private_bytes: entry.1.private_peak(),
                    revoked: entry.1.revoked,
                },
            );
            i = i + 1;
        }
        result
    }
}

/// One reading of the machine. Loads are 32-bit and the latency is a 64-bit
/// bit pattern.
#[derive(Debug, Clone, Copy, PartialEq, Eq, Structural)]
pub struct ResourceSample {
    pub at_ms: u64,
    pub total_cpu_percent: Option<u32>,
    pub busiest_core_percent: Option<u32>,
    pub available_memory_bytes: Option<u64>,
    pub disk_latency_ms: Option<u64>,
}

impl Default for ResourceSample {
    fn default() -> (result: Self)
        ensures
            result == no_reading(),
    {
        ResourceSample {
            at_ms: 0,
            total_cpu_percent: None,
            busiest_core_percent: None,
            available_memory_bytes: None,
            disk_latency_ms: None,
        }
    }
}

/// A reading that says nothing.
pub open spec fn no_reading() -> ResourceSample {
    ResourceSample {
        at_ms: 0,
        total_cpu_percent: None,
        busiest_core_percent: None,
        available_memory_bytes: None,
        disk_latency_ms: None,
    }
}

/// The memory leaves 15 percent over the predicted peak and the reserve.
pub open spec fn memory_suffices(available: int, additional_peak: int) -> bool {
    available >= (additional_peak * 115 + 99) / 100 + MEMORY_RESERVE_BYTES
}

/// The memory leaves 15 percent over the predicted peak and the reserve.
pub fn memory_admits(available: u64, additional_peak: u64) -> (result: bool)
    ensures
        result == memory_suffices(available as int, additional_peak as int),
{
    let extra: u128 = (additional_peak as u128 * 115 + 99) / 100;
    available as u128 >= extra + MEMORY_RESERVE_BYTES as u128
}

/// The bits of 30.0.
pub const LOW_CPU: u32 = 0x41F0_0000;

/// The bits of 50.0.
pub const HIGH_CPU: u32 = 0x4248_0000;

/// The bits of 85.0.
pub const BUSY_CORE: u32 = 0x42AA_0000;

/// The bits of 95.0.
pub const SATURATED_CORE: u32 = 0x42BE_0000;

/// The bits of 10.0.
pub const FAST_DISK: u64 = 0x4024_0000_0000_0000;

/// The bits of 30.0.
pub const SLOW_DISK: u64 = 0x403E_0000_0000_0000;

/// `a - b`, or zero where `b` is larger.
pub open spec fn since(a: u64, b: u64) -> int {
    if a > b {
        a - b
    } else {
        0
    }
}

/// A count of consecutive readings: one more where `hit`, else none.
pub open spec fn counted(count: u8, hit: bool) -> u8 {
    if !hit {
        0
    } else if count == 255 {
        255
    } else {
        (count + 1) as u8
    }
}

/// A load is known and not below the limit.
pub open spec fn load_from(load: Option<u32>, limit: u32) -> bool {
    load is Some && ieee::magnitude32(load->0) >= limit
}

/// A latency is known and not below the limit.
pub open spec fn latency_from(latency: Option<u64>, limit: u64) -> bool {
    latency is Some && ieee::magnitude64(latency->0) >= limit
}

/// The reading without what is no percentage or no latency.
pub open spec fn cleaned(sample: ResourceSample) -> ResourceSample {
    ResourceSample {
        total_cpu_percent: match sample.total_cpu_percent {
            Some(v) if ieee::is_percent(v) => Some(v),
            _ => None,
        },
        busiest_core_percent: match sample.busiest_core_percent {
            Some(v) if ieee::is_percent(v) => Some(v),
            _ => None,
        },
        disk_latency_ms: match sample.disk_latency_ms {
            Some(v) if ieee::is_non_negative(v) => Some(v),
            _ => None,
        },
        ..sample
    }
}

/// When a stretch began: `started` goes on, a new one begins now.
pub open spec fn stretch(started: Option<u64>, holds: bool, now: u64) -> Option<u64> {
    if !holds {
        None
    } else if started is Some {
        started
    } else {
        Some(now)
    }
}

/// Decides from readings whether work may start or go on beside the user.
#[derive(Debug, Clone, Copy, PartialEq, Eq, Structural)]
pub struct ResourcePolicy {
    pub latest: ResourceSample,
    pub low_since: Option<u64>,
    pub disk_low_since: Option<u64>,
    pub stable_since: Option<u64>,
    pub cooldown_until: u64,
    pub busy_core_samples: u8,
    pub saturated_core_samples: u8,
    pub slow_disk_samples: u8,
}

impl Default for ResourcePolicy {
    fn default() -> (result: Self)
        ensures
            result == (ResourcePolicy {
                latest: no_reading(),
                low_since: None,
                disk_low_since: None,
                stable_since: None,
                cooldown_until: 0,
                busy_core_samples: 0,
                saturated_core_samples: 0,
                slow_disk_samples: 0,
            }),
            result.wf(),
    {
        ResourcePolicy {
            latest: ResourceSample::default(),
            low_since: None,
            disk_low_since: None,
            stable_since: None,
            cooldown_until: 0,
            busy_core_samples: 0,
            saturated_core_samples: 0,
            slow_disk_samples: 0,
        }
    }
}

/// `a + b`, or the largest number where that does not fit.
pub open spec fn later(a: u64, b: u64) -> u64 {
    if a + b > u64::MAX {
        u64::MAX
    } else {
        (a + b) as u64
    }
}

impl ResourcePolicy {
    /// A calm stretch never reaches back into a cooldown.
    pub open spec fn wf(&self) -> bool {
        &&& self.low_since matches Some(at) ==> at >= self.cooldown_until
        &&& self.disk_low_since matches Some(at) ==> at >= self.cooldown_until
    }

    /// The reading is one more sign of pressure, given the counts with it.
    pub open spec fn pressed(self, reading: ResourceSample) -> bool {
        ||| load_from(reading.total_cpu_percent, HIGH_CPU)
        ||| counted(
            self.saturated_core_samples,
            load_from(reading.busiest_core_percent, SATURATED_CORE),
        ) >= 2
        ||| counted(self.slow_disk_samples, latency_from(reading.disk_latency_ms, SLOW_DISK)) >= 2
    }

    /// The policy after a reading.
    pub open spec fn observed(self, sample: ResourceSample) -> ResourcePolicy {
        let now = sample.at_ms;
        let reading = cleaned(sample);
        let gap = since(now, self.latest.at_ms) > 2000;
        let busy = counted(
            self.busy_core_samples,
            load_from(reading.busiest_core_percent, BUSY_CORE),
        );
        let pressed = self.pressed(reading);
        let cooldown = if pressed {
            later(now, 15_000)
        } else {
            self.cooldown_until
        };
        let calm_cpu = {
            &&& now >= cooldown
            &&& reading.total_cpu_percent is Some
            &&& !load_from(reading.total_cpu_percent, LOW_CPU)
            &&& reading.busiest_core_percent is Some
            &&& busy < 2
        };
        let calm_disk = {
            &&& now >= cooldown
            &&& reading.disk_latency_ms is Some
            &&& !latency_from(reading.disk_latency_ms, FAST_DISK)
        };
        ResourcePolicy {
            latest: reading,
            low_since: stretch(
                if gap || pressed {
                    None
                } else {
                    self.low_since
                },
                calm_cpu,
                now,
            ),
            disk_low_since: stretch(
                if gap || pressed {
                    None
                } else {
                    self.disk_low_since
                },
                calm_disk,
                now,
            ),
            stable_since: if pressed {
                None
            } else {
                self.stable_since
            },
            cooldown_until: cooldown,
            busy_core_samples: busy,
            saturated_core_samples: counted(
                self.saturated_core_samples,
                load_from(reading.busiest_core_percent, SATURATED_CORE),
            ),
            slow_disk_samples: counted(
                self.slow_disk_samples,
                latency_from(reading.disk_latency_ms, SLOW_DISK),
            ),
        }
    }

    /// Takes in a reading.
    pub fn observe(&mut self, sample: ResourceSample)
        requires
            old(self).wf(),
        ensures
            *final(self) == old(self).observed(sample),
            final(self).wf(),
    {
        let now: u64 = sample.at_ms;
        if now.saturating_sub(self.latest.at_ms) > 2000 {
            self.low_since = None;
            self.disk_low_since = None;
        }
        let cpu = ieee::percent(sample.total_cpu_percent);
        let core = ieee::percent(sample.busiest_core_percent);
        let disk: Option<u64> = match sample.disk_latency_ms {
            Some(v) => if ieee::non_negative(v) {
                Some(v)
            } else {
                None
            },
            None => None,
        };
        self.busy_core_samples = count_reading(self.busy_core_samples, load_reaches(core, BUSY_CORE));
        self.saturated_core_samples = count_reading(
            self.saturated_core_samples,
            load_reaches(core, SATURATED_CORE),
        );
        self.slow_disk_samples = count_reading(
            self.slow_disk_samples,
            latency_reaches(disk, SLOW_DISK),
        );
        if load_reaches(cpu, HIGH_CPU) || self.saturated_core_samples >= 2 || self.slow_disk_samples
            >= 2 {
            self.cooldown_until = now.saturating_add(15_000);
            self.low_since = None;
            self.stable_since = None;
            self.disk_low_since = None;
        }
        if now >= self.cooldown_until && cpu.is_some() && !load_reaches(cpu, LOW_CPU)
            && core.is_some() && self.busy_core_samples < 2 {
            if self.low_since.is_none() {
                self.low_since = Some(now);
            }
        } else {
            self.low_since = None;
        }
        if disk.is_some() && !latency_reaches(disk, FAST_DISK) && now >= self.cooldown_until {
            if self.disk_low_since.is_none() {
                self.disk_low_since = Some(now);
            }
        } else {
            self.disk_low_since = None;
        }
        self.latest = ResourceSample {
            at_ms: now,
            total_cpu_percent: cpu,
            busiest_core_percent: core,
            available_memory_bytes: sample.available_memory_bytes,
            disk_latency_ms: disk,
        };
    }

    /// A stretch that began at `started` has lasted ten seconds.
    pub open spec fn lasted(started: Option<u64>, now: u64) -> bool {
        started is Some && since(now, started->0) >= 10_000
    }

    /// Why memory or disk stand in the way, if they do.
    pub open spec fn memory_disk_reason(
        self,
        now: u64,
        peak: u64,
        disk: bool,
        admission: bool,
    ) -> Option<Seq<char>> {
        if !(self.latest.available_memory_bytes is Some && memory_suffices(
            self.latest.available_memory_bytes->0 as int,
            peak as int,
        )) {
            Some("waiting_for_memory"@)
        } else if disk && (self.latest.disk_latency_ms is None || self.slow_disk_samples >= 2 || (
        admission && !Self::lasted(self.disk_low_since, now))) {
            Some("waiting_for_disk"@)
        } else {
            None
        }
    }

    /// Why work may not start, if it may not.
    pub open spec fn admit_reason(self, now: u64, additional_peak: u64, disk: bool) -> Option<
        Seq<char>,
    > {
        if since(now, self.latest.at_ms) > 2000 {
            Some("resource_metrics_unavailable"@)
        } else if now < self.cooldown_until {
            Some("resource_cooldown"@)
        } else if !Self::lasted(self.low_since, now) {
            Some("waiting_for_cpu"@)
        } else {
            self.memory_disk_reason(now, additional_peak, disk, true)
        }
    }

    /// Why running work may not go on, if it may not.
    pub open spec fn retain_reason(self, now: u64, additional_peak: u64, disk: bool) -> Option<
        Seq<char>,
    > {
        if since(now, self.latest.at_ms) > 2000 || self.latest.total_cpu_percent is None
            || self.latest.busiest_core_percent is None {
            Some("resource_metrics_unavailable"@)
        } else if now < self.cooldown_until || load_from(self.latest.total_cpu_percent, HIGH_CPU)
            || self.saturated_core_samples >= 2 {
            Some("resource_pressure"@)
        } else {
            self.memory_disk_reason(now, additional_peak, disk, false)
        }
    }

    /// Why work may not start, if it may not.
    pub fn admission(&self, now: u64, additional_peak: u64, disk: bool) -> (result: Option<
        &'static str,
    >)
        ensures
            shown(result) == self.admit_reason(now, additional_peak, disk),
    {
        if now.saturating_sub(self.latest.at_ms) > 2000 {
            return Some("resource_metrics_unavailable");
        }
        if now < self.cooldown_until {
            return Some("resource_cooldown");
        }
        if !has_lasted(self.low_since, now) {
            return Some("waiting_for_cpu");
        }
        self.memory_and_disk(now, additional_peak, disk, true)
    }

    /// Why running work may not go on, if it may not.
    pub fn retain(&self, now: u64, additional_peak: u64, disk: bool) -> (result: Option<
        &'static str,
    >)
        ensures
            shown(result) == self.retain_reason(now, additional_peak, disk),
    {
        if now.saturating_sub(self.latest.at_ms) > 2000 || self.latest.total_cpu_percent.is_none()
            || self.latest.busiest_core_percent.is_none() {
            return Some("resource_metrics_unavailable");
        }
        if now < self.cooldown_until || load_reaches(self.latest.total_cpu_percent, HIGH_CPU)
            || self.saturated_core_samples >= 2 {
            return Some("resource_pressure");
        }
        self.memory_and_disk(now, additional_peak, disk, false)
    }

    fn memory_and_disk(&self, now: u64, peak: u64, disk: bool, admission: bool) -> (result: Option<
        &'static str,
    >)
        ensures
            shown(result) == self.memory_disk_reason(now, peak, disk, admission),
    {
        let fits = match self.latest.available_memory_bytes {
            Some(bytes) => memory_admits(bytes, peak),
            None => false,
        };
        if !fits {
            return Some("waiting_for_memory");
        }
        if disk && (self.latest.disk_latency_ms.is_none() || self.slow_disk_samples >= 2 || (
        admission && !has_lasted(self.disk_low_since, now))) {
            return Some("waiting_for_disk");
        }
        None
    }

    /// When the present run began.
    pub open spec fn run_start(self, now: u64) -> u64 {
        match self.stable_since {
            Some(at) => at,
            None => now,
        }
    }

    /// The share of the time that work takes: it grows by ten percent a
    /// minute, from 20 to 50.
    pub open spec fn duty(self, now: u64) -> int {
        let grown = 20 + 10 * (since(now, self.run_start(now)) / 60_000);
        if grown < 50 {
            grown
        } else {
            50
        }
    }

    /// The share of the time that work takes now.
    pub fn duty_percent(&mut self, now: u64) -> (result: u32)
        requires
            since(now, old(self).run_start(now)) / 60_000 <= 429_496_727,
        ensures
            result == old(self).duty(now),
            *final(self) == (ResourcePolicy {
                stable_since: Some(old(self).run_start(now)),
                ..*old(self)
            }),
    {
        let started: u64 = match self.stable_since {
            Some(at) => at,
            None => now,
        };
        self.stable_since = Some(started);
        let grown: u32 = 20 + (now.saturating_sub(started) / 60_000) as u32 * 10;
        if grown < 50 {
            grown
        } else {
            50
        }
    }

    /// The next run starts at the lowest share again.
    pub fn reset_duty(&mut self)
        ensures
            *final(self) == (ResourcePolicy { stable_since: None, ..*old(self) }),
    {
        self.stable_since = None;
    }

    /// Running work was stopped by pressure: everything is waited for anew.
    pub fn defer_after_pressure(&mut self, now: u64)
        ensures
            *final(self) == (ResourcePolicy {
                cooldown_until: if old(self).cooldown_until < later(now, 15_000) {
                    later(now, 15_000)
                } else {
                    old(self).cooldown_until
                },
                low_since: None,
                disk_low_since: None,
                stable_since: None,
                ..*old(self)
            }),
            final(self).wf(),
    {
        let until: u64 = now.saturating_add(15_000);
        if self.cooldown_until < until {
            self.cooldown_until = until;
        }
        self.low_since = None;
        self.disk_low_since = None;
        self.stable_since = None;
    }
}

fn count_reading(count: u8, hit: bool) -> (result: u8)
    ensures
        result == counted(count, hit),
{
    if !hit {
        0
    } else if count == 255 {
        255
    } else {
        count + 1
    }
}

fn load_reaches(load: Option<u32>, limit: u32) -> (result: bool)
    ensures
        result == load_from(load, limit),
{
    match load {
        Some(v) => ieee::magnitude_of32(v) >= limit,
        None => false,
    }
}

fn latency_reaches(latency: Option<u64>, limit: u64) -> (result: bool)
    ensures
        result == latency_from(latency, limit),
{
    match latency {
        Some(v) => ieee::magnitude_of64(v) >= limit,
        None => false,
    }
}

fn has_lasted(started: Option<u64>, now: u64) -> (result: bool)
    ensures
        result == ResourcePolicy::lasted(started, now),
{
    match started {
        Some(at) => now.saturating_sub(at) >= 10_000,
        None => false,
    }
}

/// Whatever is admitted was admitted ten calm seconds after the last cooldown
/// ended.
pub proof fn law_admission_waits_out_the_cooldown(
    policy: ResourcePolicy,
    now: u64,
    peak: u64,
    disk: bool,
)
    requires
        policy.wf(),
        policy.admit_reason(now, peak, disk) is None,
    ensures
        now >= policy.cooldown_until + 10_000,
{
}

/// A reading under pressure keeps work from starting for 25 seconds, whatever
/// is read from then on.
pub proof fn law_pressure_holds_work_back(
    policy: ResourcePolicy,
    sample: ResourceSample,
    readings: Seq<ResourceSample>,
    now: u64,
    peak: u64,
    disk: bool,
)
    requires
        policy.wf(),
        policy.pressed(cleaned(sample)),
        forall|i: int| 0 <= i < readings.len() ==> (#[trigger] readings[i]).at_ms >= sample.at_ms,
        now < sample.at_ms + 25_000 <= u64::MAX,
    ensures
        all_observed(policy.observed(sample), readings).wf(),
        all_observed(policy.observed(sample), readings).cooldown_until >= sample.at_ms + 15_000,
        all_observed(policy.observed(sample), readings).admit_reason(now, peak, disk) is Some,
    decreases readings.len(),
{
    if readings.len() > 0 {
        let rest = readings.drop_last();
        assert forall|i: int| 0 <= i < rest.len() implies (#[trigger] rest[i]).at_ms
            >= sample.at_ms by {
            assert(rest[i] == readings[i]);
        }
        law_pressure_holds_work_back(policy, sample, rest, now, peak, disk);
        assert(readings[readings.len() - 1].at_ms >= sample.at_ms);
    }
}

/// The policy after a list of readings, in order.
pub open spec fn all_observed(policy: ResourcePolicy, readings: Seq<ResourceSample>) -> ResourcePolicy
    decreases readings.len(),
{
    if readings.len() == 0 {
        policy
    } else {
        all_observed(policy, readings.drop_last()).observed(readings.last())
    }
}

/// What decides on running at all.
#[derive(Debug, Clone, Copy, PartialEq, Eq, Structural)]
pub struct AdmissionSignals {
    pub enabled: bool,
    pub authorized: bool,
    pub ac_connected: bool,
    pub protected_session: bool,
    pub maintenance: bool,
    pub foreground: bool,
    pub idle_secs: u64,
}

impl AdmissionSignals {
    /// The first signal that forbids automatic work.
    pub open spec fn hard_reason(self) -> Option<Seq<char>> {
        if !self.enabled {
            Some("disabled"@)
        } else if !self.authorized {
            Some("waiting_for_unlock"@)
        } else if !self.ac_connected {
            Some("waiting_for_ac_power"@)
        } else if self.protected_session {
            Some("waiting_for_fullscreen"@)
        } else if self.maintenance {
            Some("maintenance"@)
        } else if self.foreground {
            Some("foreground_request"@)
        } else {
            None
        }
    }

    /// The first signal that forbids automatic work.
    pub fn hard_gate(self) -> (result: Option<&'static str>)
        ensures
            shown(result) == self.hard_reason(),
    {
        if !self.enabled {
            Some("disabled")
        } else if !self.authorized {
            Some("waiting_for_unlock")
        } else if !self.ac_connected {
            Some("waiting_for_ac_power")
        } else if self.protected_session {
            Some("waiting_for_fullscreen")
        } else if self.maintenance {
            Some("maintenance")
        } else if self.foreground {
            Some("foreground_request")
        } else {
            None
        }
    }
}

/// The profile that automatic work gets, or why it gets none.
pub open spec fn profile_for(
    signals: AdmissionSignals,
    mode: SchedulingMode,
    qualified: bool,
    resources: ResourcePolicy,
    now: u64,
) -> Result<ExecutionProfile, Seq<char>> {
    if signals.hard_reason() is Some {
        Err(signals.hard_reason()->0)
    } else if signals.idle_secs >= SHORT_IDLE_SECS {
        Ok(ExecutionProfile::Idle)
    } else if mode == SchedulingMode::IdleOnly {
        Err("waiting_for_idle"@)
    } else if !qualified {
        Err("waiting_for_evaluation"@)
    } else {
        match resources.admit_reason(now, 0, false) {
            Some(reason) => Err(reason),
            None => Ok(ExecutionProfile::Background),
        }
    }
}

/// The profile that automatic work gets, or why it gets none.
pub fn choose_profile(
    signals: AdmissionSignals,
    mode: SchedulingMode,
    qualified: bool,
    resources: &ResourcePolicy,
    now: u64,
) -> (result: Result<ExecutionProfile, &'static str>)
    ensures
        match result {
            Ok(profile) => profile_for(signals, mode, qualified, *resources, now) == Ok::<
                ExecutionProfile,
                Seq<char>,
            >(profile),
            Err(reason) => profile_for(signals, mode, qualified, *resources, now) == Err::<
                ExecutionProfile,
                Seq<char>,
            >(reason@),
        },
{
    match signals.hard_gate() {
        Some(reason) => {
            return Err(reason);
        },
        None => {},
    }
    if signals.idle_secs >= SHORT_IDLE_SECS {
        return Ok(ExecutionProfile::Idle);
    }
    if mode == SchedulingMode::IdleOnly {
        return Err("waiting_for_idle");
    }
    if !qualified {
        return Err("waiting_for_evaluation");
    }
    match resources.admission(now, 0, false) {
        Some(reason) => Err(reason),
        None => Ok(ExecutionProfile::Background),
    }
}

/// Beside the user only qualified work runs, and only where the mode allows it
/// and the machine is calm.
pub proof fn law_background_is_earned(
    signals: AdmissionSignals,
    mode: SchedulingMode,
    qualified: bool,
    resources: ResourcePolicy,
    now: u64,
)
    requires
        profile_for(signals, mode, qualified, resources, now) == Ok::<ExecutionProfile, Seq<char>>(
            ExecutionProfile::Background,
        ),
    ensures
        qualified,
        mode == SchedulingMode::Auto,
        resources.admit_reason(now, 0, false) is None,
        signals.hard_reason() is None,
        signals.idle_secs < SHORT_IDLE_SECS,
{
}

/// The permission to run one slice. Its profile never changes: the lease is
/// given back, and another is asked for.
#[derive(Debug)]
pub struct ExecutionLease {
    pub task: String,
    pub profile: ExecutionProfile,
    pub duty_percent: u32,
    pub revoked_for: Option<&'static str>,
    pub revoked_at: Option<u64>,
    pub unit_deadline: Option<u64>,
    pub cpu_micros: u64,
}

impl ExecutionLease {
    /// The lease after a revocation: the first reason stays.
    pub open spec fn revoked(self, reason: &'static str, now: u64) -> ExecutionLease {
        if self.revoked_for is None {
            ExecutionLease { revoked_for: Some(reason), revoked_at: Some(now), ..self }
        } else {
            self
        }
    }

    /// The time of the current unit is over.
    pub open spec fn overdue(self, now: u64) -> bool {
        self.unit_deadline is Some && now >= self.unit_deadline->0
    }

    /// How long to rest after so much work, in nanoseconds.
    pub open spec fn rest_after(self, execution_ns: int, cores: int) -> int {
        if self.profile == ExecutionProfile::Background {
            let duty_rest = ieee::nearest(
                execution_ns * (100 - self.duty_percent),
                self.duty_percent as int,
            );
            let window = ieee::nearest(self.cpu_micros as int * 20_000, cores);
            if window - execution_ns > duty_rest {
                window - execution_ns
            } else {
                duty_rest
            }
        } else {
            0
        }
    }

    pub fn new(task: &str, profile: ExecutionProfile, duty_percent: u32) -> (result: Self)
        ensures
            result.task@ == task@,
            result.profile == profile,
            result.duty_percent == duty_percent,
            result.revoked_for is None,
            result.revoked_at is None,
            result.unit_deadline is None,
            result.cpu_micros == 0,
    {
        ExecutionLease {
            task: task.to_owned(),
            profile,
            duty_percent,
            revoked_for: None,
            revoked_at: None,
            unit_deadline: None,
            cpu_micros: 0,
        }
    }

    /// Takes the lease back.
    pub fn revoke(&mut self, reason: &'static str, now: u64)
        ensures
            *final(self) == old(self).revoked(reason, now),
    {
        if self.revoked_for.is_none() {
            self.revoked_for = Some(reason);
            self.revoked_at = Some(now);
        }
    }

    /// How long ago the lease was taken back.
    pub fn yield_latency_ms(&self, now: u64) -> (result: Option<u64>)
        ensures
            match result {
                Some(ms) => self.revoked_at is Some && ms == since(now, self.revoked_at->0),
                None => self.revoked_at is None,
            },
    {
        match self.revoked_at {
            Some(at) => Some(now.saturating_sub(at)),
            None => None,
        }
    }

    /// Why the lease was taken back.
    pub fn reason(&self) -> (result: Option<&'static str>)
        ensures
            result == self.revoked_for,
    {
        self.revoked_for
    }

    /// Fails once the lease was taken back, and takes it back when the current
    /// unit is overdue.
    pub fn check(&mut self, now: u64) -> (result: Result<(), String>)
        ensures
            *final(self) == if old(self).overdue(now) {
                old(self).revoked("cost_overrun", now)
            } else {
                *old(self)
            },
            match result {
                Ok(_) => final(self).revoked_for is None,
                Err(e) => {
                    &&& final(self).revoked_for is Some
                    &&& e@ == "background_paused: "@ + final(self).revoked_for->0@
                },
            },
    {
        let overdue = match self.unit_deadline {
            Some(deadline) => now >= deadline,
            None => false,
        };
        if overdue {
            self.revoke("cost_overrun", now);
        }
        match self.revoked_for {
            Some(reason) => Err(text::join2("background_paused: ", reason)),
            None => Ok(()),
        }
    }

    /// Begins a unit that may take `budget` milliseconds, or as long as it
    /// likes.
    pub fn limit_unit(&mut self, budget: Option<u64>, now: u64)
        requires
            budget matches Some(ms) ==> now + ms <= u64::MAX,
        ensures
            *final(self) == (ExecutionLease {
                unit_deadline: match budget {
                    Some(ms) => Some((now + ms) as u64),
                    None => None,
                },
                ..*old(self)
            }),
    {
        self.unit_deadline = match budget {
            Some(ms) => Some(now + ms),
            None => None,
        };
    }

    /// The current unit gets a second more, to load a model.
    pub fn allow_cold_load(&mut self)
        requires
            old(self).unit_deadline matches Some(at) ==> at + 1000 <= u64::MAX,
        ensures
            *final(self) == (ExecutionLease {
                unit_deadline: match old(self).unit_deadline {
                    Some(at) => Some((at + 1000) as u64),
                    None => None,
                },
                ..*old(self)
            }),
    {
        self.unit_deadline = match self.unit_deadline {
            Some(at) => Some(at + 1000),
            None => None,
        };
    }

    /// How long to rest after `execution_ns` of work, in nanoseconds: long
    /// enough for the duty share, and for the used processor time to stay
    /// within its rate on a machine with `cores` cores.
    pub fn rest_ns(&self, execution_ns: u64, cores: u64) -> (result: u128)
        requires
            0 < self.duty_percent <= 100,
            cores > 0,
        ensures
            result == self.rest_after(execution_ns as int, cores as int),
    {
        if self.profile != ExecutionProfile::Background {
            return 0;
        }
        let idle: u128 = (100 - self.duty_percent) as u128;
        assert(execution_ns * idle <= u64::MAX * 100) by (nonlinear_arith)
            requires
                0 <= execution_ns <= u64::MAX,
                0 <= idle <= 100,
        ;
        let duty_rest: u128 = ieee::nearest_quotient(
            execution_ns as u128 * idle,
            self.duty_percent as u64,
        );
        let window: u128 = ieee::nearest_quotient(self.cpu_micros as u128 * 20_000, cores);
        if window > execution_ns as u128 && window - execution_ns as u128 > duty_rest {
            window - execution_ns as u128
        } else {
            duty_rest
        }
    }

    /// Puts processor time on the account, in microseconds rounded up.
    pub fn account_cpu(&mut self, cpu_ns: u64)
        requires
            old(self).cpu_micros + (cpu_ns + 999) / 1000 <= u64::MAX,
        ensures
            *final(self) == (ExecutionLease {
                cpu_micros: (old(self).cpu_micros + (cpu_ns + 999) / 1000) as u64,
                ..*old(self)
            }),
    {
        let micros: u64 = cpu_ns / 1000 + if cpu_ns % 1000 > 0 {
            1u64
        } else {
            0u64
        };
        self.cpu_micros = self.cpu_micros + micros;
    }
}

/// Fails once the lease that is held, if any, was taken back.
pub fn check_current(lease: &mut Option<ExecutionLease>, now: u64) -> (result: Result<(), String>)
    ensures
        match *old(lease) {
            None => *final(lease) == None::<ExecutionLease> && result is Ok,
            Some(held) => {
                let after = if held.overdue(now) {
                    held.revoked("cost_overrun", now)
                } else {
                    held
                };
                &&& *final(lease) == Some(after)
                &&& match result {
                    Ok(_) => after.revoked_for is None,
                    Err(e) => after.revoked_for is Some && e@ == "background_paused: "@
                        + after.revoked_for->0@,
                }
            },
        },
{
    match lease.take() {
        None => Ok(()),
        Some(mut held) => {
            let result = held.check(now);
            *lease = Some(held);
            result
        },
    }
}

/// The lease that is held, if any, is for work beside the user.
pub fn is_background(lease: &Option<ExecutionLease>) -> (result: bool)
    ensures
        result == (lease is Some && lease->0.profile == ExecutionProfile::Background),
{
    match lease {
        Some(held) => held.profile == ExecutionProfile::Background,
        None => false,
    }
}

/// The error tells of a pause, not of a failure.
pub open spec fn tells_pause(error: Seq<char>) -> bool {
    ||| text::holds_text(error, "background_paused:"@)
    ||| text::begins(error, "cancelled:"@)
    ||| text::holds_text(error, "embed failed: cancelled:"@)
    ||| error == "app_bound_disabled"@
    ||| error == "app_bound_lease_expired"@
    ||| error == "app_bound_task_retired"@
    ||| error == "app_bound_dataset_mismatch"@
    ||| error == "staging generation changed"@
    ||| error == "staged source changed"@
    ||| error == "Staged input changed before embedding commit"@
}

/// The error tells of a pause, not of a failure.
pub fn is_pause(error: &str) -> (result: bool)
    ensures
        result == tells_pause(error@),
{
    text::contains(error, "background_paused:") || text::starts_with(error, "cancelled:")
        || text::contains(error, "embed failed: cancelled:") || text::same(
        error,
        "app_bound_disabled",
    ) || text::same(error, "app_bound_lease_expired") || text::same(error, "app_bound_task_retired")
        || text::same(error, "app_bound_dataset_mismatch") || text::same(
        error,
        "staging generation changed",
    ) || text::same(error, "staged source changed") || text::same(
        error,
        "Staged input changed before embedding commit",
    )
}

/// What is known of the pauses.
#[derive(Debug)]
pub struct PauseStatistics {
    pub total: u64,
    pub reasons: Tally,
    pub last_yield_ms: Option<u64>,
}

impl Default for PauseStatistics {
    fn default() -> (result: Self)
        ensures
            result.total == 0,
            result.last_yield_ms is None,
            forall|n: Seq<char>| #[trigger] result.reasons.of(n) == 0,
    {
        PauseStatistics { total: 0, reasons: Tally::new(), last_yield_ms: None }
    }
}

impl PauseStatistics {
    /// Every count can still grow.
    pub open spec fn countable(&self) -> bool {
        &&& self.total < u64::MAX
        &&& forall|n: Seq<char>| #[trigger] self.reasons.of(n) < u64::MAX
    }

    /// Both say the same.
    pub open spec fn same(&self, other: PauseStatistics) -> bool {
        &&& self.total == other.total
        &&& self.last_yield_ms == other.last_yield_ms
        &&& forall|n: Seq<char>| #[trigger] self.reasons.of(n) == other.reasons.of(n)
    }

    /// A second copy.
    pub fn copy(&self) -> (result: Self)
        ensures
            result.same(*self),
    {
        PauseStatistics {
            total: self.total,
            reasons: self.reasons.copy(),
            last_yield_ms: self.last_yield_ms,
        }
    }

    /// Puts a pause down.
    pub fn note(&mut self, reason: &str, yield_ms: Option<u64>)
        requires
            old(self).countable(),
        ensures
            final(self).total == old(self).total + 1,
            final(self).last_yield_ms == yield_ms,
            forall|n: Seq<char>| #[trigger]
                final(self).reasons.of(n) == old(self).reasons.of(n) + if n == reason@ {
                    1int
                } else {
                    0
                },
    {
        self.total = self.total + 1;
        self.last_yield_ms = yield_ms;
        self.reasons.bump(reason);
    }
}

/// The 95th percentile of measured times is one of them; at least 95 percent of
/// them are not above it, and it is the least of which that holds.
pub proof fn law_p95_is_the_least_that_covers(samples: Seq<CostSample>, other: u64)
    requires
        samples.len() > 0,
    ensures
        p95_of(samples) is Some,
        exists|i: int|
            0 <= i < samples.len() && (#[trigger] samples[i]).elapsed_ms == p95_of(samples)->0,
        100 * order::not_above(times(samples), p95_of(samples)->0) >= 95 * samples.len(),
        100 * order::not_above(times(samples), other) >= 95 * samples.len() ==> p95_of(samples)->0
            <= other,
{
    let values = times(samples);
    let sorted = order::ascending(values);
    let n = samples.len() as int;
    let at = p95_index(n);
    let p95 = sorted[at];
    order::law_ascending(values);
    assert(0 <= at < n);
    order::law_places_tell_counts(sorted, at, other);
    order::law_sorting_keeps_counts(values, p95);
    order::law_sorting_keeps_counts(values, other);
    assert(100 * (at + 1) >= 95 * n);
    assert(100 * at < 95 * n);
    sorted.to_multiset_ensures();
    values.to_multiset_ensures();
    assert(sorted.contains(p95));
    assert(sorted.to_multiset().count(p95) > 0);
    assert(values.contains(p95));
    let i = choose|i: int| 0 <= i < values.len() && values[i] == p95;
    assert(samples[i].elapsed_ms == p95);
}

/// An operation may run beside the user only where at least 95 percent of its
/// times are not above half a second, or a second where a model is loaded; there
/// are at least 20 of them, or 3; and its qualification was not taken away. That
/// is all that it takes.
pub proof fn law_slow_work_does_not_qualify(history: HistoryModel)
    ensures
        history.qualifies(false) <==> !history.revoked && history.samples.len() >= 20 && 100
            * order::not_above(times(history.samples), 0x407F_4000_0000_0000) >= 95
            * history.samples.len(),
        history.qualifies(true) <==> !history.revoked && history.samples.len() >= 3 && 100
            * order::not_above(times(history.samples), 0x408F_4000_0000_0000) >= 95
            * history.samples.len(),
{
    let values = times(history.samples);
    if history.samples.len() > 0 {
        law_p95_is_the_least_that_covers(history.samples, 0x407F_4000_0000_0000);
        law_p95_is_the_least_that_covers(history.samples, 0x408F_4000_0000_0000);
        let p95 = p95_of(history.samples)->0;
        lemma_more_are_not_above(values, p95, 0x407F_4000_0000_0000);
        lemma_more_are_not_above(values, p95, 0x408F_4000_0000_0000);
    }
}

proof fn lemma_more_are_not_above(values: Seq<u64>, low: u64, high: u64)
    ensures
        low <= high ==> order::not_above(values, low) <= order::not_above(values, high),
    decreases values.len(),
{
    if values.len() > 0 {
        lemma_more_are_not_above(values.drop_last(), low, high);
    }
}

/// Only measurements at the capped rate count, and none of what was asked for by
/// hand: others change neither the times nor the qualification. Of those that
/// count, the newest 64 are kept, in order.
pub proof fn law_only_capped_work_counts(
    history: HistoryModel,
    cold: bool,
    sample: CostSample,
    profile: ExecutionProfile,
)
    requires
        history.samples.len() <= 64,
    ensures
        ({
            let after = history.after(cold, sample, profile);
            &&& sample.cpu_rate_percent != 5 || profile == ExecutionProfile::Manual ==> {
                &&& after.samples == history.samples
                &&& after.revoked == history.revoked
                &&& after.last_unrestricted == Some(sample)
            }
            &&& sample.cpu_rate_percent == 5 && profile == ExecutionProfile::Idle ==> {
                &&& after.samples.len() > 0
                &&& after.samples.last() == sample
                &&& history.samples.len() < 64 ==> after.samples == history.samples.push(sample)
                &&& history.samples.len() == 64 ==> after.samples == history.samples.skip(1).push(
                    sample,
                )
                &&& after.revoked ==> history.revoked && after.samples.len() < (if cold {
                    3int
                } else {
                    20
                })
            }
            &&& after.samples.len() <= 64
            &&& after.revocations >= history.revocations || history.revocations == u64::MAX
        }),
{
    let added = history.samples.push(sample);
    if history.samples.len() == 64 {
        assert(added.skip(1) =~= history.samples.skip(1).push(sample));
    }
}

/// Beside the user, a measurement above the limit and above twice the 95th
/// percentile takes the qualification away, and with it every measurement; one
/// that is not above the limit never does.
pub proof fn law_overruns_take_the_qualification(
    history: HistoryModel,
    cold: bool,
    sample: CostSample,
)
    requires
        sample.cpu_rate_percent == 5,
        history.revocations < u64::MAX,
        history.samples.len() > 0,
    ensures
        ({
            let limit: u64 = if cold {
                0x408F_4000_0000_0000
            } else {
                0x407F_4000_0000_0000
            };
            let after = history.after(cold, sample, ExecutionProfile::Background);
            &&& sample.elapsed_ms > limit && sample.elapsed_ms > p95_of(history.samples)->0
                + 0x10_0000_0000_0000 ==> after.revoked && after.samples.len() == 0
                && after.revocations == history.revocations + 1
            &&& sample.elapsed_ms <= limit ==> after.revoked == history.revoked
                && after.samples.len() >= history.samples.len() || after.samples.len() >= 64
        }),
{
}

/// The largest of some values is not below any of them, and is one of them
/// where one is above zero.
pub proof fn law_largest_is_largest(values: Seq<u64>)
    ensures
        forall|i: int| 0 <= i < values.len() ==> #[trigger] values[i] <= largest(values),
        values.contains(largest(values)) || largest(values) == 0,
    decreases values.len(),
{
    if values.len() > 0 {
        let head = values.drop_last();
        law_largest_is_largest(head);
        assert forall|i: int| 0 <= i < values.len() implies #[trigger] values[i] <= largest(
            values,
        ) by {
            if i < head.len() {
                assert(head[i] == values[i]);
            }
        }
        if largest(values) == values.last() {
            assert(values[values.len() - 1] == largest(values));
        } else if head.contains(largest(head)) {
            let i = choose|i: int| 0 <= i < head.len() && head[i] == largest(head);
            assert(values[i] == largest(values));
        }
    }
}

proof fn lemma_doubled_below(p: nat, n: nat)
    requires
        p > 0,
        p < n,
    ensures
        doubled_to(p, n) < 2 * n,
    decreases n - p,
{
    if 2 * p < n {
        lemma_doubled_below(2 * p, n);
    } else {
        assert(doubled_to(2 * p, n) == 2 * p);
    }
}

/// The size class of an input is not below its size, and less than twice as
/// large; a larger input is not in a smaller class.
pub proof fn law_size_classes(size: u64)
    ensures
        bucket(size) >= size,
        bucket(size) >= 1,
        size > 1 ==> bucket(size) < 2 * size,
        size <= 1 ==> bucket(size) == 1,
{
    lemma_doubled_above(1, size as nat);
    if size > 1 {
        lemma_doubled_below(1, size as nat);
    }
}

/// What was measured of an operation is found under its key, and a book holds
/// no more than 512 operations.
pub proof fn law_measurements_are_found(
    book: Seq<(KeyModel, HistoryModel)>,
    key: KeyModel,
    sample: CostSample,
    profile: ExecutionProfile,
)
    requires
        sample.sound(),
        book.len() <= 512,
    ensures
        ({
            let before = match history_of(book, key) {
                Some(history) => history,
                None => HistoryModel {
                    samples: Seq::empty(),
                    revoked: false,
                    revocations: 0,
                    last_unrestricted: None,
                },
            };
            let after = with_sample(book, key, sample, profile);
            &&& history_of(after, key) == Some(
                before.after(key.operation == "cold_load"@, sample, profile),
            )
            &&& after.len() <= 512
            &&& with_sample(book, key, CostSample { peak_private_bytes: 0, ..sample }, profile)
                == book
        }),
{
    let open = with_entry(book, key);
    let after = with_sample(book, key, sample, profile);
    lemma_find(book, key);
    lemma_find(open, key);
    let known = find_key(book, key) < book.len();
    if !known {
        let place = open.len() - 1;
        assert forall|i: int| 0 <= i < place implies (#[trigger] open[i]).0 != key by {
            if book.len() >= 512 {
                assert(open[i] == book[i + 1]);
            } else {
                assert(open[i] == book[i]);
            }
        }
        lemma_found_at(open, key, place);
    }
    let at = find_key(open, key);
    assert forall|i: int| 0 <= i < at implies (#[trigger] after[i]).0 != key by {
        assert(after[i] == open[i]);
    }
    lemma_found_at(after, key, at);
}

/// A task may run beside the user only by operations of its own that have proved
/// themselves; loading a model never counts, and a build needs all of its steps.
pub proof fn law_tasks_prove_themselves(book: PerformanceBook, task: Seq<char>)
    requires
        book.task_qualified(task),
    ensures
        exists|i: int|
            0 <= i < book.model().len() && (#[trigger] book.model()[i]).0.task == task
                && book.model()[i].0.operation != "cold_load"@ && book.model()[i].1.qualifies(
                false,
            ),
        task == "ann_build"@ ==> forall|step: int|
            #![trigger build_steps()[step]]
            0 <= step < 6 ==> exists|i: int|
                0 <= i < book.model().len() && (#[trigger] book.model()[i]).0.task == task
                    && book.model()[i].0.operation == build_steps()[step]
                    && book.model()[i].1.qualifies(false),
        task == "smart_cluster"@ ==> exists|i: int|
            0 <= i < book.model().len() && (#[trigger] book.model()[i]).0.task == task
                && book.model()[i].0.operation == "scoring_unit"@ && book.model()[i].1.qualifies(
                false,
            ),
{
    reveal_strlit("cold_load");
    reveal_strlit("scoring_unit");
    reveal_strlit("ann_insert");
    reveal_strlit("ann_build");
    reveal_strlit("smart_cluster");
    assert("cold_load"@.len() != "scoring_unit"@.len());
    assert("cold_load"@.len() != "ann_insert"@.len());
    assert("ann_build"@.len() != "smart_cluster"@.len());
    if task == "smart_cluster"@ {
        assert(book.operation_qualified(task, "scoring_unit"@));
    } else if task == "ann_build"@ {
        assert(book.operation_qualified(task, "ann_insert"@));
        assert forall|step: int|
            #![trigger build_steps()[step]]
            0 <= step < 6 implies exists|i: int|
            0 <= i < book.model().len() && (#[trigger] book.model()[i]).0.task == task
                && book.model()[i].0.operation == build_steps()[step] && book.model()[i].1.qualifies(
                false,
            ) by {
            assert(book.operation_qualified(task, build_steps()[step]));
        }
    }
}

/// The steps of a build.
pub open spec fn build_steps() -> Seq<Seq<char>> {
    seq![
        "ann_insert"@,
        "ann_serialize"@,
        "ann_restore"@,
        "ann_validate"@,
        "ann_checksum"@,
        "ann_io"@,
    ]
}

/// There is memory enough where 115 percent of the predicted peak fit into what
/// is left above the reserve of 0.8 GiB.
pub proof fn law_memory_has_a_reserve(available: int, peak: int)
    requires
        peak >= 0,
    ensures
        memory_suffices(available, peak) <==> 100 * (available - 858_993_460) >= 115 * peak,
{
}

/// A load of half the processors or more, or two readings in a row in which a
/// core is at 95 percent or the disk takes 30 milliseconds, keep work from
/// starting and from going on for fifteen seconds.
pub proof fn law_pressure_is_noticed(policy: ResourcePolicy, sample: ResourceSample, now: u64)
    requires
        sample.at_ms + 15_000 <= u64::MAX,
        now < sample.at_ms + 15_000,
        ({
            ||| sample.total_cpu_percent matches Some(load) && 0x4248_0000 <= load <= 0x42C8_0000
            ||| sample.busiest_core_percent matches Some(load) && 0x42BE_0000 <= load
                <= 0x42C8_0000 && policy.saturated_core_samples >= 1
            ||| sample.disk_latency_ms matches Some(time) && 0x403E_0000_0000_0000 <= time
                < 0x7FF0_0000_0000_0000 && policy.slow_disk_samples >= 1
        }),
    ensures
        policy.observed(sample).cooldown_until == sample.at_ms + 15_000,
        policy.observed(sample).low_since is None || policy.observed(sample).low_since->0
            >= sample.at_ms + 15_000,
        policy.observed(sample).stable_since is None,
        policy.observed(sample).admit_reason(now, 0, false) is Some,
        policy.observed(sample).retain_reason(now, 0, false) is Some,
{
}

/// How often in a row a core was at 95 percent, or the disk took 30
/// milliseconds: a reading that does not say so begins anew.
pub proof fn law_runs_are_of_readings_in_a_row(policy: ResourcePolicy, sample: ResourceSample)
    ensures
        ({
            let after = policy.observed(sample);
            let hot = sample.busiest_core_percent matches Some(load) && 0x42BE_0000 <= load
                <= 0x42C8_0000;
            let slow = sample.disk_latency_ms matches Some(time) && 0x403E_0000_0000_0000 <= time
                < 0x7FF0_0000_0000_0000;
            &&& !hot ==> after.saturated_core_samples == 0
            &&& hot && policy.saturated_core_samples < 255 ==> after.saturated_core_samples
                == policy.saturated_core_samples + 1
            &&& !slow ==> after.slow_disk_samples == 0
            &&& slow && policy.slow_disk_samples < 255 ==> after.slow_disk_samples
                == policy.slow_disk_samples + 1
        }),
{
}

/// A calm stretch is one of readings: where it goes on, the load was below 30
/// percent and known, no core was at 85 percent twice in a row, and no more than
/// two seconds lay between readings; where it begins, it begins now.
pub proof fn law_calm_is_of_calm_readings(policy: ResourcePolicy, sample: ResourceSample)
    requires
        policy.observed(sample).low_since is Some,
    ensures
        sample.total_cpu_percent is Some,
        sample.total_cpu_percent->0 < 0x41F0_0000 || sample.total_cpu_percent->0 == 0x8000_0000,
        sample.busiest_core_percent is Some,
        sample.busiest_core_percent->0 <= 0x42C8_0000 || sample.busiest_core_percent->0
            == 0x8000_0000,
        policy.busy_core_samples >= 1 ==> sample.busiest_core_percent->0 < 0x42AA_0000
            || sample.busiest_core_percent->0 == 0x8000_0000,
        sample.at_ms >= policy.cooldown_until,
        policy.observed(sample).low_since->0 == sample.at_ms || {
            &&& policy.low_since == policy.observed(sample).low_since
            &&& sample.at_ms <= policy.latest.at_ms + 2000
        },
{
}

/// A calm stretch of the disk is one of readings below ten milliseconds.
pub proof fn law_calm_disks_are_fast(policy: ResourcePolicy, sample: ResourceSample)
    requires
        policy.observed(sample).disk_low_since is Some,
    ensures
        sample.disk_latency_ms is Some,
        sample.disk_latency_ms->0 < 0x4024_0000_0000_0000 || sample.disk_latency_ms->0
            == 0x8000_0000_0000_0000,
        sample.at_ms >= policy.cooldown_until,
        policy.observed(sample).disk_low_since->0 == sample.at_ms || {
            &&& policy.disk_low_since == policy.observed(sample).disk_low_since
            &&& sample.at_ms <= policy.latest.at_ms + 2000
        },
{
}

/// Work starts beside the user exactly where the last reading is not older than
/// two seconds, no cooldown runs, the machine has been calm for ten seconds,
/// there is memory enough, and, for work on the disk, that has been fast for ten
/// seconds and is known not to be slow.
pub proof fn law_work_starts_on_a_calm_machine(
    policy: ResourcePolicy,
    now: u64,
    peak: u64,
    disk: bool,
)
    ensures
        policy.admit_reason(now, peak, disk) is None <==> {
            &&& now <= policy.latest.at_ms + 2000
            &&& now >= policy.cooldown_until
            &&& policy.low_since is Some && now >= policy.low_since->0 + 10_000
            &&& policy.latest.available_memory_bytes is Some
            &&& 100 * (policy.latest.available_memory_bytes->0 - 858_993_460) >= 115 * peak
            &&& disk ==> {
                &&& policy.latest.disk_latency_ms is Some
                &&& policy.slow_disk_samples < 2
                &&& policy.disk_low_since is Some && now >= policy.disk_low_since->0 + 10_000
            }
        },
{
}

/// Running work goes on exactly where the last reading is not older than two
/// seconds and tells the load, no cooldown runs, the processors are less than
/// half busy and no core is at 95 percent twice in a row, there is memory
/// enough, and, for work on the disk, that is known not to be slow.
pub proof fn law_work_goes_on_without_pressure(
    policy: ResourcePolicy,
    now: u64,
    peak: u64,
    disk: bool,
)
    ensures
        policy.retain_reason(now, peak, disk) is None <==> {
            &&& now <= policy.latest.at_ms + 2000
            &&& policy.latest.total_cpu_percent is Some
            &&& policy.latest.busiest_core_percent is Some
            &&& now >= policy.cooldown_until
            &&& policy.latest.total_cpu_percent->0 % 0x8000_0000 < 0x4248_0000
            &&& policy.saturated_core_samples < 2
            &&& policy.latest.available_memory_bytes is Some
            &&& 100 * (policy.latest.available_memory_bytes->0 - 858_993_460) >= 115 * peak
            &&& disk ==> policy.latest.disk_latency_ms is Some && policy.slow_disk_samples < 2
        },
{
}

/// The share of the time that work takes is 20 percent at first, ten more after
/// each full minute, and never more than 50.
pub proof fn law_work_takes_more_time_slowly(policy: ResourcePolicy, minutes: u64, now: u64)
    requires
        policy.stable_since is Some,
        policy.stable_since->0 + minutes * 60_000 <= now < policy.stable_since->0 + (minutes + 1)
            * 60_000,
    ensures
        minutes <= 3 ==> policy.duty(now) == 20 + 10 * minutes,
        minutes >= 3 ==> policy.duty(now) == 50,
        (ResourcePolicy { stable_since: None, ..policy }).duty(now) == 20,
{
    assert(since(now, policy.stable_since->0) / 60_000 == minutes) by {
        assert(since(now, policy.stable_since->0) == now - policy.stable_since->0 || now
            == policy.stable_since->0);
    }
}

/// Automatic work runs only where it is enabled, authorized and on mains, where
/// no session is protected, no maintenance runs and nobody waits in the
/// foreground; the first of these that is not so is told.
pub proof fn law_every_signal_can_forbid_work(signals: AdmissionSignals)
    ensures
        signals.hard_reason() is None <==> signals.enabled && signals.authorized
            && signals.ac_connected && !signals.protected_session && !signals.maintenance
            && !signals.foreground,
        !signals.enabled ==> signals.hard_reason() == Some("disabled"@),
        signals.enabled && !signals.authorized ==> signals.hard_reason() == Some(
            "waiting_for_unlock"@,
        ),
        signals.enabled && signals.authorized && !signals.ac_connected ==> signals.hard_reason()
            == Some("waiting_for_ac_power"@),
        signals.enabled && signals.authorized && signals.ac_connected && signals.protected_session
            ==> signals.hard_reason() == Some("waiting_for_fullscreen"@),
{
}

/// What is forbidden gets no profile, on whatever machine. Otherwise a machine
/// that was idle for a minute lets everything run; one that was not lets run
/// what is qualified, unless it is to wait for idle, and the machine decides.
pub proof fn law_profiles(
    signals: AdmissionSignals,
    mode: SchedulingMode,
    qualified: bool,
    resources: ResourcePolicy,
    now: u64,
)
    ensures
        ({
            let forbidden = !(signals.enabled && signals.authorized && signals.ac_connected
                && !signals.protected_session && !signals.maintenance && !signals.foreground);
            let profile = profile_for(signals, mode, qualified, resources, now);
            &&& forbidden ==> profile is Err
            &&& !forbidden && signals.idle_secs >= 60 ==> profile == Ok::<
                ExecutionProfile,
                Seq<char>,
            >(ExecutionProfile::Idle)
            &&& signals.idle_secs < 60 && (!qualified || mode == SchedulingMode::IdleOnly)
                ==> profile is Err
            &&& profile is Ok && signals.idle_secs < 60 ==> profile->Ok_0
                == ExecutionProfile::Background && resources.admit_reason(now, 0, false) is None
            &&& !forbidden && qualified && mode == SchedulingMode::Auto && resources.admit_reason(
                now,
                0,
                false,
            ) is None ==> profile is Ok
        }),
{
}

/// The first reason for which a lease was taken back stays, whatever comes
/// after it, and so does the time.
pub proof fn law_the_first_reason_stays(
    lease: ExecutionLease,
    first: &'static str,
    at: u64,
    second: &'static str,
    later_on: u64,
)
    requires
        lease.revoked_for is None,
    ensures
        lease.revoked(first, at).revoked_for == Some(first),
        lease.revoked(first, at).revoked_at == Some(at),
        lease.revoked(first, at).revoked(second, later_on) == lease.revoked(first, at),
        lease.revoked(first, at).profile == lease.profile,
        lease.revoked(first, at).task == lease.task,
        lease.overdue(at) <==> lease.unit_deadline is Some && at >= lease.unit_deadline->0,
{
}

/// Beside the user, rests make up for work: of the time of both, work takes its
/// share and no more, but for half a nanosecond; and the processor time that was
/// used is a twentieth of one core's share of that time at most. Other work does
/// not rest.
pub proof fn law_rests_make_up_for_work(lease: ExecutionLease, execution_ns: u64, cores: u64)
    requires
        0 < lease.duty_percent <= 100,
        cores > 0,
    ensures
        ({
            let rest = lease.rest_after(execution_ns as int, cores as int);
            &&& lease.profile != ExecutionProfile::Background ==> rest == 0
            &&& lease.profile == ExecutionProfile::Background ==> {
                &&& rest >= 0
                &&& 2 * rest * lease.duty_percent >= 2 * (execution_ns * (100
                    - lease.duty_percent)) - lease.duty_percent
                &&& 2 * (rest + execution_ns) * cores >= 2 * (lease.cpu_micros * 20_000) - cores
                &&& lease.cpu_micros == 0 ==> 2 * rest * lease.duty_percent <= 2 * (execution_ns
                    * (100 - lease.duty_percent)) + lease.duty_percent
            }
        }),
{
    let duty = lease.duty_percent as int;
    let work = execution_ns as int * (100 - duty);
    let duty_rest = ieee::nearest(work, duty);
    let window = ieee::nearest(lease.cpu_micros as int * 20_000, cores as int);
    let rest = lease.rest_after(execution_ns as int, cores as int);
    if lease.profile == ExecutionProfile::Background {
        assert(work >= 0) by (nonlinear_arith)
            requires
                work == execution_ns as int * (100 - duty),
                0 < duty <= 100,
                execution_ns >= 0,
        ;
        ieee::law_rounding_is_to_the_nearest(work, duty);
        ieee::law_rounding_is_to_the_nearest(lease.cpu_micros as int * 20_000, cores as int);
        assert(rest >= duty_rest);
        assert(rest + execution_ns >= window);
        assert(work / duty >= 0) by (nonlinear_arith)
            requires
                work >= 0,
                duty > 0,
        ;
        assert(2 * rest * duty >= 2 * duty_rest * duty) by (nonlinear_arith)
            requires
                rest >= duty_rest,
                duty > 0,
        ;
        assert(2 * (rest + execution_ns) * cores >= 2 * window * cores) by (nonlinear_arith)
            requires
                rest + execution_ns >= window,
                cores > 0,
        ;
        if lease.cpu_micros == 0 {
            assert(window == 0);
            assert(rest == duty_rest);
        }
    }
}

/// What is told of a lease that was taken back is a pause, whatever the reason,
/// and wherever the text is passed on.
pub proof fn law_revoked_leases_are_pauses(before: Seq<char>, reason: Seq<char>)
    ensures
        tells_pause(before + "background_paused: "@ + reason),
        tells_pause("cancelled:"@ + reason),
        tells_pause("app_bound_disabled"@),
        tells_pause("app_bound_lease_expired"@),
        tells_pause("app_bound_task_retired"@),
        tells_pause("app_bound_dataset_mismatch"@),
        tells_pause("staging generation changed"@),
        tells_pause("staged source changed"@),
        tells_pause("Staged input changed before embedding commit"@),
{
    reveal_strlit("background_paused: ");
    reveal_strlit("background_paused:");
    let told = before + "background_paused: "@ + reason;
    let at = before.len() as int;
    assert(told.subrange(at, at + "background_paused:"@.len()) =~= "background_paused:"@);
    assert(text::occurs_at(told, "background_paused:"@, at));
    let cancelled = "cancelled:"@ + reason;
    assert(cancelled.subrange(0, "cancelled:"@.len() as int) =~= "cancelled:"@);
}

/// A stored book is taken over only on the machine that it was made on, with
/// sound measurements at the capped rate, and no more than are kept.
pub proof fn law_books_are_trusted_at_home(book: PerformanceBook, environment: ExecutionEnvironment)
    requires
        book.trusted_on(environment),
    ensures
        book.environment.logical_cores == environment.logical_cores,
        book.environment.physical_memory_bytes == environment.physical_memory_bytes,
        book.environment.runtime@ == environment.runtime@,
        book.histories@.len() <= 512,
        forall|i: int|
            0 <= i < book.histories@.len() ==> (#[trigger] book.histories@[i]).1.samples@.len()
                <= 64,
        forall|i: int, j: int|
            0 <= i < book.histories@.len() && 0 <= j < book.histories@[i].1.samples@.len() ==> {
                let sample = #[trigger] book.histories@[i].1.samples@[j];
                &&& sample.cpu_rate_percent == 5
                &&& 0 < sample.elapsed_ms < 0x7FF0_0000_0000_0000
                &&& sample.peak_private_bytes > 0
            },
{
}

/// A qualification tells the truth of the operation: whether it qualifies, how
/// often it was measured, and no measurement of its peaks is above what it
/// tells.
pub proof fn law_qualifications_tell_the_book(
    told: Qualification,
    entry: (KeyModel, HistoryModel),
    i: int,
)
    requires
        told.tells(entry),
        0 <= i < entry.1.samples.len(),
    ensures
        told.samples == entry.1.samples.len(),
        told.eligible == entry.1.qualifies(entry.0.operation == "cold_load"@),
        entry.1.samples[i].peak_private_bytes <= told.peak_private_bytes,
        told.revoked == entry.1.revoked,
{
    let list = peaks(entry.1.samples);
    assert(list[i] == entry.1.samples[i].peak_private_bytes);
    law_largest_is_largest(list);
}

} // verus!
