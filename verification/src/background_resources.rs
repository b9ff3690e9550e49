//! What is read of the machine, of processes and of job limits.
use crate::background_policy::{ExecutionEnvironment, ResourceSample};
use crate::{ieee, text};
use vstd::prelude::*;
use vstd::string::*;

verus! {

/// What the text of the machine and its programs is made of.
#[derive(Debug)]
pub struct RuntimeParts {
    pub os: String,
    pub arch: String,
    pub os_version: Option<String>,
    pub ml_protocol: u64,
    /// How many threads the model is set to use.
    pub intra_threads: Option<String>,
    /// The vendor and the brand of the first processor.
    pub processor: Option<(String, String)>,
    pub version: String,
}

/// What an optional text says, or nothing.
pub open spec fn or_nothing(value: Option<String>) -> Seq<char> {
    match value {
        Some(s) => s@,
        None => Seq::empty(),
    }
}

impl RuntimeParts {
    /// The vendor and the brand of the processor.
    pub open spec fn processor_text(&self) -> Seq<char> {
        match self.processor {
            Some(names) => names.0@ + ":"@ + names.1@,
            None => Seq::empty(),
        }
    }

    /// The text by which measurements are told apart.
    pub open spec fn runtime(&self) -> Seq<char> {
        self.os@ + ":"@ + self.arch@ + ":"@ + or_nothing(self.os_version) + ":ml"@ + text::decimal(
            self.ml_protocol as nat,
        ) + ":ort1.24.2:budget-v2:spin0:"@ + or_nothing(self.intra_threads) + ":"@
            + self.processor_text() + ":"@ + self.version@
    }

    /// The text by which measurements are told apart.
    pub fn runtime_text(&self) -> (result: String)
        ensures
            result@ == self.runtime(),
    {
        let mut result = text::join3(&self.os, ":", &self.arch);
        result.append(":");
        match &self.os_version {
            Some(version) => {
                result.append(version);
            },
            None => {},
        }
        result.append(":ml");
        result.append(&text::decimal_string(self.ml_protocol));
        result.append(":ort1.24.2:budget-v2:spin0:");
        match &self.intra_threads {
            Some(threads) => {
                result.append(threads);
            },
            None => {},
        }
        result.append(":");
        match &self.processor {
            Some(names) => {
                result.append(&names.0);
                result.append(":");
                result.append(&names.1);
            },
            None => {},
        }
        result.append(":");
        result.append(&self.version);
        assert(result@ =~= self.runtime());
        result
    }
}

/// What measurements hold for: the machine, and what runs on it.
pub fn environment(logical_cores: usize, physical_memory_bytes: u64, parts: &RuntimeParts) -> (result:
    ExecutionEnvironment)
    ensures
        result.logical_cores == logical_cores,
        result.physical_memory_bytes == physical_memory_bytes,
        result.runtime@ == parts.runtime(),
{
    ExecutionEnvironment { logical_cores, physical_memory_bytes, runtime: parts.runtime_text() }
}

/// The largest of the numbers, by their bits, where there are any.
pub open spec fn is_busiest(cores: Seq<u32>, busiest: Option<u32>) -> bool {
    match busiest {
        Some(bits) => cores.contains(bits) && forall|i: int|
            0 <= i < cores.len() ==> ieee::total_position32(#[trigger] cores[i])
                <= ieee::total_position32(bits),
        None => cores.len() == 0,
    }
}

fn busiest_of(cores: &[u32]) -> (result: Option<u32>)
    ensures
        is_busiest(cores@, result),
{
    if cores.len() == 0 {
        return None;
    }
    let mut busiest: u32 = cores[0];
    let mut i: usize = 1;
    while i < cores.len()
        invariant
            1 <= i <= cores@.len(),
            cores@.contains(busiest),
            forall|j: int|
                0 <= j < i ==> ieee::total_position32(#[trigger] cores@[j])
                    <= ieee::total_position32(busiest),
        decreases cores@.len() - i,
    {
        if !ieee::before_in_total32(cores[i], busiest) {
            busiest = cores[i];
        }
        i = i + 1;
    }
    Some(busiest)
}

/// A measurement of the machine. `total` is the share of all processors in use
/// and `cores` that of each; both are bit patterns, as is the latency of the
/// disk. What was not measured stays unknown: the processors where none are
/// listed, the memory where there is none, and a latency that is infinite, below
/// zero or no number.
pub fn resource_sample(
    at_ms: u64,
    total: u32,
    cores: &[u32],
    total_memory: u64,
    available_memory: u64,
    disk_latency_ms: Option<u64>,
) -> (result: ResourceSample)
    ensures
        result.at_ms == at_ms,
        result.total_cpu_percent == if cores@.len() == 0 {
            None
        } else {
            Some(total)
        },
        is_busiest(cores@, result.busiest_core_percent),
        result.available_memory_bytes == if total_memory == 0 {
            None
        } else {
            Some(available_memory)
        },
        result.disk_latency_ms == match disk_latency_ms {
            Some(ms) => if ieee::is_non_negative(ms) {
                Some(ms)
            } else {
                None
            },
            None => None,
        },
{
    ResourceSample {
        at_ms,
        total_cpu_percent: if cores.len() == 0 {
            None
        } else {
            Some(total)
        },
        busiest_core_percent: busiest_of(cores),
        available_memory_bytes: if total_memory == 0 {
            None
        } else {
            Some(available_memory)
        },
        disk_latency_ms: match disk_latency_ms {
            Some(ms) => if ieee::non_negative(ms) {
                Some(ms)
            } else {
                None
            },
            None => None,
        },
    }
}

/// The usage of a process. The processor time is a bit pattern.
#[derive(Debug, Clone, Copy)]
pub struct ProcessUsage {
    pub cpu_ms: u64,
    pub private_bytes: u64,
    pub peak_private_bytes: u64,
}

impl ProcessUsage {
    /// The memory that an interval reached: the peak where the interval moved
    /// it, else what is in use at its end. An earlier peak does not count.
    pub fn peak_since(self, before: Option<Self>) -> (result: u64)
        ensures
            result == if before is None || self.peak_private_bytes > before->0.peak_private_bytes {
                self.peak_private_bytes
            } else {
                self.private_bytes
            },
    {
        let moved = match before {
            Some(b) => self.peak_private_bytes > b.peak_private_bytes,
            None => true,
        };
        if moved {
            self.peak_private_bytes
        } else {
            self.private_bytes
        }
    }
}

/// The number of 100-nanosecond ticks in the two halves of a file time.
pub fn file_time_ticks(high: u32, low: u32) -> (result: u64)
    ensures
        result == high * 0x1_0000_0000 + low,
{
    high as u64 * 0x1_0000_0000 + low as u64
}

/// The largest amount of private memory that was ever in use.
pub fn peak_private_bytes(private_usage: u64, peak_pagefile_usage: u64) -> (result: u64)
    ensures
        result == if private_usage < peak_pagefile_usage {
            peak_pagefile_usage
        } else {
            private_usage
        },
{
    if private_usage < peak_pagefile_usage {
        peak_pagefile_usage
    } else {
        private_usage
    }
}

/// The rate control of a job as it stands.
#[derive(Debug, Clone, Copy)]
pub struct RateControl {
    pub enabled: bool,
    /// Enabled and hard-capped, with no other flag.
    pub hard_capped: bool,
    pub cpu_rate: u32,
}

/// What is to be done about the rate of a job.
#[derive(Debug, Clone, Copy, PartialEq, Eq, Structural)]
pub enum RateAction {
    /// It stands as asked.
    Keep,
    /// The limit is taken off.
    Clear,
    /// A hard cap is set, in hundredths of a percent of the whole machine.
    Cap { cpu_rate: u32 },
}

/// What setting the rate of a job calls for. Taking off a limit that was never
/// set does nothing, since the system refuses it.
pub fn set_cpu_rate(current: RateControl, percent: Option<u32>) -> (result: Result<
    RateAction,
    String,
>)
    ensures
        match percent {
            None => result == Ok::<RateAction, String>(
                if current.enabled {
                    RateAction::Clear
                } else {
                    RateAction::Keep
                },
            ),
            Some(p) => match result {
                Err(e) => !(1 <= p <= 100) && e@ == "invalid worker CPU budget"@,
                Ok(action) => {
                    &&& 1 <= p <= 100
                    &&& action == if current.hard_capped && current.cpu_rate == p * 100 {
                        RateAction::Keep
                    } else {
                        RateAction::Cap { cpu_rate: (p * 100) as u32 }
                    }
                },
            },
        },
{
    match percent {
        None => if current.enabled {
            Ok(RateAction::Clear)
        } else {
            Ok(RateAction::Keep)
        },
        Some(p) => {
            if p < 1 || p > 100 {
                return Err("invalid worker CPU budget".to_owned());
            }
            let cpu_rate: u32 = p * 100;
            if current.hard_capped && current.cpu_rate == cpu_rate {
                Ok(RateAction::Keep)
            } else {
                Ok(RateAction::Cap { cpu_rate })
            }
        },
    }
}

} // verus!
