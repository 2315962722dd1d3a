//! Per-section availability of a snapshot, and the readings kept between
//! samples to derive interval metrics.

use vstd::prelude::*;

use super::delta::{fill_cpu_interval, fill_network_deltas};
use super::history::{
    cpu_filled_against, cpu_next_baseline, cpu_section_view, network_filled_against,
    network_next_baseline, network_previous_time, network_section_view,
};
use crate::system::cpu::{CpuMetrics, CpuMetricsView};
use crate::system::network::{NetworkInterfaceView, NetworkMetrics};
use crate::system::ParseError;
use crate::text::{chars_of, string_from};

verus! {

/// A metric that may or may not be available on the current host.
///
/// Aggregated responses use this so a single failing collector never fails
/// the whole payload.
#[derive(Debug, PartialEq)]
pub enum Section<T> {
    /// The metric was collected.
    Available {
        /// The collected metric.
        value: T,
    },
    /// The metric could not be collected on this host.
    Unavailable {
        /// Why the metric is unavailable.
        reason: String,
    },
}

/// Errors produced while collecting a metric.
#[derive(Debug, PartialEq, Eq)]
pub enum CollectorError {
    /// The metric source could not be read.
    Read {
        /// The file that could not be read.
        path: String,
    },
    /// The metric source was read but could not be parsed.
    Parse {
        /// The file that could not be parsed.
        path: String,
        /// The underlying parse error.
        source: ParseError,
    },
}

/// The message that describes a collector error.
pub open spec fn collector_message(e: CollectorError) -> Seq<char> {
    match e {
        CollectorError::Read { path } => "cannot read "@.add(path@),
        CollectorError::Parse { path, .. } => "cannot parse "@.add(path@),
    }
}

/// A collector error is described by what went wrong and the file it
/// concerns: `cannot read PATH` or `cannot parse PATH`.
pub proof fn collector_messages_name_the_file(e: CollectorError)
    ensures
        e matches CollectorError::Read { path } ==> collector_message(e) == "cannot read "@ + path@,
        e matches CollectorError::Parse { path, .. } ==> collector_message(e) == "cannot parse "@
            + path@,
{
}

fn concat(prefix: &str, rest: &String) -> (r: String)
    ensures
        r@ == prefix@.add(rest@),
{
    let mut chars = chars_of(prefix);
    let tail = chars_of(rest.as_str());
    let ghost head = chars@;
    let mut i: usize = 0;
    while i < tail.len()
        invariant
            i <= tail@.len(),
            chars@ == head.add(tail@.take(i as int)),
        decreases tail.len() - i,
    {
        chars.push(tail[i]);
        i = i + 1;
        assert(chars@ =~= head.add(tail@.take(i as int)));
    }
    assert(tail@.take(i as int) =~= tail@);
    string_from(&chars)
}

impl CollectorError {
    /// Describes the error by the file it concerns.
    pub fn message(&self) -> (r: String)
        ensures
            r@ == collector_message(*self),
    {
        match self {
            CollectorError::Read { path } => concat("cannot read ", path),
            CollectorError::Parse { path, .. } => concat("cannot parse ", path),
        }
    }
}

/// The outcome of collecting a metric from `path` whose content parsed to
/// `parsed`.
pub fn parsed_from<T>(path: String, parsed: Result<T, ParseError>) -> (r: Result<
    T,
    CollectorError,
>)
    ensures
        match parsed {
            Ok(v) => r == Ok::<T, CollectorError>(v),
            Err(e) => r == Err::<T, CollectorError>(CollectorError::Parse { path, source: e }),
        },
{
    match parsed {
        Ok(v) => Ok(v),
        Err(source) => Err(CollectorError::Parse { path, source }),
    }
}

/// The section that a collector's outcome gives: the metric when it was
/// collected, otherwise unavailable with the reason why.
pub fn section_from<T>(outcome: Result<T, CollectorError>) -> (r: Section<T>)
    ensures
        match outcome {
            Ok(v) => r == Section::Available { value: v },
            Err(e) => r matches Section::Unavailable { reason } && reason@ == collector_message(e),
        },
{
    match outcome {
        Ok(value) => Section::Available { value },
        Err(error) => Section::Unavailable { reason: error.message() },
    }
}

/// The readings of the previous successful sample, from which the next
/// sample's interval metrics are derived.
pub struct IntervalTracker<Ts> {
    cpu_baseline: Option<CpuMetrics>,
    network_baseline: Option<(Ts, NetworkMetrics)>,
}

impl<Ts> IntervalTracker<Ts> {
    /// The CPU reading of the last sample whose CPU section was available.
    pub closed spec fn cpu_baseline(&self) -> Option<CpuMetricsView> {
        match self.cpu_baseline {
            Some(m) => Some(m@),
            None => None,
        }
    }

    /// The time and interface readings of the last sample whose network
    /// section was available.
    pub closed spec fn network_baseline(&self) -> Option<(Ts, Seq<NetworkInterfaceView>)> {
        match self.network_baseline {
            Some((t, m)) => Some((t, m@)),
            None => None,
        }
    }

    /// A tracker that has seen no sample yet.
    pub fn new() -> (r: Self)
        ensures
            r.cpu_baseline() is None,
            r.network_baseline() is None,
    {
        IntervalTracker { cpu_baseline: None, network_baseline: None }
    }

    /// Derives the interval utilization of an available CPU section from the
    /// previous reading and keeps the result as the next baseline. An
    /// unavailable section is returned as it is and leaves the baseline alone.
    /// Over a run of calls the baseline follows `cpu_baseline_after`.
    pub fn observe_cpu(&mut self, cpu: Section<CpuMetrics>) -> (r: Section<CpuMetrics>)
        ensures
            match cpu {
                Section::Available { value } => {
                    &&& r matches Section::Available { value: filled }
                    &&& filled@ == cpu_filled_against(old(self).cpu_baseline(), value@)
                },
                Section::Unavailable { reason } => r == Section::<CpuMetrics>::Unavailable {
                    reason,
                },
            },
            final(self).cpu_baseline() == cpu_next_baseline(
                old(self).cpu_baseline(),
                cpu_section_view(cpu),
            ),
            final(self).network_baseline() == old(self).network_baseline(),
    {
        match cpu {
            Section::Available { value } => {
                let mut value = value;
                match &self.cpu_baseline {
                    Some(previous) => fill_cpu_interval(&mut value, previous),
                    None => {},
                }
                self.cpu_baseline = Some(value.duplicate());
                Section::Available { value }
            },
            Section::Unavailable { reason } => Section::Unavailable { reason },
        }
    }

    /// Derives the byte deltas of an available network section from the
    /// previous reading and keeps the result, with the time `collected_at`,
    /// as the next baseline. Returns the time of the previous reading when
    /// deltas were derived from one. An unavailable section is returned as it
    /// is and leaves the baseline alone. Over a run of calls the baseline
    /// follows `network_baseline_after`.
    pub fn observe_network(&mut self, network: Section<NetworkMetrics>, collected_at: Ts) -> (r: (
        Section<NetworkMetrics>,
        Option<Ts>,
    ))
        ensures
            match network {
                Section::Available { value } => {
                    &&& r.0 matches Section::Available { value: filled }
                    &&& filled@ == network_filled_against(old(self).network_baseline(), value@)
                    &&& r.1 == network_previous_time(old(self).network_baseline())
                },
                Section::Unavailable { reason } => {
                    &&& r.0 == Section::<NetworkMetrics>::Unavailable { reason }
                    &&& r.1 is None
                },
            },
            final(self).network_baseline() == network_next_baseline(
                old(self).network_baseline(),
                network_section_view(network),
                collected_at,
            ),
            final(self).cpu_baseline() == old(self).cpu_baseline(),
    {
        match network {
            Section::Available { value } => {
                let mut value = value;
                let previous = self.network_baseline.take();
                let previous_at = match previous {
                    Some((at, readings)) => {
                        fill_network_deltas(&mut value, &readings);
                        Some(at)
                    },
                    None => None,
                };
                self.network_baseline = Some((collected_at, value.duplicate()));
                (Section::Available { value }, previous_at)
            },
            Section::Unavailable { reason } => (Section::Unavailable { reason }, None),
        }
    }
}

} // verus!
