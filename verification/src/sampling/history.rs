//! What an interval tracker holds and returns over a whole run of samples.
//!
//! Each observation is one step: an available section is filled against the
//! baseline and becomes the next baseline, an unavailable one leaves the
//! baseline alone. The laws here follow those steps over any sequence.

use vstd::prelude::*;

use super::delta::{
    core_interval, core_with_id_from, filled_cpu, filled_network, interface_named_from,
    with_deltas,
};
use super::snapshot::Section;
use crate::system::cpu::{CpuCore, CpuMetrics, CpuMetricsView};
use crate::system::network::{NetworkInterfaceView, NetworkMetrics};

verus! {

// ----- CPU -----

/// The reading an available CPU section holds, or `None` for an unavailable
/// one.
pub open spec fn cpu_section_view(section: Section<CpuMetrics>) -> Option<CpuMetricsView> {
    match section {
        Section::Available { value } => Some(value@),
        Section::Unavailable { .. } => None,
    }
}

/// An available CPU reading as observed against `baseline`: with interval
/// utilization when there is a baseline, as read otherwise.
pub open spec fn cpu_filled_against(
    baseline: Option<CpuMetricsView>,
    value: CpuMetricsView,
) -> CpuMetricsView {
    match baseline {
        Some(previous) => filled_cpu(previous, value),
        None => value,
    }
}

/// The CPU baseline after observing one section: the filled reading of an
/// available section, the old baseline for an unavailable one.
pub open spec fn cpu_next_baseline(
    baseline: Option<CpuMetricsView>,
    section: Option<CpuMetricsView>,
) -> Option<CpuMetricsView> {
    match section {
        Some(value) => Some(cpu_filled_against(baseline, value)),
        None => baseline,
    }
}

/// The CPU baseline after observing `sections` in order, from `start`.
pub open spec fn cpu_baseline_after(
    start: Option<CpuMetricsView>,
    sections: Seq<Option<CpuMetricsView>>,
) -> Option<CpuMetricsView>
    decreases sections.len(),
{
    if sections.len() == 0 {
        start
    } else {
        cpu_next_baseline(cpu_baseline_after(start, sections.drop_last()), sections.last())
    }
}

/// The last reading of `sections` that was available.
pub open spec fn latest_cpu_reading(sections: Seq<Option<CpuMetricsView>>) -> Option<
    CpuMetricsView,
>
    decreases sections.len(),
{
    if sections.len() == 0 {
        None
    } else {
        match sections.last() {
            Some(value) => Some(value),
            None => latest_cpu_reading(sections.drop_last()),
        }
    }
}

/// Two CPU readings with the same counters: the same aggregate times and,
/// core by core, the same identifier and times. Interval utilization may
/// differ.
pub open spec fn same_cpu_counters(a: CpuMetricsView, b: CpuMetricsView) -> bool {
    &&& a.total == b.total
    &&& a.cores.len() == b.cores.len()
    &&& forall|i: int|
        0 <= i < a.cores.len() ==> (#[trigger] a.cores[i]).id == b.cores[i].id && a.cores[i].times
            == b.cores[i].times
}

/// Two CPU baselines that are both absent, or both present with the same
/// counters.
pub open spec fn same_cpu_baseline(a: Option<CpuMetricsView>, b: Option<CpuMetricsView>) -> bool {
    match (a, b) {
        (None, None) => true,
        (Some(x), Some(y)) => same_cpu_counters(x, y),
        _ => false,
    }
}

/// Observing a list of sections one more section on is observing that
/// section against the baseline the list left.
pub proof fn cpu_baseline_after_push(
    start: Option<CpuMetricsView>,
    sections: Seq<Option<CpuMetricsView>>,
    section: Option<CpuMetricsView>,
)
    ensures
        cpu_baseline_after(start, sections.push(section)) == cpu_next_baseline(
            cpu_baseline_after(start, sections),
            section,
        ),
{
    assert(sections.push(section).drop_last() =~= sections);
}

proof fn lemma_filled_cpu_keeps_counters(previous: CpuMetricsView, value: CpuMetricsView)
    ensures
        same_cpu_counters(filled_cpu(previous, value), value),
{
}

proof fn lemma_same_core_lookup(a: Seq<CpuCore>, b: Seq<CpuCore>, id: u32, j: int)
    requires
        a.len() == b.len(),
        forall|i: int|
            0 <= i < a.len() ==> (#[trigger] a[i]).id == b[i].id && a[i].times == b[i].times,
    ensures
        match (core_with_id_from(a, id, j), core_with_id_from(b, id, j)) {
            (None, None) => true,
            (Some(x), Some(y)) => x.times == y.times,
            _ => false,
        },
    decreases a.len() - j,
{
    if 0 <= j < a.len() {
        lemma_same_core_lookup(a, b, id, j + 1);
    }
}

proof fn lemma_filled_cpu_reads_only_counters(
    p: CpuMetricsView,
    q: CpuMetricsView,
    value: CpuMetricsView,
)
    requires
        same_cpu_counters(p, q),
    ensures
        filled_cpu(p, value) == filled_cpu(q, value),
{
    assert forall|c: CpuCore| core_interval(p.cores, c) == core_interval(q.cores, c) by {
        lemma_same_core_lookup(p.cores, q.cores, c.id, 0);
    }
    assert(filled_cpu(p, value).cores =~= filled_cpu(q, value).cores);
}

/// Observing an available reading gives the same result against two
/// baselines with the same counters, and leaves baselines with the same
/// counters again.
proof fn lemma_cpu_step_reads_only_counters(
    a: Option<CpuMetricsView>,
    b: Option<CpuMetricsView>,
    section: Option<CpuMetricsView>,
)
    requires
        same_cpu_baseline(a, b),
    ensures
        forall|v: CpuMetricsView| #[trigger] cpu_filled_against(a, v) == cpu_filled_against(b, v),
        same_cpu_baseline(cpu_next_baseline(a, section), cpu_next_baseline(b, section)),
{
    assert forall|v: CpuMetricsView| #[trigger] cpu_filled_against(a, v) == cpu_filled_against(
        b,
        v,
    ) by {
        if let (Some(x), Some(y)) = (a, b) {
            lemma_filled_cpu_reads_only_counters(x, y, v);
        }
    }
    if let Some(v) = section {
        assert(cpu_filled_against(a, v) == cpu_filled_against(b, v));
    }
}

/// After any sequence of CPU sections observed by a fresh tracker, the
/// baseline holds the counters of the latest section that was available;
/// unavailable sections leave it alone.
pub proof fn cpu_baseline_holds_latest_reading(sections: Seq<Option<CpuMetricsView>>)
    ensures
        same_cpu_baseline(cpu_baseline_after(None, sections), latest_cpu_reading(sections)),
    decreases sections.len(),
{
    if sections.len() > 0 {
        cpu_baseline_holds_latest_reading(sections.drop_last());
        if let Some(v) = sections.last() {
            match cpu_baseline_after(None, sections.drop_last()) {
                Some(p) => lemma_filled_cpu_keeps_counters(p, v),
                None => {},
            }
        }
    }
}

/// In a run of CPU sections observed by a fresh tracker, an available
/// section is filled against the latest earlier section that was available,
/// and left as read when there is none.
pub proof fn cpu_interval_uses_latest_earlier_reading(
    sections: Seq<Option<CpuMetricsView>>,
    k: int,
)
    requires
        0 <= k < sections.len(),
        sections[k] is Some,
    ensures
        cpu_filled_against(cpu_baseline_after(None, sections.take(k)), sections[k].unwrap())
            == cpu_filled_against(latest_cpu_reading(sections.take(k)), sections[k].unwrap()),
{
    cpu_baseline_holds_latest_reading(sections.take(k));
    lemma_cpu_step_reads_only_counters(
        cpu_baseline_after(None, sections.take(k)),
        latest_cpu_reading(sections.take(k)),
        None,
    );
}

/// Two trackers whose CPU baselines hold the same counters (two fresh
/// trackers among them), fed the same sections, keep baselines with the same
/// counters and return the same readings at every step.
pub proof fn cpu_trackers_fed_alike_agree(
    a: Option<CpuMetricsView>,
    b: Option<CpuMetricsView>,
    sections: Seq<Option<CpuMetricsView>>,
)
    requires
        same_cpu_baseline(a, b),
    ensures
        same_cpu_baseline(cpu_baseline_after(a, sections), cpu_baseline_after(b, sections)),
        forall|v: CpuMetricsView|
            #[trigger] cpu_filled_against(cpu_baseline_after(a, sections), v) == cpu_filled_against(
                cpu_baseline_after(b, sections),
                v,
            ),
    decreases sections.len(),
{
    if sections.len() > 0 {
        cpu_trackers_fed_alike_agree(a, b, sections.drop_last());
        lemma_cpu_step_reads_only_counters(
            cpu_baseline_after(a, sections.drop_last()),
            cpu_baseline_after(b, sections.drop_last()),
            sections.last(),
        );
    }
    lemma_cpu_step_reads_only_counters(
        cpu_baseline_after(a, sections),
        cpu_baseline_after(b, sections),
        None,
    );
}

// ----- network -----

/// The interface readings an available network section holds, or `None` for
/// an unavailable one.
pub open spec fn network_section_view(section: Section<NetworkMetrics>) -> Option<
    Seq<NetworkInterfaceView>,
> {
    match section {
        Section::Available { value } => Some(value@),
        Section::Unavailable { .. } => None,
    }
}

/// An available network reading as observed against `baseline`: with byte
/// deltas when there is a baseline, as read otherwise.
pub open spec fn network_filled_against<Ts>(
    baseline: Option<(Ts, Seq<NetworkInterfaceView>)>,
    value: Seq<NetworkInterfaceView>,
) -> Seq<NetworkInterfaceView> {
    match baseline {
        Some((_, previous)) => filled_network(previous, value),
        None => value,
    }
}

/// The time of the baseline an available network reading is observed
/// against, when there is one.
pub open spec fn network_previous_time<Ts>(baseline: Option<(Ts, Seq<NetworkInterfaceView>)>) -> Option<Ts> {
    match baseline {
        Some((at, _)) => Some(at),
        None => None,
    }
}

/// The network baseline after observing one section collected at `at`: the
/// filled reading of an available section with that time, the old baseline
/// for an unavailable one.
pub open spec fn network_next_baseline<Ts>(
    baseline: Option<(Ts, Seq<NetworkInterfaceView>)>,
    section: Option<Seq<NetworkInterfaceView>>,
    at: Ts,
) -> Option<(Ts, Seq<NetworkInterfaceView>)> {
    match section {
        Some(value) => Some((at, network_filled_against(baseline, value))),
        None => baseline,
    }
}

/// The network baseline after observing `samples` (each a section and the
/// time it was collected at) in order, from `start`.
pub open spec fn network_baseline_after<Ts>(
    start: Option<(Ts, Seq<NetworkInterfaceView>)>,
    samples: Seq<(Option<Seq<NetworkInterfaceView>>, Ts)>,
) -> Option<(Ts, Seq<NetworkInterfaceView>)>
    decreases samples.len(),
{
    if samples.len() == 0 {
        start
    } else {
        network_next_baseline(
            network_baseline_after(start, samples.drop_last()),
            samples.last().0,
            samples.last().1,
        )
    }
}

/// The last reading of `samples` that was available, with its time.
pub open spec fn latest_network_reading<Ts>(
    samples: Seq<(Option<Seq<NetworkInterfaceView>>, Ts)>,
) -> Option<(Ts, Seq<NetworkInterfaceView>)>
    decreases samples.len(),
{
    if samples.len() == 0 {
        None
    } else {
        match samples.last().0 {
            Some(value) => Some((samples.last().1, value)),
            None => latest_network_reading(samples.drop_last()),
        }
    }
}

/// Two interface lists with the same counters: interface by interface, the
/// same name and the same received and transmitted bytes. Other fields may
/// differ.
pub open spec fn same_network_counters(
    a: Seq<NetworkInterfaceView>,
    b: Seq<NetworkInterfaceView>,
) -> bool {
    &&& a.len() == b.len()
    &&& forall|i: int|
        0 <= i < a.len() ==> (#[trigger] a[i]).name == b[i].name && a[i].rx_bytes == b[i].rx_bytes
            && a[i].tx_bytes == b[i].tx_bytes
}

/// Two network baselines that are both absent, or both present with the same
/// time and the same counters.
pub open spec fn same_network_baseline<Ts>(
    a: Option<(Ts, Seq<NetworkInterfaceView>)>,
    b: Option<(Ts, Seq<NetworkInterfaceView>)>,
) -> bool {
    match (a, b) {
        (None, None) => true,
        (Some((s, x)), Some((t, y))) => s == t && same_network_counters(x, y),
        _ => false,
    }
}

/// Observing a list of samples one more sample on is observing that sample
/// against the baseline the list left.
pub proof fn network_baseline_after_push<Ts>(
    start: Option<(Ts, Seq<NetworkInterfaceView>)>,
    samples: Seq<(Option<Seq<NetworkInterfaceView>>, Ts)>,
    section: Option<Seq<NetworkInterfaceView>>,
    at: Ts,
)
    ensures
        network_baseline_after(start, samples.push((section, at))) == network_next_baseline(
            network_baseline_after(start, samples),
            section,
            at,
        ),
{
    assert(samples.push((section, at)).drop_last() =~= samples);
}

proof fn lemma_filled_network_keeps_counters(
    previous: Seq<NetworkInterfaceView>,
    value: Seq<NetworkInterfaceView>,
)
    ensures
        same_network_counters(filled_network(previous, value), value),
{
}

proof fn lemma_same_interface_lookup(
    a: Seq<NetworkInterfaceView>,
    b: Seq<NetworkInterfaceView>,
    name: Seq<char>,
    j: int,
)
    requires
        same_network_counters(a, b),
    ensures
        match (interface_named_from(a, name, j), interface_named_from(b, name, j)) {
            (None, None) => true,
            (Some(x), Some(y)) => x.rx_bytes == y.rx_bytes && x.tx_bytes == y.tx_bytes,
            _ => false,
        },
    decreases a.len() - j,
{
    if 0 <= j < a.len() {
        assert(a[j].name == b[j].name);
        lemma_same_interface_lookup(a, b, name, j + 1);
    }
}

proof fn lemma_filled_network_reads_only_counters(
    p: Seq<NetworkInterfaceView>,
    q: Seq<NetworkInterfaceView>,
    value: Seq<NetworkInterfaceView>,
)
    requires
        same_network_counters(p, q),
    ensures
        filled_network(p, value) == filled_network(q, value),
{
    assert forall|i: NetworkInterfaceView| with_deltas(p, i) == with_deltas(q, i) by {
        lemma_same_interface_lookup(p, q, i.name, 0);
    }
    assert(filled_network(p, value) =~= filled_network(q, value));
}

proof fn lemma_network_step_reads_only_counters<Ts>(
    a: Option<(Ts, Seq<NetworkInterfaceView>)>,
    b: Option<(Ts, Seq<NetworkInterfaceView>)>,
    section: Option<Seq<NetworkInterfaceView>>,
    at: Ts,
)
    requires
        same_network_baseline(a, b),
    ensures
        forall|v: Seq<NetworkInterfaceView>| #[trigger] network_filled_against(a, v)
            == network_filled_against(b, v),
        network_previous_time(a) == network_previous_time(b),
        same_network_baseline(network_next_baseline(a, section, at), network_next_baseline(b, section, at)),
{
    assert forall|v: Seq<NetworkInterfaceView>| #[trigger] network_filled_against(a, v)
        == network_filled_against(b, v) by {
        if let (Some((_, x)), Some((_, y))) = (a, b) {
            lemma_filled_network_reads_only_counters(x, y, v);
        }
    }
    if let Some(v) = section {
        assert(network_filled_against(a, v) == network_filled_against(b, v));
    }
}

/// After any sequence of network sections observed by a fresh tracker, the
/// baseline holds the time and the counters of the latest section that was
/// available; unavailable sections leave it alone.
pub proof fn network_baseline_holds_latest_reading<Ts>(
    samples: Seq<(Option<Seq<NetworkInterfaceView>>, Ts)>,
)
    ensures
        same_network_baseline(
            network_baseline_after(None, samples),
            latest_network_reading(samples),
        ),
    decreases samples.len(),
{
    if samples.len() > 0 {
        network_baseline_holds_latest_reading(samples.drop_last());
        if let Some(v) = samples.last().0 {
            match network_baseline_after(None, samples.drop_last()) {
                Some((_, p)) => lemma_filled_network_keeps_counters(p, v),
                None => {},
            }
        }
    }
}

/// In a run of network sections observed by a fresh tracker, an available
/// section gets its byte deltas against the latest earlier section that was
/// available, and is told that section's time; with none, it is left as read
/// and told no time.
pub proof fn network_deltas_use_latest_earlier_reading<Ts>(
    samples: Seq<(Option<Seq<NetworkInterfaceView>>, Ts)>,
    k: int,
)
    requires
        0 <= k < samples.len(),
        samples[k].0 is Some,
    ensures
        network_filled_against(network_baseline_after(None, samples.take(k)), samples[k].0.unwrap())
            == network_filled_against(latest_network_reading(samples.take(k)), samples[k].0.unwrap()),
        network_previous_time(network_baseline_after(None, samples.take(k)))
            == network_previous_time(latest_network_reading(samples.take(k))),
{
    network_baseline_holds_latest_reading(samples.take(k));
    lemma_network_step_reads_only_counters(
        network_baseline_after(None, samples.take(k)),
        latest_network_reading(samples.take(k)),
        None,
        samples[k].1,
    );
}

/// Two trackers whose network baselines hold the same time and counters (two
/// fresh trackers among them), fed the same samples, keep such baselines and
/// return the same readings and the same previous time at every step.
pub proof fn network_trackers_fed_alike_agree<Ts>(
    a: Option<(Ts, Seq<NetworkInterfaceView>)>,
    b: Option<(Ts, Seq<NetworkInterfaceView>)>,
    samples: Seq<(Option<Seq<NetworkInterfaceView>>, Ts)>,
)
    requires
        same_network_baseline(a, b),
    ensures
        same_network_baseline(network_baseline_after(a, samples), network_baseline_after(b, samples)),
        forall|v: Seq<NetworkInterfaceView>|
            #[trigger] network_filled_against(network_baseline_after(a, samples), v)
                == network_filled_against(network_baseline_after(b, samples), v),
        network_previous_time(network_baseline_after(a, samples)) == network_previous_time(
            network_baseline_after(b, samples),
        ),
    decreases samples.len(),
{
    if samples.len() > 0 {
        network_trackers_fed_alike_agree(a, b, samples.drop_last());
        lemma_network_step_reads_only_counters(
            network_baseline_after(a, samples.drop_last()),
            network_baseline_after(b, samples.drop_last()),
            samples.last().0,
            samples.last().1,
        );
    }
    if let Some((at, _)) = a {
        lemma_network_step_reads_only_counters(
            network_baseline_after(a, samples),
            network_baseline_after(b, samples),
            None,
            at,
        );
    } else if samples.len() > 0 {
        lemma_network_step_reads_only_counters(
            network_baseline_after(a, samples),
            network_baseline_after(b, samples),
            None,
            samples.last().1,
        );
    }
}

} // verus!
