//! Interval-derived metrics computed from consecutive samples.

use vstd::prelude::*;

use crate::system::cpu::{
    BusyShare, CpuCore, CpuMetrics, CpuMetricsView, CpuTimes, idle_of, share_wf, total_of,
};
use crate::system::network::{
    NetworkInterface, NetworkInterfaceView, NetworkMetrics, interface_views,
};

verus! {

/// Whether any counter summed into the total went backwards between two
/// readings, which marks a reboot or counter reset.
pub open spec fn counter_went_backwards(previous: CpuTimes, current: CpuTimes) -> bool {
    ||| current.user_ticks < previous.user_ticks
    ||| current.nice_ticks < previous.nice_ticks
    ||| current.system_ticks < previous.system_ticks
    ||| current.idle_ticks < previous.idle_ticks
    ||| current.iowait_ticks < previous.iowait_ticks
    ||| current.irq_ticks < previous.irq_ticks
    ||| current.softirq_ticks < previous.softirq_ticks
    ||| current.steal_ticks < previous.steal_ticks
}

/// The utilization between two cumulative readings: busy ticks out of all
/// ticks that elapsed. `None` when no tick elapsed, or when any counter went
/// backwards, which marks a reboot or counter reset.
pub open spec fn interval_share(previous: CpuTimes, current: CpuTimes) -> Option<BusyShare> {
    let total_delta = total_of(current) - total_of(previous);
    let idle_delta = idle_of(current) - idle_of(previous);
    if counter_went_backwards(previous, current) || total_delta == 0 {
        None
    } else {
        Some(
            BusyShare {
                busy_ticks: (total_delta - idle_delta) as u128,
                total_ticks: total_delta as u128,
            },
        )
    }
}

/// Interval utilization is a fraction: busy ticks never exceed a non-zero
/// number of elapsed ticks.
pub proof fn interval_share_is_a_fraction(previous: CpuTimes, current: CpuTimes)
    ensures
        interval_share(previous, current) matches Some(s) ==> share_wf(s),
{
}

/// Two identical readings give no interval utilization: no tick elapsed.
pub proof fn identical_readings_give_no_interval(t: CpuTimes)
    ensures
        interval_share(t, t) is None,
{
}

/// A counter that went backwards (a reboot or counter reset), whichever of
/// the summed counters it is, gives no interval utilization.
pub proof fn counter_reset_gives_no_interval(previous: CpuTimes, current: CpuTimes)
    requires
        current.user_ticks < previous.user_ticks || current.nice_ticks < previous.nice_ticks
            || current.system_ticks < previous.system_ticks || current.idle_ticks
            < previous.idle_ticks || current.iowait_ticks < previous.iowait_ticks
            || current.irq_ticks < previous.irq_ticks || current.softirq_ticks
            < previous.softirq_ticks || current.steal_ticks < previous.steal_ticks,
    ensures
        interval_share(previous, current) is None,
{
}

/// Between readings where no counter went backwards and some tick elapsed,
/// the utilization is the busy ticks out of all ticks that elapsed.
pub proof fn interval_share_of_growing_counters(previous: CpuTimes, current: CpuTimes)
    requires
        !counter_went_backwards(previous, current),
        total_of(current) != total_of(previous),
    ensures
        interval_share(previous, current) matches Some(s) && s.total_ticks == total_of(current)
            - total_of(previous) && s.busy_ticks == (total_of(current) - idle_of(current)) - (
        total_of(previous) - idle_of(previous)),
{
}

/// Interval utilization counts as busy the growth of the user, nice,
/// system, irq, softirq and steal ticks, out of that plus the growth of the
/// idle and iowait ticks; guest time is not counted again.
pub proof fn interval_share_counts_each_tick_once(previous: CpuTimes, current: CpuTimes)
    ensures
        interval_share(previous, current) matches Some(s) ==> {
            &&& s.busy_ticks == (current.user_ticks - previous.user_ticks) + (current.nice_ticks
                - previous.nice_ticks) + (current.system_ticks - previous.system_ticks) + (
            current.irq_ticks - previous.irq_ticks) + (current.softirq_ticks
                - previous.softirq_ticks) + (current.steal_ticks - previous.steal_ticks)
            &&& s.total_ticks == s.busy_ticks + (current.idle_ticks - previous.idle_ticks) + (
            current.iowait_ticks - previous.iowait_ticks)
        },
        forall|g1: u64, g2: u64, h1: u64, h2: u64|
            #![trigger interval_share(
                CpuTimes { guest_ticks: g1, guest_nice_ticks: g2, ..previous },
                CpuTimes { guest_ticks: h1, guest_nice_ticks: h2, ..current },
            )]
            interval_share(
                CpuTimes { guest_ticks: g1, guest_nice_ticks: g2, ..previous },
                CpuTimes { guest_ticks: h1, guest_nice_ticks: h2, ..current },
            ) == interval_share(previous, current),
{
}

/// CPU utilization between two cumulative counter readings.
///
/// Returns `None` when no time has elapsed or when any counter went
/// backwards, which marks a reboot or counter reset.
pub fn cpu_interval_share(previous: &CpuTimes, current: &CpuTimes) -> (r: Option<BusyShare>)
    ensures
        r == interval_share(*previous, *current),
        r matches Some(s) ==> share_wf(s),
{
    if current.user_ticks < previous.user_ticks || current.nice_ticks < previous.nice_ticks
        || current.system_ticks < previous.system_ticks || current.idle_ticks
        < previous.idle_ticks || current.iowait_ticks < previous.iowait_ticks
        || current.irq_ticks < previous.irq_ticks || current.softirq_ticks
        < previous.softirq_ticks || current.steal_ticks < previous.steal_ticks {
        return None;
    }
    let total_previous = previous.total_ticks();
    let total_current = current.total_ticks();
    let idle_previous = previous.idle_total_ticks();
    let idle_current = current.idle_total_ticks();
    let total_delta = total_current - total_previous;
    if total_delta == 0 {
        return None;
    }
    let idle_delta = idle_current - idle_previous;
    Some(BusyShare { busy_ticks: total_delta - idle_delta, total_ticks: total_delta })
}

/// The first core of `cores` from index `j` on whose identifier is `id`.
pub open spec fn core_with_id_from(cores: Seq<CpuCore>, id: u32, j: int) -> Option<CpuCore>
    decreases cores.len() - j,
{
    if j >= cores.len() || j < 0 {
        None
    } else if cores[j].id == id {
        Some(cores[j])
    } else {
        core_with_id_from(cores, id, j + 1)
    }
}

/// The first core of `cores` whose identifier is `id`.
pub open spec fn core_with_id(cores: Seq<CpuCore>, id: u32) -> Option<CpuCore> {
    core_with_id_from(cores, id, 0)
}

/// The interval utilization of `core` against the readings of `previous`.
pub open spec fn core_interval(previous: Seq<CpuCore>, core: CpuCore) -> Option<BusyShare> {
    match core_with_id(previous, core.id) {
        Some(p) => interval_share(p.times, core.times),
        None => None,
    }
}

/// A core seen for the first time gets no interval utilization.
pub proof fn new_core_has_no_interval(previous: Seq<CpuCore>, core: CpuCore)
    requires
        forall|j: int| 0 <= j < previous.len() ==> (#[trigger] previous[j]).id != core.id,
    ensures
        core_interval(previous, core) is None,
{
    assert forall|j: int| 0 <= j <= previous.len() implies core_with_id_from(previous, core.id, j)
        is None by {
        lemma_no_core_from(previous, core.id, j);
    }
}

proof fn lemma_no_core_from(cores: Seq<CpuCore>, id: u32, j: int)
    requires
        0 <= j <= cores.len(),
        forall|k: int| 0 <= k < cores.len() ==> (#[trigger] cores[k]).id != id,
    ensures
        core_with_id_from(cores, id, j) is None,
    decreases cores.len() - j,
{
    if j < cores.len() {
        lemma_no_core_from(cores, id, j + 1);
    }
}

proof fn lemma_core_from_is_first_match(cores: Seq<CpuCore>, id: u32, j: int)
    requires
        0 <= j <= cores.len(),
    ensures
        core_with_id_from(cores, id, j) matches Some(p) ==> exists|k: int|
            j <= k < cores.len() && cores[k] == p && p.id == id && forall|m: int|
                j <= m < k ==> (#[trigger] cores[m]).id != id,
        core_with_id_from(cores, id, j) is None ==> forall|m: int|
            j <= m < cores.len() ==> (#[trigger] cores[m]).id != id,
    decreases cores.len() - j,
{
    if j < cores.len() {
        lemma_core_from_is_first_match(cores, id, j + 1);
        if cores[j].id != id {
            if let Some(p) = core_with_id_from(cores, id, j + 1) {
                let k = choose|k: int|
                    j + 1 <= k < cores.len() && cores[k] == p && p.id == id && forall|m: int|
                        j + 1 <= m < k ==> (#[trigger] cores[m]).id != id;
                assert(forall|m: int| j <= m < k ==> (#[trigger] cores[m]).id != id);
            }
        }
    }
}

/// Looking a core up by identifier finds the first core with that
/// identifier, and finds nothing only when no core has it.
pub proof fn core_lookup_finds_the_first_matching_core(cores: Seq<CpuCore>, id: u32, j: int)
    requires
        0 <= j < cores.len(),
        cores[j].id == id,
        forall|m: int| 0 <= m < j ==> (#[trigger] cores[m]).id != id,
    ensures
        core_with_id(cores, id) == Some(cores[j]),
{
    lemma_core_from_is_first_match(cores, id, 0);
}

/// Each core is measured against the previous reading of the core with the
/// same identifier (the first such, should there be several).
pub proof fn cores_are_measured_against_their_own_previous_reading(
    previous: CpuMetricsView,
    current: CpuMetricsView,
    i: int,
    j: int,
)
    requires
        0 <= i < current.cores.len(),
        0 <= j < previous.cores.len(),
        previous.cores[j].id == current.cores[i].id,
        forall|m: int| 0 <= m < j ==> (#[trigger] previous.cores[m]).id != current.cores[i].id,
    ensures
        filled_cpu(previous, current).cores[i].interval_usage == interval_share(
            previous.cores[j].times,
            current.cores[i].times,
        ),
        filled_cpu(previous, current).cores[i].id == current.cores[i].id,
        filled_cpu(previous, current).cores[i].times == current.cores[i].times,
{
    core_lookup_finds_the_first_matching_core(previous.cores, current.cores[i].id, j);
}

fn find_core(cores: &Vec<CpuCore>, id: u32) -> (r: Option<CpuCore>)
    ensures
        r == core_with_id(cores@, id),
{
    let mut j: usize = 0;
    while j < cores.len()
        invariant
            j <= cores@.len(),
            core_with_id(cores@, id) == core_with_id_from(cores@, id, j as int),
        decreases cores.len() - j,
    {
        if cores[j].id == id {
            return Some(cores[j]);
        }
        j = j + 1;
    }
    None
}

/// `current` with the interval utilization of the aggregate and of each core
/// measured against `previous`.
pub open spec fn filled_cpu(previous: CpuMetricsView, current: CpuMetricsView) -> CpuMetricsView {
    CpuMetricsView {
        interval_usage: interval_share(previous.total, current.total),
        total: current.total,
        cores: current.cores.map_values(
            |c: CpuCore| CpuCore { interval_usage: core_interval(previous.cores, c), ..c },
        ),
    }
}

/// Fills the interval utilization of the aggregate and of every core that has
/// a previous reading; a core seen for the first time gets `None`.
pub fn fill_cpu_interval(current: &mut CpuMetrics, previous: &CpuMetrics)
    ensures
        final(current).total == old(current).total,
        final(current).interval_usage == interval_share(previous.total, old(current).total),
        final(current).cores@.len() == old(current).cores@.len(),
        forall|i: int|
            0 <= i < final(current).cores@.len() ==> #[trigger] final(current).cores@[i] == (
            CpuCore {
                interval_usage: core_interval(previous.cores@, old(current).cores@[i]),
                ..old(current).cores@[i]
            }),
        final(current)@ == filled_cpu(previous@, old(current)@),
{
    current.interval_usage = cpu_interval_share(&previous.total, &current.total);
    let ghost before_fill = current.cores@;
    let ghost total = current.total;
    let ghost interval = current.interval_usage;
    let mut i: usize = 0;
    while i < current.cores.len()
        invariant
            current.cores@.len() == before_fill.len(),
            current.total == total,
            current.interval_usage == interval,
            i <= before_fill.len(),
            forall|j: int|
                0 <= j < i ==> #[trigger] current.cores@[j] == (CpuCore {
                    interval_usage: core_interval(previous.cores@, before_fill[j]),
                    ..before_fill[j]
                }),
            forall|j: int| i <= j < before_fill.len() ==> #[trigger] current.cores@[j] == before_fill[j],
        decreases before_fill.len() - i,
    {
        let core = current.cores[i];
        let interval = match find_core(&previous.cores, core.id) {
            Some(p) => cpu_interval_share(&p.times, &core.times),
            None => None,
        };
        current.cores.set(i, CpuCore { interval_usage: interval, ..core });
        i = i + 1;
    }
    assert(current.cores@ =~= before_fill.map_values(
        |c: CpuCore| CpuCore { interval_usage: core_interval(previous.cores@, c), ..c },
    ));
}

/// The growth of a byte counter between two readings; `None` when it went
/// backwards.
pub open spec fn counter_growth(previous: u64, current: u64) -> Option<u64> {
    if current >= previous {
        Some((current - previous) as u64)
    } else {
        None
    }
}

/// How much a byte counter grew between two readings, or `None` for a counter
/// that went backwards.
pub fn counter_delta(previous: u64, current: u64) -> (r: Option<u64>)
    ensures
        r == counter_growth(previous, current),
        r matches Some(d) ==> previous + d == current,
{
    if current < previous {
        None
    } else {
        Some(current - previous)
    }
}

/// The first interface of `ifaces` from index `j` on named `name`.
pub open spec fn interface_named_from(
    ifaces: Seq<NetworkInterfaceView>,
    name: Seq<char>,
    j: int,
) -> Option<NetworkInterfaceView>
    decreases ifaces.len() - j,
{
    if j >= ifaces.len() || j < 0 {
        None
    } else if ifaces[j].name == name {
        Some(ifaces[j])
    } else {
        interface_named_from(ifaces, name, j + 1)
    }
}

/// The first interface of `ifaces` named `name`.
pub open spec fn interface_named(ifaces: Seq<NetworkInterfaceView>, name: Seq<char>) -> Option<
    NetworkInterfaceView,
> {
    interface_named_from(ifaces, name, 0)
}

/// `iface` with its byte deltas against the readings of `previous`; an
/// interface seen for the first time is left as it is.
pub open spec fn with_deltas(
    previous: Seq<NetworkInterfaceView>,
    iface: NetworkInterfaceView,
) -> NetworkInterfaceView {
    match interface_named(previous, iface.name) {
        None => iface,
        Some(p) => NetworkInterfaceView {
            rx_bytes_delta: counter_growth(p.rx_bytes, iface.rx_bytes),
            tx_bytes_delta: counter_growth(p.tx_bytes, iface.tx_bytes),
            ..iface
        },
    }
}

proof fn lemma_no_interface_from(ifaces: Seq<NetworkInterfaceView>, name: Seq<char>, j: int)
    requires
        0 <= j <= ifaces.len(),
        forall|k: int| 0 <= k < ifaces.len() ==> (#[trigger] ifaces[k]).name != name,
    ensures
        interface_named_from(ifaces, name, j) is None,
    decreases ifaces.len() - j,
{
    if j < ifaces.len() {
        lemma_no_interface_from(ifaces, name, j + 1);
    }
}

/// An interface seen for the first time is left as it was read.
pub proof fn new_interface_is_left_unchanged(
    previous: Seq<NetworkInterfaceView>,
    iface: NetworkInterfaceView,
)
    requires
        forall|j: int| 0 <= j < previous.len() ==> (#[trigger] previous[j]).name != iface.name,
    ensures
        with_deltas(previous, iface) == iface,
{
    lemma_no_interface_from(previous, iface.name, 0);
}

/// A byte counter that went backwards gives no delta, and a delta that is
/// given is exactly the growth of the counter.
pub proof fn deltas_follow_counter_growth(
    previous: Seq<NetworkInterfaceView>,
    iface: NetworkInterfaceView,
)
    ensures
        interface_named(previous, iface.name) matches Some(p) ==> {
            &&& (iface.rx_bytes < p.rx_bytes ==> with_deltas(previous, iface).rx_bytes_delta is None)
            &&& (iface.tx_bytes < p.tx_bytes ==> with_deltas(previous, iface).tx_bytes_delta is None)
            &&& (with_deltas(previous, iface).rx_bytes_delta matches Some(d) ==> p.rx_bytes + d
                == iface.rx_bytes)
            &&& (with_deltas(previous, iface).tx_bytes_delta matches Some(d) ==> p.tx_bytes + d
                == iface.tx_bytes)
        },
{
}

proof fn lemma_interface_from_is_first_match(
    ifaces: Seq<NetworkInterfaceView>,
    name: Seq<char>,
    j: int,
)
    requires
        0 <= j <= ifaces.len(),
    ensures
        interface_named_from(ifaces, name, j) matches Some(p) ==> exists|k: int|
            j <= k < ifaces.len() && ifaces[k] == p && p.name == name && forall|m: int|
                j <= m < k ==> (#[trigger] ifaces[m]).name != name,
    decreases ifaces.len() - j,
{
    if j < ifaces.len() {
        lemma_interface_from_is_first_match(ifaces, name, j + 1);
        if ifaces[j].name != name {
            if let Some(p) = interface_named_from(ifaces, name, j + 1) {
                let k = choose|k: int|
                    j + 1 <= k < ifaces.len() && ifaces[k] == p && p.name == name && forall|m: int|
                        j + 1 <= m < k ==> (#[trigger] ifaces[m]).name != name;
                assert(forall|m: int| j <= m < k ==> (#[trigger] ifaces[m]).name != name);
            }
        }
    }
}

/// Looking an interface up by name finds the first interface with that name.
pub proof fn interface_lookup_finds_the_first_matching_interface(
    ifaces: Seq<NetworkInterfaceView>,
    j: int,
)
    requires
        0 <= j < ifaces.len(),
        forall|m: int| 0 <= m < j ==> (#[trigger] ifaces[m]).name != ifaces[j].name,
    ensures
        interface_named(ifaces, ifaces[j].name) == Some(ifaces[j]),
{
    let name = ifaces[j].name;
    lemma_interface_from_is_first_match(ifaces, name, 0);
    if interface_named(ifaces, name) is None {
        lemma_no_interface_before(ifaces, name, 0, j);
    }
}

proof fn lemma_no_interface_before(
    ifaces: Seq<NetworkInterfaceView>,
    name: Seq<char>,
    k: int,
    j: int,
)
    requires
        0 <= k <= j < ifaces.len(),
        ifaces[j].name == name,
    ensures
        interface_named_from(ifaces, name, k) is Some,
    decreases j - k,
{
    if k < j && ifaces[k].name != name {
        lemma_no_interface_before(ifaces, name, k + 1, j);
    }
}

/// Each interface gets its byte deltas against the previous reading of the
/// interface with the same name (the first such, should there be several):
/// the growth of each counter, or none for a counter that went backwards.
/// Its own counters and name are kept.
pub proof fn interfaces_are_measured_against_their_own_previous_reading(
    previous: Seq<NetworkInterfaceView>,
    current: Seq<NetworkInterfaceView>,
    i: int,
    j: int,
)
    requires
        0 <= i < current.len(),
        0 <= j < previous.len(),
        previous[j].name == current[i].name,
        forall|m: int| 0 <= m < j ==> (#[trigger] previous[m]).name != current[i].name,
    ensures
        ({
            let filled = filled_network(previous, current)[i];
            &&& filled.name == current[i].name
            &&& filled.rx_bytes == current[i].rx_bytes
            &&& filled.tx_bytes == current[i].tx_bytes
            &&& (current[i].rx_bytes >= previous[j].rx_bytes ==> filled.rx_bytes_delta == Some(
                (current[i].rx_bytes - previous[j].rx_bytes) as u64,
            ))
            &&& (current[i].rx_bytes < previous[j].rx_bytes ==> filled.rx_bytes_delta is None)
            &&& (current[i].tx_bytes >= previous[j].tx_bytes ==> filled.tx_bytes_delta == Some(
                (current[i].tx_bytes - previous[j].tx_bytes) as u64,
            ))
            &&& (current[i].tx_bytes < previous[j].tx_bytes ==> filled.tx_bytes_delta is None)
        }),
{
    interface_lookup_finds_the_first_matching_interface(previous, j);
}

fn find_interface(ifaces: &Vec<NetworkInterface>, name: &String) -> (r: Option<(u64, u64)>)
    ensures
        match interface_named(interface_views(ifaces@), name@) {
            Some(p) => r == Some((p.rx_bytes, p.tx_bytes)),
            None => r is None,
        },
{
    let ghost vs = interface_views(ifaces@);
    let mut j: usize = 0;
    while j < ifaces.len()
        invariant
            vs == interface_views(ifaces@),
            j <= ifaces@.len(),
            interface_named(vs, name@) == interface_named_from(vs, name@, j as int),
        decreases ifaces.len() - j,
    {
        assert(vs[j as int] == ifaces@[j as int]@);
        if ifaces[j].name == *name {
            return Some((ifaces[j].rx_bytes, ifaces[j].tx_bytes));
        }
        j = j + 1;
    }
    None
}

/// `current` with the byte deltas of each interface measured against
/// `previous`.
pub open spec fn filled_network(
    previous: Seq<NetworkInterfaceView>,
    current: Seq<NetworkInterfaceView>,
) -> Seq<NetworkInterfaceView> {
    current.map_values(|i: NetworkInterfaceView| with_deltas(previous, i))
}

/// Fills the received and transmitted byte deltas of every interface present
/// in both samples.
pub fn fill_network_deltas(current: &mut NetworkMetrics, previous: &NetworkMetrics)
    ensures
        final(current)@.len() == old(current)@.len(),
        forall|i: int|
            0 <= i < final(current)@.len() ==> #[trigger] final(current)@[i] == with_deltas(
                previous@,
                old(current)@[i],
            ),
        final(current)@ == filled_network(previous@, old(current)@),
{
    let ghost before_fill = current@;
    let mut pending: Vec<NetworkInterface> = Vec::new();
    std::mem::swap(&mut pending, &mut current.interfaces);
    let mut done: Vec<NetworkInterface> = Vec::new();
    let count = pending.len();
    let mut i: usize = 0;
    while pending.len() > 0
        invariant
            i + pending@.len() == before_fill.len(),
            before_fill.len() == count,
            forall|j: int| 0 <= j < pending@.len() ==> #[trigger] pending@[j]@ == before_fill[i + j],
            done@.len() == i,
            forall|j: int|
                0 <= j < i ==> #[trigger] done@[j]@ == with_deltas(previous@, before_fill[j]),
        decreases pending.len(),
    {
        let ghost before = pending@;
        let mut iface = pending.remove(0);
        assert(iface@ == before_fill[i as int]);
        assert forall|j: int| 0 <= j < pending@.len() implies #[trigger] pending@[j]@
            == before_fill[i + 1 + j] by {
            assert(pending@[j] == before[j + 1]);
        }
        match find_interface(&previous.interfaces, &iface.name) {
            None => {},
            Some((rx, tx)) => {
                iface.rx_bytes_delta = counter_delta(rx, iface.rx_bytes);
                iface.tx_bytes_delta = counter_delta(tx, iface.tx_bytes);
            },
        }
        done.push(iface);
        i = i + 1;
    }
    current.interfaces = done;
    assert(current@ =~= filled_network(previous@, before_fill));
}

} // verus!
