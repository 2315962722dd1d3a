//! CPU times from `/proc/stat`.

use vstd::prelude::*;

use super::{ParseError, ParseErrorView};
use crate::text::{
    blank, chars_of, is_blank, lines, parse_u32, parse_u32_spec, parse_u64, parse_u64_spec,
    split_lines, split_words, starts_with, views, words,
};

verus! {

/// CPU times read from `/proc/stat`.
///
/// Values are clock ticks in `USER_HZ` (conventionally 100 per second). Guest
/// time is already included in user and nice time and is not added again when
/// computing totals.
#[derive(Clone, Copy, Debug, PartialEq, Eq)]
pub struct CpuTimes {
    /// Ticks spent in user mode.
    pub user_ticks: u64,
    /// Ticks spent in user mode with low priority.
    pub nice_ticks: u64,
    /// Ticks spent in system mode.
    pub system_ticks: u64,
    /// Ticks spent idle.
    pub idle_ticks: u64,
    /// Ticks waiting for I/O to complete.
    pub iowait_ticks: u64,
    /// Ticks servicing hardware interrupts.
    pub irq_ticks: u64,
    /// Ticks servicing software interrupts.
    pub softirq_ticks: u64,
    /// Ticks stolen by other virtual machines.
    pub steal_ticks: u64,
    /// Ticks spent running a virtual CPU for a guest.
    pub guest_ticks: u64,
    /// Ticks spent running a low-priority virtual CPU for a guest.
    pub guest_nice_ticks: u64,
}

/// Busy ticks out of a non-zero number of ticks: a utilization of
/// `busy_ticks / total_ticks`.
#[derive(Clone, Copy, Debug, PartialEq, Eq)]
pub struct BusyShare {
    /// Ticks that were not idle.
    pub busy_ticks: u128,
    /// All ticks counted.
    pub total_ticks: u128,
}

/// CPU times of one logical CPU.
#[derive(Clone, Copy, Debug, PartialEq, Eq)]
pub struct CpuCore {
    /// Logical CPU identifier.
    pub id: u32,
    /// Utilization over the interval since the previous sample. `None` on the
    /// first sample, after a counter reset, and for a core seen for the first
    /// time.
    pub interval_usage: Option<BusyShare>,
    /// CPU times for this core.
    pub times: CpuTimes,
}

/// Aggregate and per-core CPU metrics.
#[derive(Clone, Debug, PartialEq, Eq)]
pub struct CpuMetrics {
    /// Utilization over the interval since the previous sample. `None` on the
    /// first sample and after a counter reset.
    pub interval_usage: Option<BusyShare>,
    /// Aggregate CPU times across all cores.
    pub total: CpuTimes,
    /// One entry per logical CPU.
    pub cores: Vec<CpuCore>,
}

/// The mathematical content of [`CpuMetrics`].
pub struct CpuMetricsView {
    pub interval_usage: Option<BusyShare>,
    pub total: CpuTimes,
    pub cores: Seq<CpuCore>,
}

impl View for CpuMetrics {
    type V = CpuMetricsView;

    open spec fn view(&self) -> CpuMetricsView {
        CpuMetricsView { interval_usage: self.interval_usage, total: self.total, cores: self.cores@ }
    }
}

impl CpuMetrics {
    /// A copy of these metrics.
    pub fn duplicate(&self) -> (r: CpuMetrics)
        ensures
            r@ == self@,
    {
        let mut cores: Vec<CpuCore> = Vec::new();
        let mut i: usize = 0;
        while i < self.cores.len()
            invariant
                i <= self.cores@.len(),
                cores@ == self.cores@.take(i as int),
            decreases self.cores.len() - i,
        {
            cores.push(self.cores[i]);
            i = i + 1;
            assert(cores@ =~= self.cores@.take(i as int));
        }
        assert(self.cores@.take(i as int) =~= self.cores@);
        CpuMetrics { interval_usage: self.interval_usage, total: self.total, cores }
    }
}

/// All ticks of `t`, guest time excluded because user and nice time hold it.
pub open spec fn total_of(t: CpuTimes) -> int {
    t.user_ticks + t.nice_ticks + t.system_ticks + t.idle_ticks + t.iowait_ticks + t.irq_ticks
        + t.softirq_ticks + t.steal_ticks
}

/// Idle ticks of `t`, time waiting for I/O included.
pub open spec fn idle_of(t: CpuTimes) -> int {
    t.idle_ticks + t.iowait_ticks
}

/// A well-formed share: busy ticks never exceed a non-zero total.
pub open spec fn share_wf(s: BusyShare) -> bool {
    s.busy_ticks <= s.total_ticks && s.total_ticks > 0
}

/// The average utilization since boot that `t` records, or `None` when it
/// counts no ticks at all.
pub open spec fn usage_since_boot(t: CpuTimes) -> Option<BusyShare> {
    if total_of(t) == 0 {
        None
    } else {
        Some(
            BusyShare {
                busy_ticks: (total_of(t) - idle_of(t)) as u128,
                total_ticks: total_of(t) as u128,
            },
        )
    }
}

/// Utilization since boot is a fraction: busy ticks never exceed the total.
pub proof fn usage_since_boot_is_a_fraction(t: CpuTimes)
    ensures
        usage_since_boot(t) matches Some(s) ==> share_wf(s),
        usage_since_boot(t) is None <==> total_of(t) == 0,
{
}

/// Utilization since boot counts as busy the user, nice, system, irq,
/// softirq and steal ticks, out of those plus the idle and iowait ticks;
/// guest time, already inside user and nice time, is not counted again.
pub proof fn usage_since_boot_counts_each_tick_once(t: CpuTimes, guest: u64, guest_nice: u64)
    ensures
        usage_since_boot(t) == usage_since_boot(
            CpuTimes { guest_ticks: guest, guest_nice_ticks: guest_nice, ..t },
        ),
        usage_since_boot(t) matches Some(s) ==> s.busy_ticks == t.user_ticks + t.nice_ticks
            + t.system_ticks + t.irq_ticks + t.softirq_ticks + t.steal_ticks && s.total_ticks
            == s.busy_ticks + t.idle_ticks + t.iowait_ticks,
        usage_since_boot(t) is None <==> t.user_ticks + t.nice_ticks + t.system_ticks
            + t.idle_ticks + t.iowait_ticks + t.irq_ticks + t.softirq_ticks + t.steal_ticks == 0,
{
}

impl CpuTimes {
    /// Total ticks, excluding guest time which is already counted in user and
    /// nice time.
    pub fn total_ticks(&self) -> (r: u128)
        ensures
            r == total_of(*self),
    {
        self.user_ticks as u128 + self.nice_ticks as u128 + self.system_ticks as u128
            + self.idle_ticks as u128 + self.iowait_ticks as u128 + self.irq_ticks as u128
            + self.softirq_ticks as u128 + self.steal_ticks as u128
    }

    /// Idle ticks, including time waiting for I/O.
    pub fn idle_total_ticks(&self) -> (r: u128)
        ensures
            r == idle_of(*self),
    {
        self.idle_ticks as u128 + self.iowait_ticks as u128
    }

    /// Average utilization since boot; `None` when no tick was counted.
    pub fn usage_share(&self) -> (r: Option<BusyShare>)
        ensures
            r == usage_since_boot(*self),
            r matches Some(s) ==> share_wf(s),
    {
        let total = self.total_ticks();
        if total == 0 {
            None
        } else {
            Some(BusyShare { busy_ticks: total - self.idle_total_ticks(), total_ticks: total })
        }
    }
}

/// The name of the `i`-th tick field of a `cpu` line.
pub open spec fn tick_name(i: int) -> Seq<char> {
    if i == 0 {
        "user"@
    } else if i == 1 {
        "nice"@
    } else if i == 2 {
        "system"@
    } else if i == 3 {
        "idle"@
    } else if i == 4 {
        "iowait"@
    } else if i == 5 {
        "irq"@
    } else if i == 6 {
        "softirq"@
    } else if i == 7 {
        "steal"@
    } else if i == 8 {
        "guest"@
    } else {
        "guest_nice"@
    }
}

fn tick_field_name(i: usize) -> (s: &'static str)
    ensures
        s@ == tick_name(i as int),
{
    match i {
        0 => "user",
        1 => "nice",
        2 => "system",
        3 => "idle",
        4 => "iowait",
        5 => "irq",
        6 => "softirq",
        7 => "steal",
        8 => "guest",
        _ => "guest_nice",
    }
}

/// The `i`-th tick value: the number written there, zero when the line is
/// shorter, or the error for a value that is not a number.
pub open spec fn tick_value(values: Seq<Seq<char>>, i: int) -> Result<u64, ParseErrorView> {
    if i < values.len() {
        match parse_u64_spec(values[i]) {
            Some(v) => Ok(v),
            None => Err(ParseErrorView::InvalidValue { field: tick_name(i), value: values[i] }),
        }
    } else {
        Ok(0)
    }
}

/// The first `k` tick values, or the error of the first malformed one.
pub open spec fn tick_values(values: Seq<Seq<char>>, k: int) -> Result<Seq<u64>, ParseErrorView>
    decreases k,
{
    if k <= 0 {
        Ok(seq![])
    } else {
        match tick_values(values, k - 1) {
            Err(e) => Err(e),
            Ok(t) => match tick_value(values, k - 1) {
                Err(e) => Err(e),
                Ok(v) => Ok(t.push(v)),
            },
        }
    }
}

/// The ten tick fields in their order on a `cpu` line.
pub open spec fn times_from(t: Seq<u64>) -> CpuTimes {
    CpuTimes {
        user_ticks: t[0],
        nice_ticks: t[1],
        system_ticks: t[2],
        idle_ticks: t[3],
        iowait_ticks: t[4],
        irq_ticks: t[5],
        softirq_ticks: t[6],
        steal_ticks: t[7],
        guest_ticks: t[8],
        guest_nice_ticks: t[9],
    }
}

/// What `parse_cpu_times` gives for the values that follow a `cpu` label:
/// at least four values are required, missing trailing ones count as zero.
pub open spec fn cpu_times_outcome(values: Seq<Seq<char>>) -> Result<CpuTimes, ParseErrorView> {
    if values.len() < 4 {
        Err(ParseErrorView::MissingField("cpu times"@))
    } else {
        match tick_values(values, 10) {
            Err(e) => Err(e),
            Ok(t) => Ok(times_from(t)),
        }
    }
}

proof fn lemma_tick_values_len(values: Seq<Seq<char>>, k: int)
    requires
        k >= 0,
    ensures
        tick_values(values, k) matches Ok(t) ==> t.len() == k,
    decreases k,
{
    if k > 0 {
        lemma_tick_values_len(values, k - 1);
    }
}

proof fn lemma_tick_values_error_persists(values: Seq<Seq<char>>, k: int, j: int)
    requires
        0 <= k <= j,
        tick_values(values, k) is Err,
    ensures
        tick_values(values, j) == tick_values(values, k),
    decreases j - k,
{
    if j > k {
        lemma_tick_values_error_persists(values, k, j - 1);
    }
}

/// The number written in column `i` after a `cpu` label, zero past the end
/// of the line.
pub open spec fn column_number(values: Seq<Seq<char>>, i: int) -> u64 {
    if i < values.len() {
        parse_u64_spec(values[i]).unwrap()
    } else {
        0
    }
}

proof fn lemma_tick_values_are_columns(values: Seq<Seq<char>>, k: int)
    requires
        0 <= k <= 10,
        forall|i: int| 0 <= i < values.len() && i < 10 ==> (#[trigger] parse_u64_spec(values[i])) is Some,
    ensures
        tick_values(values, k) == Ok::<Seq<u64>, ParseErrorView>(
            Seq::new(k as nat, |i: int| column_number(values, i)),
        ),
    decreases k,
{
    if k > 0 {
        lemma_tick_values_are_columns(values, k - 1);
        if k - 1 < values.len() {
            assert(parse_u64_spec(values[k - 1]) is Some);
        }
        assert(Seq::new((k - 1) as nat, |i: int| column_number(values, i)).push(
            column_number(values, k - 1),
        ) =~= Seq::new(k as nat, |i: int| column_number(values, i)));
    } else {
        assert(Seq::new(0, |i: int| column_number(values, i)) =~= Seq::<u64>::empty());
    }
}

/// On a `cpu` line of at least four numbers, each tick field holds the number
/// of its own column, in the order of `/proc/stat`: user, nice, system, idle,
/// iowait, irq, softirq, steal, guest, guest_nice; a column past the end of
/// the line counts as zero.
pub proof fn cpu_columns_fill_their_own_fields(values: Seq<Seq<char>>)
    requires
        values.len() >= 4,
        forall|i: int| 0 <= i < values.len() && i < 10 ==> (#[trigger] parse_u64_spec(values[i])) is Some,
    ensures
        cpu_times_outcome(values) matches Ok(t) && {
            &&& t.user_ticks == column_number(values, 0)
            &&& t.nice_ticks == column_number(values, 1)
            &&& t.system_ticks == column_number(values, 2)
            &&& t.idle_ticks == column_number(values, 3)
            &&& t.iowait_ticks == column_number(values, 4)
            &&& t.irq_ticks == column_number(values, 5)
            &&& t.softirq_ticks == column_number(values, 6)
            &&& t.steal_ticks == column_number(values, 7)
            &&& t.guest_ticks == column_number(values, 8)
            &&& t.guest_nice_ticks == column_number(values, 9)
        },
{
    lemma_tick_values_are_columns(values, 10);
}

/// Parses the tick values that follow a `cpu` label.
pub fn parse_cpu_times(values: &[Vec<char>]) -> (r: Result<CpuTimes, ParseError>)
    ensures
        match r {
            Ok(t) => cpu_times_outcome(views(values@)) == Ok::<CpuTimes, ParseErrorView>(t),
            Err(e) => cpu_times_outcome(views(values@)) == Err::<CpuTimes, ParseErrorView>(e@),
        },
{
    let ghost vs = views(values@);
    if values.len() < 4 {
        return Err(ParseError::missing("cpu times"));
    }
    let mut t: Vec<u64> = Vec::new();
    let mut k: usize = 0;
    while k < 10
        invariant
            vs == views(values@),
            values@.len() >= 4,
            k <= 10,
            tick_values(vs, k as int) == Ok::<Seq<u64>, ParseErrorView>(t@),
        decreases 10 - k,
    {
        let v: u64 = if k < values.len() {
            assert(vs[k as int] == values@[k as int]@);
            match parse_u64(&values[k]) {
                Some(v) => v,
                None => {
                    let name = chars_of(tick_field_name(k));
                    let e = ParseError::invalid(&name, &values[k]);
                    proof {
                        lemma_tick_values_error_persists(vs, k + 1, 10);
                    }
                    return Err(e);
                },
            }
        } else {
            0
        };
        t.push(v);
        k = k + 1;
    }
    proof {
        lemma_tick_values_len(vs, 10);
    }
    Ok(
        CpuTimes {
            user_ticks: t[0],
            nice_ticks: t[1],
            system_ticks: t[2],
            idle_ticks: t[3],
            iowait_ticks: t[4],
            irq_ticks: t[5],
            softirq_ticks: t[6],
            steal_ticks: t[7],
            guest_ticks: t[8],
            guest_nice_ticks: t[9],
        },
    )
}

/// The aggregate line and the cores of the first `n` lines, or the error of
/// the first malformed `cpu` line. A `cpu` line replaces an earlier one; a
/// `cpuN` line adds core `N`; other lines, and `cpu` labels whose suffix is not
/// a number, are ignored.
pub open spec fn cpu_scan(ls: Seq<Seq<char>>, n: int) -> Result<
    (Option<CpuTimes>, Seq<CpuCore>),
    ParseErrorView,
>
    decreases n,
{
    if n <= 0 {
        Ok((None, seq![]))
    } else {
        match cpu_scan(ls, n - 1) {
            Err(e) => Err(e),
            Ok((aggregate, cores)) => {
                let w = words(ls[n - 1]);
                if w.len() == 0 || !(w[0].len() >= 3 && w[0].take(3) == "cpu"@) {
                    Ok((aggregate, cores))
                } else {
                    let suffix = w[0].skip(3);
                    let values = w.skip(1);
                    if suffix.len() == 0 {
                        match cpu_times_outcome(values) {
                            Err(e) => Err(e),
                            Ok(t) => Ok((Some(t), cores)),
                        }
                    } else {
                        match parse_u32_spec(suffix) {
                            None => Ok((aggregate, cores)),
                            Some(id) => match cpu_times_outcome(values) {
                                Err(e) => Err(e),
                                Ok(t) => Ok(
                                    (
                                        aggregate,
                                        cores.push(
                                            CpuCore { id, interval_usage: None, times: t },
                                        ),
                                    ),
                                ),
                            },
                        }
                    }
                }
            },
        }
    }
}

proof fn lemma_cpu_scan_error_persists(ls: Seq<Seq<char>>, k: int, j: int)
    requires
        0 <= k <= j,
        cpu_scan(ls, k) is Err,
    ensures
        cpu_scan(ls, j) == cpu_scan(ls, k),
    decreases j - k,
{
    if j > k {
        lemma_cpu_scan_error_persists(ls, k, j - 1);
    }
}

proof fn lemma_cpu_scan_has_no_interval(ls: Seq<Seq<char>>, n: int)
    ensures
        cpu_scan(ls, n) matches Ok((_, cores)) ==> forall|i: int|
            0 <= i < cores.len() ==> (#[trigger] cores[i]).interval_usage is None,
    decreases n,
{
    if n > 0 {
        lemma_cpu_scan_has_no_interval(ls, n - 1);
    }
}

/// What `parse_cpu_stat` gives for the text `s`.
pub open spec fn cpu_stat_outcome(s: Seq<char>) -> Result<CpuMetricsView, ParseErrorView> {
    if is_blank(s) {
        Err(ParseErrorView::Empty)
    } else {
        match cpu_scan(lines(s), lines(s).len() as int) {
            Err(e) => Err(e),
            Ok((None, _)) => Err(ParseErrorView::MissingField("cpu"@)),
            Ok((Some(total), cores)) => Ok(
                CpuMetricsView { interval_usage: None, total, cores },
            ),
        }
    }
}

/// Freshly parsed CPU metrics carry no interval utilization: it is absent
/// until a previous sample exists, never a synthetic zero.
pub proof fn parsed_cpu_metrics_have_no_interval(s: Seq<char>)
    ensures
        cpu_stat_outcome(s) matches Ok(m) ==> m.interval_usage is None && forall|i: int|
            0 <= i < m.cores.len() ==> (#[trigger] m.cores[i]).interval_usage is None,
{
    lemma_cpu_scan_has_no_interval(lines(s), lines(s).len() as int);
}

/// Whether line `l` is the aggregate `cpu` line: its first word is `cpu`.
pub open spec fn is_aggregate_line(l: Seq<char>) -> bool {
    words(l).len() > 0 && words(l)[0] == "cpu"@
}

/// Whether line `l` is a `cpuN` line whose label names `core.id` and whose
/// values give `core.times`.
pub open spec fn is_line_of_core(l: Seq<char>, core: CpuCore) -> bool {
    let w = words(l);
    &&& w.len() > 0
    &&& w[0].len() > 3
    &&& w[0].take(3) == "cpu"@
    &&& parse_u32_spec(w[0].skip(3)) == Some(core.id)
    &&& cpu_times_outcome(w.skip(1)) == Ok::<CpuTimes, ParseErrorView>(core.times)
}

proof fn lemma_scan_ok_before(ls: Seq<Seq<char>>, k: int, n: int)
    requires
        0 <= k <= n,
        cpu_scan(ls, n) is Ok,
    ensures
        cpu_scan(ls, k) is Ok,
{
    if cpu_scan(ls, k) is Err {
        lemma_cpu_scan_error_persists(ls, k, n);
    }
}

proof fn lemma_scan_keeps_last_aggregate(ls: Seq<Seq<char>>, j: int, n: int)
    requires
        0 <= j < n <= ls.len(),
        is_aggregate_line(ls[j]),
        forall|k: int| j < k < n ==> !is_aggregate_line(#[trigger] ls[k]),
        cpu_scan(ls, n) is Ok,
    ensures
        cpu_scan(ls, n) matches Ok((Some(t), _)) && cpu_times_outcome(words(ls[j]).skip(1))
            == Ok::<CpuTimes, ParseErrorView>(t),
    decreases n - j,
{
    reveal_strlit("cpu");
    lemma_scan_ok_before(ls, n - 1, n);
    let w = words(ls[n - 1]);
    if n - 1 == j {
        assert(w[0].take(3) =~= w[0]);
    } else {
        lemma_scan_keeps_last_aggregate(ls, j, n - 1);
        if w.len() > 0 && w[0].len() >= 3 && w[0].take(3) == "cpu"@ && w[0].skip(3).len() == 0 {
            assert(w[0] =~= w[0].take(3));
        }
    }
}

proof fn lemma_scan_cores_come_from_lines(ls: Seq<Seq<char>>, n: int)
    requires
        0 <= n <= ls.len(),
    ensures
        cpu_scan(ls, n) matches Ok((_, cores)) ==> forall|i: int|
            0 <= i < cores.len() ==> exists|j: int|
                0 <= j < n && is_line_of_core(ls[j], #[trigger] cores[i]),
    decreases n,
{
    reveal_strlit("cpu");
    if n > 0 {
        lemma_scan_cores_come_from_lines(ls, n - 1);
        if let Ok((_, cores)) = cpu_scan(ls, n) {
            lemma_scan_ok_before(ls, n - 1, n);
            let before = cpu_scan(ls, n - 1)->Ok_0.1;
            assert forall|i: int| 0 <= i < cores.len() implies exists|j: int|
                0 <= j < n && is_line_of_core(ls[j], #[trigger] cores[i]) by {
                if i < before.len() {
                    assert(cores[i] == before[i]);
                    let j = choose|j: int| 0 <= j < n - 1 && is_line_of_core(ls[j], before[i]);
                    assert(0 <= j < n && is_line_of_core(ls[j], cores[i]));
                } else {
                    assert(is_line_of_core(ls[n - 1], cores[i]));
                }
            }
        }
    }
}

/// Whether line `l` is a `cpuN` line: its first word is `cpu` followed by a
/// number.
pub open spec fn is_core_line(l: Seq<char>) -> bool {
    let w = words(l);
    &&& w.len() > 0
    &&& w[0].len() > 3
    &&& w[0].take(3) == "cpu"@
    &&& parse_u32_spec(w[0].skip(3)) is Some
}

proof fn lemma_scan_keeps_every_core_line(ls: Seq<Seq<char>>, n: int)
    requires
        0 <= n <= ls.len(),
    ensures
        cpu_scan(ls, n) matches Ok((_, cores)) ==> forall|j: int|
            0 <= j < n && is_core_line(#[trigger] ls[j]) ==> exists|i: int|
                0 <= i < cores.len() && #[trigger] is_line_of_core(ls[j], cores[i]),
    decreases n,
{
    reveal_strlit("cpu");
    if n > 0 {
        lemma_scan_keeps_every_core_line(ls, n - 1);
        if let Ok((_, cores)) = cpu_scan(ls, n) {
            lemma_scan_ok_before(ls, n - 1, n);
            let before = cpu_scan(ls, n - 1)->Ok_0.1;
            assert(before.len() <= cores.len());
            assert(forall|i: int| 0 <= i < before.len() ==> cores[i] == before[i]);
            assert forall|j: int| 0 <= j < n && is_core_line(#[trigger] ls[j]) implies exists|i: int|
                0 <= i < cores.len() && #[trigger] is_line_of_core(ls[j], cores[i]) by {
                if j < n - 1 {
                    let i = choose|i: int| 0 <= i < before.len() && is_line_of_core(ls[j], before[i]);
                    assert(is_line_of_core(ls[j], cores[i]));
                } else {
                    assert(is_line_of_core(ls[j], cores[cores.len() - 1]));
                }
            }
        }
    }
}

/// Every `cpuN` line of parsed `/proc/stat` content gives a core.
pub proof fn every_cpu_core_line_gives_a_core(s: Seq<char>)
    ensures
        cpu_stat_outcome(s) matches Ok(m) ==> forall|j: int|
            0 <= j < lines(s).len() && is_core_line(#[trigger] lines(s)[j]) ==> exists|i: int|
                0 <= i < m.cores.len() && #[trigger] is_line_of_core(lines(s)[j], m.cores[i]),
{
    let ls = lines(s);
    lemma_scan_keeps_every_core_line(ls, ls.len() as int);
    if let Ok(m) = cpu_stat_outcome(s) {
        let cores = cpu_scan(ls, ls.len() as int)->Ok_0.1;
        assert(m.cores == cores);
        assert forall|j: int| 0 <= j < ls.len() && is_core_line(#[trigger] ls[j]) implies exists|i: int|
            0 <= i < m.cores.len() && #[trigger] is_line_of_core(ls[j], m.cores[i]) by {
            let i = choose|i: int| 0 <= i < cores.len() && #[trigger] is_line_of_core(ls[j], cores[i]);
            assert(is_line_of_core(ls[j], m.cores[i]));
        }
    }
}

/// The aggregate times of parsed `/proc/stat` content are those of its last
/// line labelled `cpu`.
pub proof fn cpu_total_comes_from_the_last_cpu_line(s: Seq<char>, j: int)
    requires
        cpu_stat_outcome(s) is Ok,
        0 <= j < lines(s).len(),
        is_aggregate_line(lines(s)[j]),
        forall|k: int| j < k < lines(s).len() ==> !is_aggregate_line(#[trigger] lines(s)[k]),
    ensures
        cpu_times_outcome(words(lines(s)[j]).skip(1)) == Ok::<CpuTimes, ParseErrorView>(
            cpu_stat_outcome(s)->Ok_0.total,
        ),
{
    lemma_scan_keeps_last_aggregate(lines(s), j, lines(s).len() as int);
}

/// Every core of parsed `/proc/stat` content comes from a `cpuN` line that
/// names its identifier and gives its times.
pub proof fn cpu_cores_come_from_their_own_lines(s: Seq<char>)
    ensures
        cpu_stat_outcome(s) matches Ok(m) ==> forall|i: int|
            0 <= i < m.cores.len() ==> exists|j: int|
                0 <= j < lines(s).len() && is_line_of_core(lines(s)[j], #[trigger] m.cores[i]),
{
    lemma_scan_cores_come_from_lines(lines(s), lines(s).len() as int);
}

/// Parses `/proc/stat` content into aggregate and per-core CPU times.
pub fn parse_cpu_stat(input: &str) -> (r: Result<CpuMetrics, ParseError>)
    ensures
        match r {
            Ok(m) => cpu_stat_outcome(input@) == Ok::<CpuMetricsView, ParseErrorView>(m@),
            Err(e) => cpu_stat_outcome(input@) == Err::<CpuMetricsView, ParseErrorView>(e@),
        },
{
    let s = chars_of(input);
    if blank(&s) {
        return Err(ParseError::Empty);
    }
    let all = split_lines(&s);
    let ghost ls = lines(s@);
    let cpu = chars_of("cpu");
    proof {
        reveal_strlit("cpu");
    }

    let mut aggregate: Option<CpuTimes> = None;
    let mut cores: Vec<CpuCore> = Vec::new();
    let mut n: usize = 0;
    while n < all.len()
        invariant
            s@ == input@,
            !is_blank(s@),
            ls == lines(s@),
            views(all@) == ls,
            cpu@ == "cpu"@,
            cpu@.len() == 3,
            n <= all@.len(),
            cpu_scan(ls, n as int) == Ok::<(Option<CpuTimes>, Seq<CpuCore>), ParseErrorView>(
                (aggregate, cores@),
            ),
        decreases all.len() - n,
    {
        let w = split_words(&all[n]);
        assert(all@[n as int]@ == ls[n as int]);
        if w.len() > 0 && starts_with(&w[0], &cpu) {
            assert(views(w@)[0] == w@[0]@);
            let label = &w[0];
            let suffix = crate::text::copy_range(label, 3, label.len());
            let values = crate::text::copy_tail(&w, 1);
            assert(views(values@) =~= views(w@).skip(1));
            assert(suffix@ =~= label@.skip(3));
            if suffix.len() == 0 {
                match parse_cpu_times(&values) {
                    Err(e) => {
                        proof {
                            lemma_cpu_scan_error_persists(ls, n + 1, ls.len() as int);
                        }
                        return Err(e);
                    },
                    Ok(t) => {
                        aggregate = Some(t);
                    },
                }
            } else {
                match parse_u32(&suffix) {
                    None => {},
                    Some(id) => {
                        match parse_cpu_times(&values) {
                            Err(e) => {
                                proof {
                                    lemma_cpu_scan_error_persists(ls, n + 1, ls.len() as int);
                                }
                                return Err(e);
                            },
                            Ok(t) => {
                                cores.push(CpuCore { id, interval_usage: None, times: t });
                            },
                        }
                    },
                }
            }
        }
        n = n + 1;
    }
    match aggregate {
        None => Err(ParseError::missing("cpu")),
        Some(total) => Ok(CpuMetrics { interval_usage: None, total, cores }),
    }
}

} // verus!
