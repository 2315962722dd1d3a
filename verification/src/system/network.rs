//! Interface counters from `/proc/net/dev`.

use vstd::prelude::*;

use super::cpu::column_number;
use super::{ParseError, ParseErrorView};
use crate::text::{
    chars_of, copy_range, find, find_char, lines, parse_u64, parse_u64_spec, split_lines,
    split_words, string_from, trim, trimmed, views, words,
};

verus! {

/// An interface entry from `/proc/net/dev`.
#[derive(Clone, Debug, PartialEq, Eq)]
pub struct NetworkInterface {
    /// Interface name.
    pub name: String,
    /// Bytes received since boot.
    pub rx_bytes: u64,
    /// Packets received since boot.
    pub rx_packets: u64,
    /// Receive errors since boot.
    pub rx_errors: u64,
    /// Received packets dropped since boot.
    pub rx_dropped: u64,
    /// Bytes transmitted since boot.
    pub tx_bytes: u64,
    /// Packets transmitted since boot.
    pub tx_packets: u64,
    /// Transmit errors since boot.
    pub tx_errors: u64,
    /// Transmitted packets dropped since boot.
    pub tx_dropped: u64,
    /// Bytes received since the previous sample. `None` on the first sample,
    /// after a counter reset, and for an interface seen for the first time.
    pub rx_bytes_delta: Option<u64>,
    /// Bytes transmitted since the previous sample, under the same rules.
    pub tx_bytes_delta: Option<u64>,
}

/// The mathematical content of a [`NetworkInterface`].
pub struct NetworkInterfaceView {
    pub name: Seq<char>,
    pub rx_bytes: u64,
    pub rx_packets: u64,
    pub rx_errors: u64,
    pub rx_dropped: u64,
    pub tx_bytes: u64,
    pub tx_packets: u64,
    pub tx_errors: u64,
    pub tx_dropped: u64,
    pub rx_bytes_delta: Option<u64>,
    pub tx_bytes_delta: Option<u64>,
}

impl View for NetworkInterface {
    type V = NetworkInterfaceView;

    open spec fn view(&self) -> NetworkInterfaceView {
        NetworkInterfaceView {
            name: self.name@,
            rx_bytes: self.rx_bytes,
            rx_packets: self.rx_packets,
            rx_errors: self.rx_errors,
            rx_dropped: self.rx_dropped,
            tx_bytes: self.tx_bytes,
            tx_packets: self.tx_packets,
            tx_errors: self.tx_errors,
            tx_dropped: self.tx_dropped,
            rx_bytes_delta: self.rx_bytes_delta,
            tx_bytes_delta: self.tx_bytes_delta,
        }
    }
}

/// Per-interface network counters.
#[derive(Clone, Debug, PartialEq, Eq)]
pub struct NetworkMetrics {
    /// One entry per network interface.
    pub interfaces: Vec<NetworkInterface>,
}

/// The views of a sequence of interfaces.
pub open spec fn interface_views(v: Seq<NetworkInterface>) -> Seq<NetworkInterfaceView> {
    v.map_values(|i: NetworkInterface| i@)
}

impl View for NetworkMetrics {
    type V = Seq<NetworkInterfaceView>;

    open spec fn view(&self) -> Seq<NetworkInterfaceView> {
        interface_views(self.interfaces@)
    }
}

impl NetworkInterface {
    /// A copy of this interface entry.
    pub fn duplicate(&self) -> (r: NetworkInterface)
        ensures
            r@ == self@,
    {
        NetworkInterface {
            name: self.name.clone(),
            rx_bytes: self.rx_bytes,
            rx_packets: self.rx_packets,
            rx_errors: self.rx_errors,
            rx_dropped: self.rx_dropped,
            tx_bytes: self.tx_bytes,
            tx_packets: self.tx_packets,
            tx_errors: self.tx_errors,
            tx_dropped: self.tx_dropped,
            rx_bytes_delta: self.rx_bytes_delta,
            tx_bytes_delta: self.tx_bytes_delta,
        }
    }
}

impl NetworkMetrics {
    /// A copy of these metrics.
    pub fn duplicate(&self) -> (r: NetworkMetrics)
        ensures
            r@ == self@,
    {
        let mut interfaces: Vec<NetworkInterface> = Vec::new();
        let mut i: usize = 0;
        while i < self.interfaces.len()
            invariant
                i <= self.interfaces@.len(),
                interface_views(interfaces@) == interface_views(self.interfaces@).take(i as int),
            decreases self.interfaces.len() - i,
        {
            let item = self.interfaces[i].duplicate();
            proof {
                assert(interface_views(interfaces@.push(item)) =~= interface_views(interfaces@).push(
                    item@,
                ));
            }
            interfaces.push(item);
            i = i + 1;
            assert(interface_views(interfaces@) =~= interface_views(self.interfaces@).take(
                i as int,
            ));
        }
        assert(interface_views(self.interfaces@).take(i as int) =~= interface_views(
            self.interfaces@,
        ));
        NetworkMetrics { interfaces }
    }
}

/// The column that the `k`-th counter comes from.
pub open spec fn counter_column(k: int) -> int {
    if k < 4 {
        k
    } else {
        k + 4
    }
}

/// The name of the `k`-th counter.
pub open spec fn counter_name(k: int) -> Seq<char> {
    if k == 0 {
        "rx_bytes"@
    } else if k == 1 {
        "rx_packets"@
    } else if k == 2 {
        "rx_errors"@
    } else if k == 3 {
        "rx_dropped"@
    } else if k == 4 {
        "tx_bytes"@
    } else if k == 5 {
        "tx_packets"@
    } else if k == 6 {
        "tx_errors"@
    } else {
        "tx_dropped"@
    }
}

fn counter_field_name(k: usize) -> (s: &'static str)
    ensures
        s@ == counter_name(k as int),
{
    match k {
        0 => "rx_bytes",
        1 => "rx_packets",
        2 => "rx_errors",
        3 => "rx_dropped",
        4 => "tx_bytes",
        5 => "tx_packets",
        6 => "tx_errors",
        _ => "tx_dropped",
    }
}

/// The `k`-th counter: the number in its column, zero when the line is
/// shorter, or the error for a value that is not a number.
pub open spec fn counter_value(values: Seq<Seq<char>>, k: int) -> Result<u64, ParseErrorView> {
    let col = counter_column(k);
    if col < values.len() {
        match parse_u64_spec(values[col]) {
            Some(v) => Ok(v),
            None => Err(ParseErrorView::InvalidValue { field: counter_name(k), value: values[col] }),
        }
    } else {
        Ok(0)
    }
}

/// The first `k` counters, or the error of the first malformed one.
pub open spec fn counter_values(values: Seq<Seq<char>>, k: int) -> Result<
    Seq<u64>,
    ParseErrorView,
>
    decreases k,
{
    if k <= 0 {
        Ok(seq![])
    } else {
        match counter_values(values, k - 1) {
            Err(e) => Err(e),
            Ok(t) => match counter_value(values, k - 1) {
                Err(e) => Err(e),
                Ok(v) => Ok(t.push(v)),
            },
        }
    }
}

proof fn lemma_counter_values_len(values: Seq<Seq<char>>, k: int)
    requires
        k >= 0,
    ensures
        counter_values(values, k) matches Ok(t) ==> t.len() == k,
    decreases k,
{
    if k > 0 {
        lemma_counter_values_len(values, k - 1);
    }
}

proof fn lemma_counter_values_error_persists(values: Seq<Seq<char>>, k: int, j: int)
    requires
        0 <= k <= j,
        counter_values(values, k) is Err,
    ensures
        counter_values(values, j) == counter_values(values, k),
    decreases j - k,
{
    if j > k {
        lemma_counter_values_error_persists(values, k, j - 1);
    }
}

/// The interface that a name and its eight counters describe.
pub open spec fn interface_from(name: Seq<char>, t: Seq<u64>) -> NetworkInterfaceView {
    NetworkInterfaceView {
        name,
        rx_bytes: t[0],
        rx_packets: t[1],
        rx_errors: t[2],
        rx_dropped: t[3],
        tx_bytes: t[4],
        tx_packets: t[5],
        tx_errors: t[6],
        tx_dropped: t[7],
        rx_bytes_delta: None,
        tx_bytes_delta: None,
    }
}

/// The interfaces of the first `n` lines, or the error of the first malformed
/// counter. A line without `':'`, or with fewer than nine values after it, is
/// not an interface.
pub open spec fn net_dev_scan(ls: Seq<Seq<char>>, n: int) -> Result<
    Seq<NetworkInterfaceView>,
    ParseErrorView,
>
    decreases n,
{
    if n <= 0 {
        Ok(seq![])
    } else {
        match net_dev_scan(ls, n - 1) {
            Err(e) => Err(e),
            Ok(found) => {
                let line = ls[n - 1];
                match find(line, ':') {
                    None => Ok(found),
                    Some(k) => {
                        let values = words(line.skip(k + 1));
                        if values.len() < 9 {
                            Ok(found)
                        } else {
                            match counter_values(values, 8) {
                                Err(e) => Err(e),
                                Ok(t) => Ok(found.push(interface_from(trim(line.take(k)), t))),
                            }
                        }
                    },
                }
            },
        }
    }
}

proof fn lemma_net_dev_scan_error_persists(ls: Seq<Seq<char>>, k: int, j: int)
    requires
        0 <= k <= j,
        net_dev_scan(ls, k) is Err,
    ensures
        net_dev_scan(ls, j) == net_dev_scan(ls, k),
    decreases j - k,
{
    if j > k {
        lemma_net_dev_scan_error_persists(ls, k, j - 1);
    }
}

/// What `parse_net_dev` gives for the text `s`.
pub open spec fn net_dev_outcome(s: Seq<char>) -> Result<
    Seq<NetworkInterfaceView>,
    ParseErrorView,
> {
    match net_dev_scan(lines(s), lines(s).len() as int) {
        Err(e) => Err(e),
        Ok(found) => if found.len() == 0 {
            Err(ParseErrorView::MissingField("interfaces"@))
        } else {
            Ok(found)
        },
    }
}

proof fn lemma_net_dev_scan_has_no_deltas(ls: Seq<Seq<char>>, n: int)
    ensures
        net_dev_scan(ls, n) matches Ok(found) ==> forall|i: int|
            0 <= i < found.len() ==> (#[trigger] found[i]).rx_bytes_delta is None && found[i].tx_bytes_delta
                is None,
    decreases n,
{
    if n > 0 {
        lemma_net_dev_scan_has_no_deltas(ls, n - 1);
    }
}

/// Freshly parsed interfaces carry no byte deltas: they are absent until a
/// previous sample exists, never a synthetic zero.
pub proof fn parsed_interfaces_have_no_deltas(s: Seq<char>)
    ensures
        net_dev_outcome(s) matches Ok(found) ==> forall|i: int|
            0 <= i < found.len() ==> (#[trigger] found[i]).rx_bytes_delta is None && found[i].tx_bytes_delta
                is None,
{
    lemma_net_dev_scan_has_no_deltas(lines(s), lines(s).len() as int);
}

/// Whether `iface`, as parsed, is what line `l` describes: the text before
/// the first `':'`, trimmed, is its name; the values after it, in
/// `/proc/net/dev` column order, are its received bytes, packets, errors and
/// drops (columns 0 to 3) and its transmitted bytes, packets, errors and drops
/// (columns 8 to 11, zero past the end of the line); it has no deltas.
pub open spec fn is_line_of_interface(l: Seq<char>, iface: NetworkInterfaceView) -> bool {
    exists|k: int| find(l, ':') == Some(k) && #[trigger] describes_interface(l, k, iface)
}

/// Whether `iface` is what line `l` describes when its first `':'` stands at
/// index `k`.
pub open spec fn describes_interface(l: Seq<char>, k: int, iface: NetworkInterfaceView) -> bool {
    let values = words(l.skip(k + 1));
    &&& values.len() >= 9
    &&& iface.name == trim(l.take(k))
    &&& iface.rx_bytes == column_number(values, 0)
    &&& iface.rx_packets == column_number(values, 1)
    &&& iface.rx_errors == column_number(values, 2)
    &&& iface.rx_dropped == column_number(values, 3)
    &&& iface.tx_bytes == column_number(values, 8)
    &&& iface.tx_packets == column_number(values, 9)
    &&& iface.tx_errors == column_number(values, 10)
    &&& iface.tx_dropped == column_number(values, 11)
    &&& iface.rx_bytes_delta is None
    &&& iface.tx_bytes_delta is None
}

proof fn lemma_counter_values_are_columns(values: Seq<Seq<char>>, k: int)
    requires
        0 <= k <= 8,
        counter_values(values, k) is Ok,
    ensures
        counter_values(values, k) == Ok::<Seq<u64>, ParseErrorView>(
            Seq::new(k as nat, |i: int| column_number(values, counter_column(i))),
        ),
    decreases k,
{
    if k > 0 {
        if counter_values(values, k - 1) is Err {
            lemma_counter_values_error_persists(values, k - 1, k);
        }
        lemma_counter_values_are_columns(values, k - 1);
        assert(Seq::new((k - 1) as nat, |i: int| column_number(values, counter_column(i))).push(
            column_number(values, counter_column(k - 1)),
        ) =~= Seq::new(k as nat, |i: int| column_number(values, counter_column(i))));
    } else {
        assert(Seq::new(0, |i: int| column_number(values, counter_column(i))) =~= Seq::<
            u64,
        >::empty());
    }
}

proof fn lemma_scan_interfaces_come_from_lines(ls: Seq<Seq<char>>, n: int)
    requires
        0 <= n <= ls.len(),
    ensures
        net_dev_scan(ls, n) matches Ok(found) ==> forall|i: int|
            0 <= i < found.len() ==> exists|j: int|
                0 <= j < n && is_line_of_interface(ls[j], #[trigger] found[i]),
    decreases n,
{
    if n > 0 {
        lemma_scan_interfaces_come_from_lines(ls, n - 1);
        if let Ok(found) = net_dev_scan(ls, n) {
            if net_dev_scan(ls, n - 1) is Err {
                lemma_net_dev_scan_error_persists(ls, n - 1, n);
            }
            let before = net_dev_scan(ls, n - 1)->Ok_0;
            let line = ls[n - 1];
            if let Some(k) = find(line, ':') {
                let values = words(line.skip(k + 1));
                if values.len() >= 9 {
                    lemma_counter_values_are_columns(values, 8);
                    if counter_values(values, 8) is Ok {
                        let t = counter_values(values, 8)->Ok_0;
                        assert(found[found.len() - 1] == interface_from(trim(line.take(k)), t));
                        assert(t[4] == column_number(values, 8));
                        assert(t[5] == column_number(values, 9));
                        assert(t[6] == column_number(values, 10));
                        assert(t[7] == column_number(values, 11));
                        assert(t[0] == column_number(values, 0));
                        assert(t[1] == column_number(values, 1));
                        assert(t[2] == column_number(values, 2));
                        assert(t[3] == column_number(values, 3));
                        let iface = found[found.len() - 1];
                        assert(find(line, ':') == Some(k));
                        assert(iface.name == trim(line.take(k)));
                        assert(iface.rx_bytes_delta is None);
                        assert(describes_interface(line, k, iface));
                        assert(is_line_of_interface(line, iface));
                    }
                }
            }
            assert forall|i: int| 0 <= i < found.len() implies exists|j: int|
                0 <= j < n && is_line_of_interface(ls[j], #[trigger] found[i]) by {
                if i < before.len() {
                    assert(found[i] == before[i]);
                    let j = choose|j: int| 0 <= j < n - 1 && is_line_of_interface(ls[j], before[i]);
                    assert(0 <= j < n && is_line_of_interface(ls[j], found[i]));
                }
            }
        }
    }
}

/// Whether line `l` is an interface line: it has a `':'` with at least
/// nine values after the first one.
pub open spec fn is_interface_line(l: Seq<char>) -> bool {
    find(l, ':') matches Some(k) && words(l.skip(k + 1)).len() >= 9
}

proof fn lemma_scan_keeps_every_interface_line(ls: Seq<Seq<char>>, n: int)
    requires
        0 <= n <= ls.len(),
    ensures
        net_dev_scan(ls, n) matches Ok(found) ==> forall|j: int|
            0 <= j < n && is_interface_line(#[trigger] ls[j]) ==> exists|i: int|
                0 <= i < found.len() && #[trigger] is_line_of_interface(ls[j], found[i]),
    decreases n,
{
    if n > 0 {
        lemma_scan_keeps_every_interface_line(ls, n - 1);
        lemma_scan_interfaces_come_from_lines(ls, n);
        if let Ok(found) = net_dev_scan(ls, n) {
            if net_dev_scan(ls, n - 1) is Err {
                lemma_net_dev_scan_error_persists(ls, n - 1, n);
            }
            let before = net_dev_scan(ls, n - 1)->Ok_0;
            assert(forall|i: int| 0 <= i < before.len() ==> found[i] == before[i]);
            assert forall|j: int| 0 <= j < n && is_interface_line(#[trigger] ls[j]) implies exists|
                i: int,
            | 0 <= i < found.len() && #[trigger] is_line_of_interface(ls[j], found[i]) by {
                if j < n - 1 {
                    let i = choose|i: int|
                        0 <= i < before.len() && #[trigger] is_line_of_interface(ls[j], before[i]);
                    assert(is_line_of_interface(ls[j], found[i]));
                } else {
                    let line = ls[n - 1];
                    let k = find(line, ':')->Some_0;
                    let values = words(line.skip(k + 1));
                    lemma_counter_values_are_columns(values, 8);
                    let t = counter_values(values, 8)->Ok_0;
                    let iface = found[found.len() - 1];
                    assert(iface == interface_from(trim(line.take(k)), t));
                    assert(t[0] == column_number(values, 0));
                    assert(t[1] == column_number(values, 1));
                    assert(t[2] == column_number(values, 2));
                    assert(t[3] == column_number(values, 3));
                    assert(t[4] == column_number(values, 8));
                    assert(t[5] == column_number(values, 9));
                    assert(t[6] == column_number(values, 10));
                    assert(t[7] == column_number(values, 11));
                    assert(describes_interface(line, k, iface));
                    assert(is_line_of_interface(line, iface));
                }
            }
        }
    }
}

/// Every interface line of parsed `/proc/net/dev` content gives an
/// interface.
pub proof fn every_interface_line_gives_an_interface(s: Seq<char>)
    ensures
        net_dev_outcome(s) matches Ok(found) ==> forall|j: int|
            0 <= j < lines(s).len() && is_interface_line(#[trigger] lines(s)[j]) ==> exists|i: int|
                0 <= i < found.len() && #[trigger] is_line_of_interface(lines(s)[j], found[i]),
{
    lemma_scan_keeps_every_interface_line(lines(s), lines(s).len() as int);
}

/// Every parsed interface is what one line of the content describes: its name
/// before the colon and its counters in their own columns after it.
pub proof fn parsed_interfaces_come_from_their_own_lines(s: Seq<char>)
    ensures
        net_dev_outcome(s) matches Ok(found) ==> forall|i: int|
            0 <= i < found.len() ==> exists|j: int|
                0 <= j < lines(s).len() && is_line_of_interface(lines(s)[j], #[trigger] found[i]),
{
    lemma_scan_interfaces_come_from_lines(lines(s), lines(s).len() as int);
}

/// Parses the counters of one interface line.
fn parse_counters(values: &[Vec<char>]) -> (r: Result<Vec<u64>, ParseError>)
    ensures
        match r {
            Ok(t) => counter_values(views(values@), 8) == Ok::<Seq<u64>, ParseErrorView>(t@),
            Err(e) => counter_values(views(values@), 8) == Err::<Seq<u64>, ParseErrorView>(e@),
        },
{
    let ghost vs = views(values@);
    let mut t: Vec<u64> = Vec::new();
    let mut k: usize = 0;
    while k < 8
        invariant
            vs == views(values@),
            k <= 8,
            counter_values(vs, k as int) == Ok::<Seq<u64>, ParseErrorView>(t@),
        decreases 8 - k,
    {
        let col = if k < 4 {
            k
        } else {
            k + 4
        };
        let v: u64 = if col < values.len() {
            assert(vs[col as int] == values@[col as int]@);
            match parse_u64(&values[col]) {
                Some(v) => v,
                None => {
                    let name = chars_of(counter_field_name(k));
                    let e = ParseError::invalid(&name, &values[col]);
                    proof {
                        lemma_counter_values_error_persists(vs, k + 1, 8);
                    }
                    return Err(e);
                },
            }
        } else {
            0
        };
        t.push(v);
        k = k + 1;
    }
    Ok(t)
}

/// Parses `/proc/net/dev` content into per-interface counters.
pub fn parse_net_dev(input: &str) -> (r: Result<NetworkMetrics, ParseError>)
    ensures
        match r {
            Ok(m) => net_dev_outcome(input@) == Ok::<Seq<NetworkInterfaceView>, ParseErrorView>(
                m@,
            ),
            Err(e) => net_dev_outcome(input@) == Err::<Seq<NetworkInterfaceView>, ParseErrorView>(
                e@,
            ),
        },
{
    let s = chars_of(input);
    let all = split_lines(&s);
    let ghost ls = lines(s@);
    let mut interfaces: Vec<NetworkInterface> = Vec::new();
    assert(interface_views(interfaces@) =~= Seq::<NetworkInterfaceView>::empty());
    let mut n: usize = 0;
    while n < all.len()
        invariant
            s@ == input@,
            ls == lines(s@),
            views(all@) == ls,
            n <= all@.len(),
            net_dev_scan(ls, n as int) == Ok::<Seq<NetworkInterfaceView>, ParseErrorView>(
                interface_views(interfaces@),
            ),
        decreases all.len() - n,
    {
        let line = &all[n];
        assert(line@ == ls[n as int]);
        match find_char(line, ':') {
            None => {},
            Some(k) => {
                assert(k < line.len());
                let rest = copy_range(line, k + 1, line.len());
                assert(rest@ =~= line@.skip(k + 1));
                let values = split_words(&rest);
                if values.len() >= 9 {
                    match parse_counters(&values) {
                        Err(e) => {
                            proof {
                                assert(find(ls[n as int], ':') == Some(k as int));
                                assert(views(values@) == words(ls[n as int].skip(k + 1)));
                                assert(net_dev_scan(ls, n + 1) == Err::<Seq<NetworkInterfaceView>, ParseErrorView>(e@));
                                lemma_net_dev_scan_error_persists(ls, n + 1, ls.len() as int);
                            }
                            return Err(e);
                        },
                        Ok(t) => {
                            proof {
                                lemma_counter_values_len(views(values@), 8);
                            }
                            let head = copy_range(line, 0, k);
                            assert(head@ =~= line@.take(k as int));
                            let name = trimmed(&head);
                            let iface = NetworkInterface {
                                name: string_from(&name),
                                rx_bytes: t[0],
                                rx_packets: t[1],
                                rx_errors: t[2],
                                rx_dropped: t[3],
                                tx_bytes: t[4],
                                tx_packets: t[5],
                                tx_errors: t[6],
                                tx_dropped: t[7],
                                rx_bytes_delta: None,
                                tx_bytes_delta: None,
                            };
                            proof {
                                assert(interface_views(interfaces@.push(iface)) =~= interface_views(
                                    interfaces@,
                                ).push(iface@));
                            }
                            interfaces.push(iface);
                        },
                    }
                }
            },
        }
        n = n + 1;
    }
    if interfaces.len() == 0 {
        return Err(ParseError::missing("interfaces"));
    }
    Ok(NetworkMetrics { interfaces })
}

} // verus!
