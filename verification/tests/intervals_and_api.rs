use aetherd::api::{metric_from_snapshot, section_value, ApiError, ErrorCode};
use aetherd::sampling::delta::{
    counter_delta, cpu_interval_share, fill_cpu_interval, fill_network_deltas,
};
use aetherd::sampling::snapshot::{section_from, CollectorError, IntervalTracker, Section};
use aetherd::system::cpu::{parse_cpu_stat, BusyShare, CpuCore, CpuMetrics, CpuTimes};
use aetherd::system::network::{parse_net_dev, NetworkInterface, NetworkMetrics};
use aetherd::system::ParseError;

fn percent(share: BusyShare) -> f64 {
    share.busy_ticks as f64 / share.total_ticks as f64 * 100.0
}

fn times(user: u64, system: u64, idle: u64, iowait: u64) -> CpuTimes {
    CpuTimes {
        user_ticks: user,
        nice_ticks: 0,
        system_ticks: system,
        idle_ticks: idle,
        iowait_ticks: iowait,
        irq_ticks: 0,
        softirq_ticks: 0,
        steal_ticks: 0,
        guest_ticks: 0,
        guest_nice_ticks: 0,
    }
}

fn interface(name: &str, rx_bytes: u64, tx_bytes: u64) -> NetworkInterface {
    NetworkInterface {
        name: name.to_owned(),
        rx_bytes,
        rx_packets: 0,
        rx_errors: 0,
        rx_dropped: 0,
        tx_bytes,
        tx_packets: 0,
        tx_errors: 0,
        tx_dropped: 0,
        rx_bytes_delta: None,
        tx_bytes_delta: None,
    }
}

fn rate(delta: Option<u64>, elapsed_seconds: f64) -> Option<f64> {
    delta.map(|d| d as f64 / elapsed_seconds)
}

#[test]
fn computes_interval_percentage_from_counter_delta() {
    let previous = times(100, 50, 800, 50);
    let current = times(200, 100, 1600, 100);

    assert_eq!(cpu_interval_share(&previous, &current).map(percent), Some(15.0));
}

#[test]
fn identical_counters_have_no_interval_percentage() {
    let sample = times(100, 50, 800, 50);
    assert_eq!(cpu_interval_share(&sample, &sample), None);
}

#[test]
fn counter_reset_has_no_interval_percentage() {
    let previous = times(200, 100, 1600, 100);
    let current = times(100, 50, 800, 50);
    assert_eq!(cpu_interval_share(&previous, &current), None);
}

#[test]
fn interval_share_counts_busy_and_total_ticks() {
    let previous = times(100, 50, 800, 50);
    let current = times(200, 100, 1600, 100);
    assert_eq!(
        cpu_interval_share(&previous, &current),
        Some(BusyShare {
            busy_ticks: 150,
            total_ticks: 1000
        })
    );
}

#[test]
fn idle_growing_faster_than_total_gives_no_interval() {
    // user time went backwards while idle time grew: not a valid interval
    let previous = times(500, 0, 100, 0);
    let current = times(100, 0, 600, 0);
    assert_eq!(cpu_interval_share(&previous, &current), None);
}

#[test]
fn one_counter_going_backwards_gives_no_interval() {
    // totals still grow, but user time went backwards: a counter reset
    let previous = times(100, 50, 800, 0);
    let current = times(90, 70, 800, 0);
    assert_eq!(cpu_interval_share(&previous, &current), None);

    let mut later = previous;
    later.steal_ticks = 5;
    let mut earlier = previous;
    earlier.steal_ticks = 10;
    later.idle_ticks = 900;
    assert_eq!(cpu_interval_share(&earlier, &later), None);
}

#[test]
fn fills_per_core_interval_and_skips_new_cores() {
    let previous = CpuMetrics {
        interval_usage: None,
        total: times(100, 50, 800, 50),
        cores: vec![CpuCore {
            id: 0,
            interval_usage: None,
            times: times(100, 50, 800, 50),
        }],
    };
    let mut current = CpuMetrics {
        interval_usage: None,
        total: times(200, 100, 1600, 100),
        cores: vec![
            CpuCore {
                id: 0,
                interval_usage: None,
                times: times(200, 100, 1600, 100),
            },
            CpuCore {
                id: 1,
                interval_usage: None,
                times: times(50, 25, 400, 25),
            },
        ],
    };

    fill_cpu_interval(&mut current, &previous);

    assert_eq!(current.interval_usage.map(percent), Some(15.0));
    assert_eq!(current.cores[0].interval_usage.map(percent), Some(15.0));
    assert_eq!(current.cores[1].interval_usage, None);
}

#[test]
fn counter_delta_is_growth_or_none() {
    assert_eq!(counter_delta(1000, 3000), Some(2000));
    assert_eq!(counter_delta(1000, 1000), Some(0));
    assert_eq!(counter_delta(3000, 1000), None);
}

#[test]
fn network_rates_skip_an_interfaces_first_observation() {
    let previous = NetworkMetrics {
        interfaces: vec![interface("eth0", 1000, 500)],
    };
    let mut current = NetworkMetrics {
        interfaces: vec![interface("eth0", 3000, 2500), interface("eth1", 10, 20)],
    };

    fill_network_deltas(&mut current, &previous);

    assert_eq!(rate(current.interfaces[0].rx_bytes_delta, 1.0), Some(2000.0));
    assert_eq!(rate(current.interfaces[0].tx_bytes_delta, 1.0), Some(2000.0));
    assert_eq!(rate(current.interfaces[1].rx_bytes_delta, 1.0), None);
    assert_eq!(rate(current.interfaces[1].tx_bytes_delta, 1.0), None);
}

#[test]
fn network_rates_are_none_on_counter_reset() {
    let previous = NetworkMetrics {
        interfaces: vec![interface("eth0", 5000, 5000)],
    };
    let mut current = NetworkMetrics {
        interfaces: vec![interface("eth0", 10, 20)],
    };

    fill_network_deltas(&mut current, &previous);

    assert_eq!(current.interfaces[0].rx_bytes_delta, None);
    assert_eq!(current.interfaces[0].tx_bytes_delta, None);
}

#[test]
fn tracker_derives_intervals_only_from_a_previous_sample() {
    let mut tracker: IntervalTracker<u64> = IntervalTracker::new();

    let first_cpu = parse_cpu_stat("cpu 100 0 50 800 50 0 0 0 0 0\n").expect("parses");
    let first_net = parse_net_dev("  eth0: 1000 10 0 0 0 0 0 0 500 5 0 0 0 0 0 0\n").expect("parses");
    let cpu = tracker.observe_cpu(Section::Available { value: first_cpu });
    let (net, previous_at) = tracker.observe_network(Section::Available { value: first_net }, 10);
    match cpu {
        Section::Available { value } => assert_eq!(value.interval_usage, None),
        Section::Unavailable { .. } => panic!("cpu available"),
    }
    match net {
        Section::Available { value } => assert_eq!(value.interfaces[0].rx_bytes_delta, None),
        Section::Unavailable { .. } => panic!("network available"),
    }
    assert_eq!(previous_at, None);

    let second_cpu = parse_cpu_stat("cpu 200 0 100 1600 100 0 0 0 0 0\n").expect("parses");
    let second_net =
        parse_net_dev("  eth0: 3000 30 0 0 0 0 0 0 2500 25 0 0 0 0 0 0\n").expect("parses");
    let cpu = tracker.observe_cpu(Section::Available { value: second_cpu });
    let (net, previous_at) = tracker.observe_network(Section::Available { value: second_net }, 11);
    match cpu {
        Section::Available { value } => {
            assert_eq!(value.interval_usage.map(percent), Some(15.0))
        }
        Section::Unavailable { .. } => panic!("cpu available"),
    }
    match net {
        Section::Available { value } => {
            assert_eq!(value.interfaces[0].rx_bytes_delta, Some(2000));
            assert_eq!(value.interfaces[0].tx_bytes_delta, Some(2000));
        }
        Section::Unavailable { .. } => panic!("network available"),
    }
    assert_eq!(previous_at, Some(10));
}

#[test]
fn unavailable_sections_leave_the_baseline_alone() {
    let mut tracker: IntervalTracker<u64> = IntervalTracker::new();
    let first = parse_net_dev("  eth0: 1000 10 0 0 0 0 0 0 500 5 0 0 0 0 0 0\n").expect("parses");
    let _ = tracker.observe_network(Section::Available { value: first }, 1);

    let (missing, previous_at) = tracker.observe_network(
        Section::Unavailable {
            reason: "cannot read /proc/net/dev".to_owned(),
        },
        2,
    );
    assert!(matches!(missing, Section::Unavailable { .. }));
    assert_eq!(previous_at, None);

    let third = parse_net_dev("  eth0: 4000 10 0 0 0 0 0 0 500 5 0 0 0 0 0 0\n").expect("parses");
    let (net, previous_at) = tracker.observe_network(Section::Available { value: third }, 3);
    assert_eq!(previous_at, Some(1));
    match net {
        Section::Available { value } => assert_eq!(value.interfaces[0].rx_bytes_delta, Some(3000)),
        Section::Unavailable { .. } => panic!("network available"),
    }
}

#[test]
fn failing_collectors_mark_their_section_unavailable() {
    let read: Section<u32> = section_from(Err(CollectorError::Read {
        path: "/host/proc/stat".to_owned(),
    }));
    assert_eq!(
        read,
        Section::Unavailable {
            reason: "cannot read /host/proc/stat".to_owned()
        }
    );

    let parse: Section<u32> = section_from(Err(CollectorError::Parse {
        path: "/proc/meminfo".to_owned(),
        source: ParseError::Empty,
    }));
    assert_eq!(
        parse,
        Section::Unavailable {
            reason: "cannot parse /proc/meminfo".to_owned()
        }
    );

    let ok: Section<u32> = section_from(Ok(7));
    assert_eq!(ok, Section::Available { value: 7 });
}

#[test]
fn api_errors_have_stable_codes_and_statuses() {
    assert_eq!(ApiError::NotFound.status(), 404);
    assert_eq!(ApiError::NotFound.code().as_str(), "not_found");
    assert_eq!(ApiError::NotFound.message(), "resource not found");
    assert_eq!(ApiError::MethodNotAllowed.status(), 405);
    assert_eq!(ApiError::MethodNotAllowed.code().as_str(), "method_not_allowed");
    assert_eq!(ApiError::NotReady.status(), 503);
    assert_eq!(ApiError::NotReady.code(), ErrorCode::NotReady);
    let unavailable = ApiError::Unavailable("cannot read /host/proc/stat".to_owned());
    assert_eq!(unavailable.status(), 503);
    assert_eq!(unavailable.code().as_str(), "unavailable");
    assert_eq!(unavailable.message(), "cannot read /host/proc/stat");
}

#[test]
fn metric_requests_follow_snapshot_and_section_state() {
    assert_eq!(metric_from_snapshot::<u32>(None), Err(ApiError::NotReady));
    assert_eq!(
        metric_from_snapshot(Some(Section::Available { value: 3u32 })),
        Ok(3)
    );
    assert_eq!(
        section_value::<u32>(Section::Unavailable {
            reason: "gone".to_owned()
        }),
        Err(ApiError::Unavailable("gone".to_owned()))
    );
}

fn cpu_section(text: &str) -> Section<CpuMetrics> {
    Section::Available {
        value: parse_cpu_stat(text).expect("parses"),
    }
}

fn cpu_unavailable() -> Section<CpuMetrics> {
    Section::Unavailable {
        reason: "cannot read /proc/stat".to_owned(),
    }
}

#[test]
fn cpu_interval_uses_the_latest_available_reading() {
    let mut tracker: IntervalTracker<u64> = IntervalTracker::new();
    let _ = tracker.observe_cpu(cpu_section("cpu 100 0 50 800 50 0 0 0 0 0\n"));
    let _ = tracker.observe_cpu(cpu_section("cpu 200 0 100 1600 100 0 0 0 0 0\n"));
    let missing = tracker.observe_cpu(cpu_unavailable());
    assert!(matches!(missing, Section::Unavailable { .. }));
    match tracker.observe_cpu(cpu_section("cpu 300 0 200 1700 100 0 0 0 0 0\n")) {
        Section::Available { value } => assert_eq!(
            value.interval_usage,
            Some(BusyShare {
                busy_ticks: 200,
                total_ticks: 300
            })
        ),
        Section::Unavailable { .. } => panic!("cpu available"),
    }
}

#[test]
fn fresh_trackers_fed_alike_return_equal_sections() {
    let inputs = [
        "cpu 100 0 50 800 50 0 0 0 0 0\ncpu0 50 0 25 400 25 0 0 0 0 0\n",
        "",
        "cpu 200 0 100 1600 100 0 0 0 0 0\ncpu0 90 0 40 800 50 0 0 0 0 0\n",
        "cpu 150 0 100 1700 100 0 0 0 0 0\ncpu0 95 0 45 850 50 0 0 0 0 0\n",
    ];
    let mut first: IntervalTracker<u64> = IntervalTracker::new();
    let mut second: IntervalTracker<u64> = IntervalTracker::new();
    for text in inputs {
        let a = if text.is_empty() { cpu_unavailable() } else { cpu_section(text) };
        let b = if text.is_empty() { cpu_unavailable() } else { cpu_section(text) };
        assert_eq!(first.observe_cpu(a), second.observe_cpu(b));
    }
}
