use aetherd::system::cpu::{parse_cpu_stat, BusyShare};
use aetherd::system::disks::{parse_mounts, unescape_octal};
use aetherd::system::host::{parse_boot_time, parse_os_release};
use aetherd::system::load::parse_loadavg;
use aetherd::system::memory::parse_meminfo;
use aetherd::system::network::parse_net_dev;
use aetherd::system::uptime::parse_uptime;
use aetherd::system::ParseError;

fn percent(share: BusyShare) -> f64 {
    share.busy_ticks as f64 / share.total_ticks as f64 * 100.0
}

fn unescape(input: &str) -> String {
    let chars: Vec<char> = input.chars().collect();
    unescape_octal(&chars).into_iter().collect()
}

// ----- cpu -----

const CPU_SAMPLE: &str = "\
cpu  100 0 50 850 0 0 0 0 0 0
cpu0 60 0 30 410 0 0 0 0 0 0
cpu1 40 0 20 440 0 0 0 0 0 0
intr 12345
ctxt 67890
btime 1700000000
processes 42
procs_running 1
procs_blocked 0
";

#[test]
fn parses_aggregate_and_cores() {
    let metrics = parse_cpu_stat(CPU_SAMPLE).expect("sample parses");

    assert_eq!(metrics.total.user_ticks, 100);
    assert_eq!(metrics.total.idle_ticks, 850);
    assert_eq!(metrics.cores.len(), 2);
    assert_eq!(metrics.cores[0].id, 0);
    assert_eq!(metrics.cores[1].id, 1);
    let usage = percent(metrics.total.usage_share().expect("ticks counted"));
    assert!((usage - 15.0).abs() < f64::EPSILON);
}

#[test]
fn trailing_fields_default_to_zero() {
    let input = "cpu 10 5 5 80\n";
    let metrics = parse_cpu_stat(input).expect("short line parses");
    assert_eq!(metrics.total.iowait_ticks, 0);
    assert_eq!(metrics.total.guest_ticks, 0);
}

#[test]
fn missing_aggregate_line_is_an_error() {
    let input = "cpu0 1 2 3 4\n";
    let error = parse_cpu_stat(input).expect_err("aggregate required");
    assert_eq!(error, ParseError::MissingField("cpu".to_owned()));
}

#[test]
fn cpu_malformed_value_is_an_error() {
    let input = "cpu 1 x 3 4\n";
    let error = parse_cpu_stat(input).expect_err("value must be numeric");
    assert!(matches!(error, ParseError::InvalidValue { .. }));
}

#[test]
fn cpu_too_few_fields_is_an_error() {
    let input = "cpu 1 2 3\n";
    let error = parse_cpu_stat(input).expect_err("four fields required");
    assert!(matches!(error, ParseError::MissingField(_)));
}

#[test]
fn cpu_empty_input_is_an_error() {
    assert_eq!(parse_cpu_stat("   \n").expect_err("empty"), ParseError::Empty);
}

// ----- disks -----

const MOUNTS_SAMPLE: &str = "\
/dev/sda1 / ext4 rw,relatime 0 0
proc /proc proc rw,nosuid,nodev,noexec,relatime 0 0
sysfs /sys sysfs rw,nosuid,nodev,noexec,relatime 0 0
tmpfs /run tmpfs rw,nosuid,nodev 0 0
/dev/sdb1 /data\\040volume ext4 rw,relatime 0 0
";

#[test]
fn parses_all_mounts_and_unescapes_paths() {
    let mounts = parse_mounts(MOUNTS_SAMPLE).expect("sample parses");

    assert_eq!(mounts.len(), 5);
    assert_eq!(mounts[0].source, "/dev/sda1");
    assert_eq!(mounts[0].mount_point, "/");
    assert_eq!(mounts[0].fs_type, "ext4");
    assert_eq!(mounts[4].mount_point, "/data volume");
}

#[test]
fn pseudo_filesystems_are_identified() {
    let mounts = parse_mounts(MOUNTS_SAMPLE).expect("sample parses");
    let included: Vec<&str> = mounts
        .iter()
        .filter(|entry| !entry.is_pseudo())
        .map(|entry| entry.mount_point.as_str())
        .collect();

    assert_eq!(included, vec!["/", "/data volume"]);
}

#[test]
fn unescapes_common_octal_sequences() {
    assert_eq!(unescape("/data\\040volume"), "/data volume");
    assert_eq!(unescape("a\\011b"), "a\tb");
    assert_eq!(unescape("a\\134b"), "a\\b");
    assert_eq!(unescape("plain"), "plain");
}

#[test]
fn truncated_line_is_an_error() {
    let error = parse_mounts("/dev/sda1 / ext4\n").expect_err("four fields required");
    assert!(matches!(error, ParseError::InvalidValue { .. }));
}

#[test]
fn disks_empty_input_is_an_error() {
    assert_eq!(parse_mounts("").expect_err("empty"), ParseError::Empty);
}

// ----- host -----

#[test]
fn parses_quoted_and_unquoted_os_release_fields() {
    let input = "\
NAME=\"Ubuntu\"
ID=ubuntu
VERSION=\"24.04.1 LTS (Noble Numbat)\"
PRETTY_NAME=\"Ubuntu 24.04.1 LTS\"
";
    let release = parse_os_release(input);

    assert_eq!(release.id.as_deref(), Some("ubuntu"));
    assert_eq!(release.name.as_deref(), Some("Ubuntu"));
    assert_eq!(release.version.as_deref(), Some("24.04.1 LTS (Noble Numbat)"));
    assert_eq!(release.pretty_name.as_deref(), Some("Ubuntu 24.04.1 LTS"));
}

#[test]
fn missing_os_release_fields_are_none() {
    let release = parse_os_release("ID=alpine\n");
    assert_eq!(release.id.as_deref(), Some("alpine"));
    assert_eq!(release.name, None);
    assert_eq!(release.version, None);
}

#[test]
fn parses_boot_time_from_stat() {
    let input = "cpu 1 2 3 4\nbtime 1700000000\n";
    let boot = parse_boot_time(input).expect("btime present");
    assert_eq!(boot.unix_timestamp(), 1_700_000_000);
}

#[test]
fn missing_boot_time_is_none() {
    assert_eq!(parse_boot_time("cpu 1 2 3 4\n"), None);
}

#[test]
fn malformed_boot_time_is_none() {
    assert_eq!(parse_boot_time("btime not-a-number\n"), None);
}

// ----- load -----

#[test]
fn parses_load_average_and_counts() {
    let fields = parse_loadavg("1.50 2.25 3.00 2/1234 56789\n").expect("sample parses");
    let load1: f64 = fields.load1.parse().expect("load1 is a number");
    let load5: f64 = fields.load5.parse().expect("load5 is a number");
    let load15: f64 = fields.load15.parse().expect("load15 is a number");
    let counts = fields.counts.expect("counts parse");

    assert!((load1 - 1.5).abs() < f64::EPSILON);
    assert!((load5 - 2.25).abs() < f64::EPSILON);
    assert!((load15 - 3.0).abs() < f64::EPSILON);
    assert_eq!(counts.runnable, 2);
    assert_eq!(counts.total_processes, 1234);
    assert_eq!(counts.last_pid, 56789);
}

#[test]
fn load_too_few_fields_is_an_error() {
    let error = parse_loadavg("1.0 2.0\n").expect_err("five fields required");
    assert!(matches!(error, ParseError::MissingField(_)));
}

#[test]
fn malformed_runnable_pair_is_an_error() {
    let error = parse_loadavg("1.0 2.0 3.0 nope 5\n").expect_err("pair required");
    assert!(matches!(error, ParseError::InvalidValue { .. }));
}

#[test]
fn load_fields_keep_an_unparsed_average_token() {
    let fields = parse_loadavg("x 2.0 3.0 1/2 5\n").expect("fields split");
    assert_eq!(fields.load1, "x");
    assert_eq!(fields.load5, "2.0");
    assert_eq!(fields.load15, "3.0");
}

#[test]
fn load_empty_input_is_an_error() {
    assert_eq!(parse_loadavg("").expect_err("empty"), ParseError::Empty);
}

// ----- memory -----

const MEMINFO_SAMPLE: &str = "\
MemTotal:       16384000 kB
MemFree:         8192000 kB
MemAvailable:   12000000 kB
Buffers:          100000 kB
Cached:          2000000 kB
SwapTotal:       4096000 kB
SwapFree:        4096000 kB
";

#[test]
fn parses_kibibytes_into_bytes() {
    let metrics = parse_meminfo(MEMINFO_SAMPLE).expect("sample parses");

    assert_eq!(metrics.total_bytes, 16_384_000 * 1024);
    assert_eq!(metrics.free_bytes, 8_192_000 * 1024);
    assert_eq!(metrics.available_bytes, Some(12_000_000 * 1024));
    assert_eq!(metrics.used_bytes, (16_384_000 - 12_000_000) * 1024);
    assert_eq!(metrics.swap_used_bytes, 0);
}

#[test]
fn missing_mem_available_falls_back_to_free_buffers_cached() {
    let input = "\
MemTotal: 1000 kB
MemFree: 400 kB
Buffers: 100 kB
Cached: 200 kB
";
    let metrics = parse_meminfo(input).expect("fallback parses");

    assert_eq!(metrics.available_bytes, None);
    assert_eq!(metrics.used_bytes, 300 * 1024);
}

#[test]
fn missing_total_is_an_error() {
    let input = "MemFree: 1 kB\n";
    let error = parse_meminfo(input).expect_err("MemTotal required");
    assert_eq!(error, ParseError::MissingField("MemTotal".to_owned()));
}

#[test]
fn memory_malformed_value_is_an_error() {
    let input = "MemTotal: lots kB\n";
    let error = parse_meminfo(input).expect_err("value must be numeric");
    assert!(matches!(error, ParseError::InvalidValue { .. }));
}

#[test]
fn lines_without_values_are_ignored() {
    let input = "\
MemTotal: 1000 kB
HugePages_Total:
MemFree: 500 kB
";
    let metrics = parse_meminfo(input).expect("incomplete line skipped");
    assert_eq!(metrics.total_bytes, 1000 * 1024);
}

#[test]
fn memory_empty_input_is_an_error() {
    assert_eq!(parse_meminfo("\n").expect_err("empty"), ParseError::Empty);
}

// ----- network -----

const NET_SAMPLE: &str = "\
Inter-|   Receive                                                |  Transmit
 face |bytes    packets errs drop fifo frame compressed multicast|bytes    packets errs drop fifo colls carrier compressed
    lo: 1000      10    0    0    0     0          0         0     1000      10    0    0    0     0       0          0
  eth0: 5000      50    1    2    0     0          0         0     6000      60    3    4    0     0       0          0
";

#[test]
fn parses_interfaces_and_counters() {
    let metrics = parse_net_dev(NET_SAMPLE).expect("sample parses");

    assert_eq!(metrics.interfaces.len(), 2);
    let eth0 = &metrics.interfaces[1];
    assert_eq!(eth0.name, "eth0");
    assert_eq!(eth0.rx_bytes, 5000);
    assert_eq!(eth0.rx_packets, 50);
    assert_eq!(eth0.rx_errors, 1);
    assert_eq!(eth0.rx_dropped, 2);
    assert_eq!(eth0.tx_bytes, 6000);
    assert_eq!(eth0.tx_packets, 60);
    assert_eq!(eth0.tx_errors, 3);
    assert_eq!(eth0.tx_dropped, 4);
}

#[test]
fn header_lines_are_ignored() {
    let metrics = parse_net_dev(NET_SAMPLE).expect("headers skipped");
    assert!(metrics.interfaces.iter().all(|iface| iface.name != "face"));
}

#[test]
fn short_counter_lines_are_skipped() {
    let input = "  lo: 1 2 3\n  eth0: 1 2 3 4 0 0 0 0 5 6 7 8\n";
    let metrics = parse_net_dev(input).expect("one valid interface");
    assert_eq!(metrics.interfaces.len(), 1);
    assert_eq!(metrics.interfaces[0].name, "eth0");
}

#[test]
fn malformed_counter_is_an_error() {
    let input = "  eth0: x 2 3 4 0 0 0 0 5 6 7 8\n";
    let error = parse_net_dev(input).expect_err("numeric counters required");
    assert!(matches!(error, ParseError::InvalidValue { .. }));
}

#[test]
fn no_interfaces_is_an_error() {
    let error = parse_net_dev("just a header\n").expect_err("at least one interface");
    assert!(matches!(error, ParseError::MissingField(_)));
}

// ----- uptime -----

#[test]
fn parses_uptime_and_idle() {
    let fields = parse_uptime("12345.67 89012.34\n").expect("sample parses");
    let uptime: f64 = fields.uptime.parse().expect("uptime is a number");
    let idle: f64 = fields.idle.expect("idle present").parse().expect("idle is a number");
    assert!((uptime - 12345.67).abs() < f64::EPSILON);
    assert!((idle - 89012.34).abs() < f64::EPSILON);
}

#[test]
fn missing_idle_defaults_to_zero() {
    let fields = parse_uptime("42.5\n").expect("single value parses");
    let uptime: f64 = fields.uptime.parse().expect("uptime is a number");
    assert!((uptime - 42.5).abs() < f64::EPSILON);
    assert_eq!(fields.idle, None);
}

#[test]
fn uptime_fields_keep_an_unparsed_token() {
    let fields = parse_uptime("soon\n").expect("fields split");
    assert_eq!(fields.uptime, "soon");
    assert_eq!(fields.idle, None);
}

#[test]
fn uptime_empty_input_is_an_error() {
    assert_eq!(parse_uptime("  \n").expect_err("empty"), ParseError::Empty);
}
