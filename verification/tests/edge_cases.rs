use aetherd::cli::Cli;
use aetherd::system::cpu::parse_cpu_stat;
use aetherd::system::disks::{disk_counts, included_mounts, parse_mounts, unescape_octal};
use aetherd::system::host::{host_metrics, parse_boot_time, parse_os_release};
use aetherd::system::memory::parse_meminfo;
use aetherd::system::network::parse_net_dev;
use aetherd::system::ParseError;
use aetherd::text::{chars_of, parse_i64, parse_u32, parse_u64, split_lines, split_words};
use aetherd::SystemPaths;

fn chars(s: &str) -> Vec<char> {
    s.chars().collect()
}

fn strings(v: Vec<Vec<char>>) -> Vec<String> {
    v.into_iter().map(|c| c.into_iter().collect()).collect()
}

#[test]
fn lines_follow_str_lines() {
    assert_eq!(strings(split_lines(&chars(""))), Vec::<String>::new());
    assert_eq!(strings(split_lines(&chars("a\r\nb\n\nc"))), vec!["a", "b", "", "c"]);
    assert_eq!(strings(split_lines(&chars("a\n"))), vec!["a"]);
    assert_eq!(strings(split_lines(&chars("a\r"))), vec!["a\r"]);
}

#[test]
fn words_follow_split_whitespace() {
    assert_eq!(
        strings(split_words(&chars("  a\tb \u{a0}c  "))),
        vec!["a", "b", "c"]
    );
    assert_eq!(strings(split_words(&chars(" \n "))), Vec::<String>::new());
}

#[test]
fn numbers_follow_from_str() {
    assert_eq!(parse_u64(&chars("+42")), Some(42));
    assert_eq!(parse_u64(&chars("18446744073709551615")), Some(u64::MAX));
    assert_eq!(parse_u64(&chars("18446744073709551616")), None);
    assert_eq!(parse_u64(&chars("-1")), None);
    assert_eq!(parse_u64(&chars("+")), None);
    assert_eq!(parse_u64(&chars("")), None);
    assert_eq!(parse_u32(&chars("4294967296")), None);
    assert_eq!(parse_i64(&chars("-9223372036854775808")), Some(i64::MIN));
    assert_eq!(parse_i64(&chars("-0")), Some(0));
    assert_eq!(parse_i64(&chars("9223372036854775808")), None);
}

#[test]
fn chars_and_strings_round_trip() {
    assert_eq!(chars_of("héllo"), vec!['h', 'é', 'l', 'l', 'o']);
}

#[test]
fn later_meminfo_keys_override_earlier_ones() {
    let metrics = parse_meminfo("MemTotal: 10 kB\nMemFree: 1 kB\nMemTotal: 20 kB\n")
        .expect("parses");
    assert_eq!(metrics.total_bytes, 20 * 1024);
}

#[test]
fn huge_meminfo_values_saturate() {
    let metrics = parse_meminfo("MemTotal: 18446744073709551615 kB\nMemFree: 0 kB\n")
        .expect("parses");
    assert_eq!(metrics.total_bytes, u64::MAX);
}

#[test]
fn meminfo_used_never_exceeds_total() {
    let metrics = parse_meminfo("MemTotal: 10 kB\nMemFree: 1 kB\nMemAvailable: 50 kB\n")
        .expect("parses");
    assert_eq!(metrics.used_bytes, 0);
    let metrics = parse_meminfo("MemTotal: 10 kB\nMemFree: 1 kB\nSwapTotal: 1 kB\nSwapFree: 4 kB\n")
        .expect("parses");
    assert_eq!(metrics.swap_used_bytes, 0);
}

#[test]
fn invalid_meminfo_value_names_field_and_value() {
    assert_eq!(
        parse_meminfo("MemTotal: lots kB\n").expect_err("invalid"),
        ParseError::InvalidValue {
            field: "MemTotal".to_owned(),
            value: "lots".to_owned()
        }
    );
}

#[test]
fn cpu_labels_with_other_suffixes_are_ignored() {
    let metrics = parse_cpu_stat("cpu 1 2 3 4\ncpufreq 9 9 9 9\ncpu7 1 1 1 1\n").expect("parses");
    assert_eq!(metrics.cores.len(), 1);
    assert_eq!(metrics.cores[0].id, 7);
    assert_eq!(
        parse_cpu_stat("cpu 1 2 x 4\n").expect_err("invalid"),
        ParseError::InvalidValue {
            field: "system".to_owned(),
            value: "x".to_owned()
        }
    );
}

#[test]
fn usage_share_is_none_without_ticks() {
    let metrics = parse_cpu_stat("cpu 0 0 0 0\n").expect("parses");
    assert_eq!(metrics.total.usage_share(), None);
    assert_eq!(metrics.total.total_ticks(), 0);
}

#[test]
fn network_names_are_trimmed_and_missing_tx_columns_are_zero() {
    let metrics = parse_net_dev(" wlan0 : 1 2 3 4 5 6 7 8 9\n").expect("parses");
    assert_eq!(metrics.interfaces[0].name, "wlan0");
    assert_eq!(metrics.interfaces[0].tx_bytes, 9);
    assert_eq!(metrics.interfaces[0].tx_packets, 0);
    assert_eq!(
        parse_net_dev("eth0: 1 2 3 4 5 6 7 8 y\n").expect_err("invalid"),
        ParseError::InvalidValue {
            field: "tx_bytes".to_owned(),
            value: "y".to_owned()
        }
    );
}

#[test]
fn unescape_keeps_incomplete_escapes() {
    let decode = |s: &str| -> String { unescape_octal(&chars(s)).into_iter().collect() };
    assert_eq!(decode("a\\12"), "a\\12");
    assert_eq!(decode("a\\x"), "a\\x");
    assert_eq!(decode("\\777"), "\u{1ff}");
    assert_eq!(decode("end\\"), "end\\");
}

#[test]
fn truncated_mount_line_reports_the_line() {
    assert_eq!(
        parse_mounts("/dev/sda1 / ext4\n").expect_err("invalid"),
        ParseError::InvalidValue {
            field: "mounts".to_owned(),
            value: "/dev/sda1 / ext4".to_owned()
        }
    );
}

#[test]
fn included_mounts_keep_order_and_drop_pseudo_filesystems() {
    let mounts = parse_mounts(
        "/dev/sda1 / ext4 rw 0 0\nproc /proc proc rw 0 0\n/dev/sdb1 /data xfs rw 0 0\n",
    )
    .expect("parses");
    let kept = included_mounts(mounts);
    let points: Vec<&str> = kept.iter().map(|m| m.mount_point.as_str()).collect();
    assert_eq!(points, vec!["/", "/data"]);
}

#[test]
fn disk_counts_multiply_and_saturate() {
    let counts = disk_counts(100, 40, 30, 4096);
    assert_eq!(counts.total_bytes, 409_600);
    assert_eq!(counts.free_bytes, 163_840);
    assert_eq!(counts.available_bytes, 122_880);
    assert_eq!(counts.used_bytes, 245_760);
    assert_eq!(counts.addressable_bytes, 368_640);
    let huge = disk_counts(u64::MAX, 0, u64::MAX, 2);
    assert_eq!(huge.total_bytes, u64::MAX);
    assert_eq!(huge.addressable_bytes, u64::MAX);
}

#[test]
fn os_release_takes_the_first_matching_line() {
    let release = parse_os_release(" ID = \"one\" \nID=two\nNAME=\"\nVERSION=\"\"\n");
    assert_eq!(release.id.as_deref(), Some("one"));
    assert_eq!(release.name.as_deref(), Some("\""));
    assert_eq!(release.version.as_deref(), Some(""));
}

#[test]
fn boot_time_respects_the_representable_range() {
    assert_eq!(
        parse_boot_time("btime 253402300799\n").map(|b| b.unix_timestamp()),
        Some(253_402_300_799)
    );
    assert_eq!(parse_boot_time("btime 253402300800\n"), None);
    assert_eq!(
        parse_boot_time("btime -377705116800\n").map(|b| b.unix_timestamp()),
        Some(-377_705_116_800)
    );
    assert_eq!(parse_boot_time("btime -377705116801\n"), None);
    assert_eq!(parse_boot_time("btime x\nbtime 5\n"), None);
}

#[test]
fn host_metadata_is_trimmed_and_blank_values_dropped() {
    let metrics = host_metrics(
        &Some(" aetherd-test-host \n".to_owned()),
        "x86_64".to_owned(),
        &Some("   ".to_owned()),
        &None,
        &Some("ID=aetherd-test\n".to_owned()),
        &Some("btime 1700000000\n".to_owned()),
    );
    assert_eq!(metrics.hostname.as_deref(), Some("aetherd-test-host"));
    assert_eq!(metrics.kernel_release, None);
    assert_eq!(metrics.kernel_version, None);
    assert_eq!(metrics.os.and_then(|o| o.id).as_deref(), Some("aetherd-test"));
    assert_eq!(metrics.boot_time.map(|b| b.unix_timestamp()), Some(1_700_000_000));
}

#[test]
fn paths_resolve_with_exactly_one_separator() {
    let paths = SystemPaths::new("/host/proc/", "", "/");
    assert_eq!(paths.proc_file("//stat"), "/host/proc/stat");
    assert_eq!(paths.sys_path("class"), "class");
    assert_eq!(paths.host_path("/etc/os-release"), "/etc/os-release");
    assert_eq!(paths.host_path(""), "/");
    let nested = SystemPaths::new("/a", "/b", "/c");
    assert_eq!(nested.proc_file(""), "/a/");
}

#[test]
fn cli_reports_what_went_wrong() {
    let parse = |args: &[&str]| Cli::parse(args.iter().map(|a| (*a).to_owned()).collect());
    assert_eq!(parse(&["--nope"]), Err("unrecognized argument: --nope".to_owned()));
    assert_eq!(parse(&["--config"]), Err("--config requires a path".to_owned()));
    assert_eq!(
        parse(&["--config", "a.toml", "--config=b.toml"]),
        Ok(Cli::Run {
            config: Some("b.toml".to_owned())
        })
    );
    assert_eq!(parse(&["--config", "--help"]), Ok(Cli::Run { config: Some("--help".to_owned()) }));
    assert_eq!(parse(&["--version", "--nope"]), Ok(Cli::Version));
}
