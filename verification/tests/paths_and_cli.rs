use aetherd::cli::Cli;
use aetherd::{PathsConfig, SystemPaths};

fn parse(args: &[&str]) -> Result<Cli, String> {
    Cli::parse(args.iter().map(|arg| (*arg).to_owned()).collect())
}

#[test]
fn resolves_paths_under_each_root() {
    let paths = SystemPaths::new("/host/proc", "/host/sys", "/host/root");

    assert_eq!(paths.proc_file("stat"), "/host/proc/stat");
    assert_eq!(paths.proc_file("/meminfo"), "/host/proc/meminfo");
    assert_eq!(paths.sys_path("class/thermal"), "/host/sys/class/thermal");
    assert_eq!(paths.host_path("/etc/os-release"), "/host/root/etc/os-release");
}

#[test]
fn default_roots_target_the_host() {
    let paths = SystemPaths::default();
    assert_eq!(paths.proc, "/proc");
    assert_eq!(paths.sys, "/sys");
    assert_eq!(paths.host_root, "/");
}

#[test]
fn no_arguments_runs_without_config() {
    assert!(matches!(parse(&[]), Ok(Cli::Run { config: None })));
}

#[test]
fn config_flag_accepts_separate_value() {
    assert!(matches!(
        parse(&["--config", "custom.toml"]),
        Ok(Cli::Run { config: Some(_) })
    ));
}

#[test]
fn config_flag_accepts_equals_form() {
    assert!(matches!(
        parse(&["--config=custom.toml"]),
        Ok(Cli::Run { config: Some(_) })
    ));
}

#[test]
fn config_flag_requires_a_value() {
    assert!(parse(&["--config"]).is_err());
    assert!(parse(&["--config="]).is_err());
}

#[test]
fn help_and_version_short_circuit() {
    assert!(matches!(parse(&["--help"]), Ok(Cli::Help)));
    assert!(matches!(parse(&["-V"]), Ok(Cli::Version)));
}

#[test]
fn unknown_argument_is_rejected() {
    assert!(parse(&["--nope"]).is_err());
}

#[test]
fn config_paths_default_to_host_roots_and_convert() {
    let config = PathsConfig::default();
    assert_eq!(config.proc, "/proc");
    let paths = SystemPaths::from(config);
    assert_eq!(paths, SystemPaths::default());
}
