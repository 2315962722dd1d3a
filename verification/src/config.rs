//! Configuration values that the telemetry library consumes.

use vstd::prelude::*;

verus! {

/// Filesystem roots for telemetry collection.
///
/// Defaults target a process running directly on a host. Container
/// deployments point these at read-only host mounts.
#[derive(Clone, Debug, PartialEq, Eq)]
pub struct PathsConfig {
    /// Root of the procfs mount.
    pub proc: String,
    /// Root of the sysfs mount.
    pub sys: String,
    /// Root of the host filesystem.
    pub host_root: String,
}

impl Default for PathsConfig {
    fn default() -> (r: Self)
        ensures
            r.proc@ == "/proc"@,
            r.sys@ == "/sys"@,
            r.host_root@ == "/"@,
    {
        PathsConfig { proc: "/proc".to_owned(), sys: "/sys".to_owned(), host_root: "/".to_owned() }
    }
}

} // verus!
