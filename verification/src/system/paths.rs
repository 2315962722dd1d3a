//! Filesystem roots for telemetry collection.

use vstd::prelude::*;

use crate::config::PathsConfig;
use crate::text::{chars_of, string_from};

verus! {

/// Filesystem roots for telemetry collection.
///
/// Paths are resolved relative to these roots so the daemon can run on a host
/// or read read-only host mounts from a container without code changes.
#[derive(Clone, Debug, PartialEq, Eq)]
pub struct SystemPaths {
    /// Root of the procfs mount.
    pub proc: String,
    /// Root of the sysfs mount.
    pub sys: String,
    /// Root of the host filesystem.
    pub host_root: String,
}

/// `s` without its leading `'/'` characters.
pub open spec fn trim_leading_slashes(s: Seq<char>) -> Seq<char>
    decreases s.len(),
{
    if s.len() > 0 && s[0] == '/' {
        trim_leading_slashes(s.drop_first())
    } else {
        s
    }
}

/// A relative path appended to `root` the way `PathBuf::push` appends it on
/// Unix: with one separator between them unless `root` is empty or already
/// ends with one.
pub open spec fn join_path(root: Seq<char>, relative: Seq<char>) -> Seq<char> {
    if root.len() > 0 && root.last() != '/' {
        root.push('/').add(relative)
    } else {
        root.add(relative)
    }
}

/// `name` resolved below `root`, leading separators of `name` ignored.
pub open spec fn resolve(root: Seq<char>, name: Seq<char>) -> Seq<char> {
    join_path(root, trim_leading_slashes(name))
}

proof fn lemma_trim_leading_slashes_skip(s: Seq<char>, i: int)
    requires
        0 <= i <= s.len(),
        forall|j: int| 0 <= j < i ==> #[trigger] s[j] == '/',
    ensures
        trim_leading_slashes(s) == trim_leading_slashes(s.skip(i)),
    decreases i,
{
    if i > 0 {
        lemma_trim_leading_slashes_skip(s.drop_first(), i - 1);
        assert(s.drop_first().skip(i - 1) =~= s.skip(i));
    } else {
        assert(s.skip(0) =~= s);
    }
}

/// `name` resolved below `root`.
fn resolve_under(root: &String, name: &str) -> (r: String)
    ensures
        r@ == resolve(root@, name@),
{
    let mut out = chars_of(root.as_str());
    let rel = chars_of(name);
    let mut start: usize = 0;
    while start < rel.len() && rel[start] == '/'
        invariant
            start <= rel@.len(),
            forall|j: int| 0 <= j < start ==> #[trigger] rel@[j] == '/',
        decreases rel.len() - start,
    {
        start = start + 1;
    }
    proof {
        lemma_trim_leading_slashes_skip(rel@, start as int);
        if start < rel.len() {
            assert(trim_leading_slashes(rel@.skip(start as int)) == rel@.skip(start as int));
        } else {
            assert(rel@.skip(start as int) =~= Seq::<char>::empty());
        }
    }
    if out.len() > 0 && out[out.len() - 1] != '/' {
        out.push('/');
    }
    let ghost base = out@;
    let mut i = start;
    while i < rel.len()
        invariant
            start <= i <= rel@.len(),
            out@ == base.add(rel@.subrange(start as int, i as int)),
        decreases rel.len() - i,
    {
        out.push(rel[i]);
        i = i + 1;
        assert(out@ =~= base.add(rel@.subrange(start as int, i as int)));
    }
    assert(rel@.subrange(start as int, i as int) =~= rel@.skip(start as int));
    string_from(&out)
}

impl SystemPaths {
    /// Creates a set of roots from explicit paths.
    pub fn new(proc: &str, sys: &str, host_root: &str) -> (r: Self)
        ensures
            r.proc@ == proc@,
            r.sys@ == sys@,
            r.host_root@ == host_root@,
    {
        SystemPaths { proc: proc.to_owned(), sys: sys.to_owned(), host_root: host_root.to_owned() }
    }

    /// Resolves a file below the procfs root.
    pub fn proc_file(&self, name: &str) -> (r: String)
        ensures
            r@ == resolve(self.proc@, name@),
    {
        resolve_under(&self.proc, name)
    }

    /// Resolves a path below the sysfs root.
    pub fn sys_path(&self, relative: &str) -> (r: String)
        ensures
            r@ == resolve(self.sys@, relative@),
    {
        resolve_under(&self.sys, relative)
    }

    /// Resolves a host-absolute path below the host root.
    pub fn host_path(&self, absolute: &str) -> (r: String)
        ensures
            r@ == resolve(self.host_root@, absolute@),
    {
        resolve_under(&self.host_root, absolute)
    }
}

impl Default for SystemPaths {
    fn default() -> (r: Self)
        ensures
            r.proc@ == "/proc"@,
            r.sys@ == "/sys"@,
            r.host_root@ == "/"@,
    {
        SystemPaths::new("/proc", "/sys", "/")
    }
}

impl From<PathsConfig> for SystemPaths {
    /// The roots that a paths configuration names.
    fn from(value: PathsConfig) -> (r: Self) {
        SystemPaths { proc: value.proc, sys: value.sys, host_root: value.host_root }
    }
}

impl vstd::std_specs::convert::FromSpecImpl<PathsConfig> for SystemPaths {
    open spec fn obeys_from_spec() -> bool {
        true
    }

    open spec fn from_spec(v: PathsConfig) -> Self {
        SystemPaths { proc: v.proc, sys: v.sys, host_root: v.host_root }
    }
}

/// A path resolved below a root begins with that root.
pub proof fn resolved_paths_stay_under_their_root(root: Seq<char>, name: Seq<char>)
    ensures
        root.is_prefix_of(resolve(root, name)),
{
    let r = resolve(root, name);
    assert(r.take(root.len() as int) =~= root);
}

/// Leading separators of the name do not change where it resolves.
pub proof fn leading_separators_are_ignored(root: Seq<char>, name: Seq<char>)
    ensures
        resolve(root, seq!['/'].add(name)) == resolve(root, name),
{
    assert(seq!['/'].add(name).drop_first() =~= name);
}

/// A name without a leading separator resolves to the root, one separator
/// where the root does not already end with one (and is not empty), and then
/// the name itself.
pub proof fn resolved_path_is_root_then_name(root: Seq<char>, name: Seq<char>)
    requires
        name.len() == 0 || name[0] != '/',
    ensures
        ({
            let r = resolve(root, name);
            &&& r.skip(r.len() - name.len()) == name
            &&& root.len() > 0 && root.last() != '/' ==> r.len() == root.len() + 1 + name.len()
                && r[root.len() as int] == '/'
            &&& !(root.len() > 0 && root.last() != '/') ==> r.len() == root.len() + name.len()
        }),
{
    let r = resolve(root, name);
    assert(trim_leading_slashes(name) == name);
    assert(r.skip(r.len() - name.len()) =~= name);
}

} // verus!
