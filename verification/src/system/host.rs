//! Best-effort host metadata: `/etc/os-release`, kernel identification and
//! the boot time from `/proc/stat`.

use vstd::prelude::*;

use crate::text::{
    chars_of, copy_range, find, find_char, lines, parse_i64, parse_i64_spec, split_lines,
    is_space, starts_with, string_from, trim, trim_removes_exactly_the_surrounding_whitespace, trimmed,
    views,
};

verus! {

/// Selected fields from `/etc/os-release`.
#[derive(Clone, Debug, PartialEq, Eq)]
pub struct OsRelease {
    /// Distribution identifier, for example `ubuntu`.
    pub id: Option<String>,
    /// Distribution name.
    pub name: Option<String>,
    /// Distribution version.
    pub version: Option<String>,
    /// Human-readable distribution description.
    pub pretty_name: Option<String>,
}

/// The characters of an optional string.
pub open spec fn opt_view(s: Option<String>) -> Option<Seq<char>> {
    match s {
        Some(v) => Some(v@),
        None => None,
    }
}

/// The mathematical content of an [`OsRelease`].
pub struct OsReleaseView {
    pub id: Option<Seq<char>>,
    pub name: Option<Seq<char>>,
    pub version: Option<Seq<char>>,
    pub pretty_name: Option<Seq<char>>,
}

impl View for OsRelease {
    type V = OsReleaseView;

    open spec fn view(&self) -> OsReleaseView {
        OsReleaseView {
            id: opt_view(self.id),
            name: opt_view(self.name),
            version: opt_view(self.version),
            pretty_name: opt_view(self.pretty_name),
        }
    }
}

/// A value without one pair of surrounding double quotes.
pub open spec fn unquote_spec(v: Seq<char>) -> Seq<char> {
    if v.len() >= 2 && v[0] == '"' && v.last() == '"' {
        v.subrange(1, v.len() - 1)
    } else {
        v
    }
}

/// A value wrapped in one pair of double quotes loses that pair and nothing
/// else; a value that does not both start and end with a double quote is
/// kept as it is.
pub proof fn unquote_removes_one_pair_of_quotes(v: Seq<char>)
    ensures
        unquote_spec(seq!['"'] + v + seq!['"']) == v,
        (v.len() == 0 || v[0] != '"' || v.last() != '"') ==> unquote_spec(v) == v,
{
    let q = seq!['"'] + v + seq!['"'];
    assert(q.subrange(1, q.len() - 1) =~= v);
}

/// `value` without one pair of surrounding double quotes.
pub fn unquote(value: &[char]) -> (r: Vec<char>)
    ensures
        r@ == unquote_spec(value@),
{
    let n = value.len();
    if n >= 2 && value[0] == '"' && value[n - 1] == '"' {
        copy_range(value, 1, n - 1)
    } else {
        copy_range(value, 0, n)
    }
}

/// The value of `key` in the lines from index `i` on: the first line of the
/// form `name=value` whose trimmed name is `key`, its value trimmed and
/// unquoted.
pub open spec fn os_field_from(ls: Seq<Seq<char>>, key: Seq<char>, i: int) -> Option<Seq<char>>
    decreases ls.len() - i,
{
    if i >= ls.len() || i < 0 {
        None
    } else {
        match find(ls[i], '=') {
            Some(k) => if trim(ls[i].take(k)) == key {
                Some(unquote_spec(trim(ls[i].skip(k + 1))))
            } else {
                os_field_from(ls, key, i + 1)
            },
            None => os_field_from(ls, key, i + 1),
        }
    }
}

/// What `parse_os_release` gives for the text `s`.
pub open spec fn os_release_of(s: Seq<char>) -> OsReleaseView {
    OsReleaseView {
        id: os_field_from(lines(s), "ID"@, 0),
        name: os_field_from(lines(s), "NAME"@, 0),
        version: os_field_from(lines(s), "VERSION"@, 0),
        pretty_name: os_field_from(lines(s), "PRETTY_NAME"@, 0),
    }
}

/// Whether line `l` sets `key`: it has a `'='` and the text before the
/// first one, trimmed, is `key`.
pub open spec fn sets_key(l: Seq<char>, key: Seq<char>) -> bool {
    find(l, '=') matches Some(k) && trim(l.take(k)) == key
}

proof fn lemma_os_field_first_line(ls: Seq<Seq<char>>, key: Seq<char>, i: int, j: int)
    requires
        0 <= i <= j < ls.len(),
        sets_key(ls[j], key),
        forall|m: int| i <= m < j ==> !sets_key(#[trigger] ls[m], key),
    ensures
        find(ls[j], '=') matches Some(k) && os_field_from(ls, key, i) == Some(
            unquote_spec(trim(ls[j].skip(k + 1))),
        ),
    decreases j - i,
{
    if i < j {
        assert(!sets_key(ls[i], key));
        lemma_os_field_first_line(ls, key, i + 1, j);
    }
}

proof fn lemma_os_field_absent(ls: Seq<Seq<char>>, key: Seq<char>, i: int)
    requires
        0 <= i <= ls.len(),
        forall|m: int| i <= m < ls.len() ==> !sets_key(#[trigger] ls[m], key),
    ensures
        os_field_from(ls, key, i) is None,
    decreases ls.len() - i,
{
    if i < ls.len() {
        assert(!sets_key(ls[i], key));
        lemma_os_field_absent(ls, key, i + 1);
    }
}

/// Each os-release field is the value on the first line that sets its key
/// (`ID`, `NAME`, `VERSION`, `PRETTY_NAME`): the text after the first `'='`,
/// trimmed, without one pair of surrounding double quotes. A key that no
/// line sets is absent.
pub proof fn os_release_reads_the_first_line_of_each_key(s: Seq<char>, key: Seq<char>)
    ensures
        ({
            let r = os_release_of(s);
            let ls = lines(s);
            let v = if exists|j: int| 0 <= j < ls.len() && sets_key(#[trigger] ls[j], key) {
                let j = choose|j: int|
                    0 <= j < ls.len() && sets_key(#[trigger] ls[j], key) && forall|m: int|
                        0 <= m < j ==> !sets_key(#[trigger] ls[m], key);
                Some(unquote_spec(trim(ls[j].skip(find(ls[j], '=')->Some_0 + 1))))
            } else {
                None
            };
            &&& key == "ID"@ ==> r.id == v
            &&& key == "NAME"@ ==> r.name == v
            &&& key == "VERSION"@ ==> r.version == v
            &&& key == "PRETTY_NAME"@ ==> r.pretty_name == v
        }),
{
    let ls = lines(s);
    if exists|j: int| 0 <= j < ls.len() && sets_key(#[trigger] ls[j], key) {
        let j0 = choose|j: int| 0 <= j < ls.len() && sets_key(#[trigger] ls[j], key);
        lemma_first_setting_line(ls, key, j0);
        let j = choose|j: int|
            0 <= j < ls.len() && sets_key(#[trigger] ls[j], key) && forall|m: int|
                0 <= m < j ==> !sets_key(#[trigger] ls[m], key);
        lemma_os_field_first_line(ls, key, 0, j);
    } else {
        lemma_os_field_absent(ls, key, 0);
    }
}

proof fn lemma_first_setting_line(ls: Seq<Seq<char>>, key: Seq<char>, j0: int)
    requires
        0 <= j0 < ls.len(),
        sets_key(ls[j0], key),
    ensures
        exists|j: int|
            0 <= j < ls.len() && sets_key(#[trigger] ls[j], key) && forall|m: int|
                0 <= m < j ==> !sets_key(#[trigger] ls[m], key),
    decreases j0,
{
    if exists|m: int| 0 <= m < j0 && sets_key(#[trigger] ls[m], key) {
        let m = choose|m: int| 0 <= m < j0 && sets_key(#[trigger] ls[m], key);
        lemma_first_setting_line(ls, key, m);
    }
}

/// The value of `key` among the `lines`.
fn os_field(all: &Vec<Vec<char>>, key: &str) -> (r: Option<String>)
    ensures
        opt_view(r) == os_field_from(views(all@), key@, 0),
{
    let ghost ls = views(all@);
    let k_chars = chars_of(key);
    let mut i: usize = 0;
    while i < all.len()
        invariant
            ls == views(all@),
            k_chars@ == key@,
            i <= all@.len(),
            os_field_from(ls, key@, 0) == os_field_from(ls, key@, i as int),
        decreases all.len() - i,
    {
        let line = &all[i];
        assert(line@ == ls[i as int]);
        match find_char(line, '=') {
            Some(k) => {
                let head = copy_range(line, 0, k);
                assert(head@ =~= line@.take(k as int));
                let name = trimmed(&head);
                if crate::text::same_chars(&name, &k_chars) {
                    assert(k < line.len());
                    let tail = copy_range(line, k + 1, line.len());
                    assert(tail@ =~= line@.skip(k + 1));
                    let value = unquote(&trimmed(&tail));
                    return Some(string_from(&value));
                }
            },
            None => {},
        }
        i = i + 1;
    }
    None
}

/// Parses `/etc/os-release` content; a field that is absent is `None`.
pub fn parse_os_release(input: &str) -> (r: OsRelease)
    ensures
        r@ == os_release_of(input@),
{
    let s = chars_of(input);
    let all = split_lines(&s);
    OsRelease {
        id: os_field(&all, "ID"),
        name: os_field(&all, "NAME"),
        version: os_field(&all, "VERSION"),
        pretty_name: os_field(&all, "PRETTY_NAME"),
    }
}

/// The earliest Unix timestamp that `time::OffsetDateTime` represents:
/// `-9999-01-01T00:00:00Z`.
pub open spec fn min_unix_seconds() -> int {
    -377705116800
}

/// The latest Unix timestamp that `time::OffsetDateTime` represents:
/// `9999-12-31T23:59:59Z`.
pub open spec fn max_unix_seconds() -> int {
    253402300799
}

/// Whether `time::OffsetDateTime::from_unix_timestamp` accepts `seconds`.
///
/// Calls that function and reports whether it returned `Ok`. Its source
/// accepts exactly the timestamps from the start of `Date::MIN` to the end of
/// `Date::MAX` in UTC, which without the `large-dates` feature are the years
/// -9999 through 9999; the contract states those bounds.
#[verifier::external_body]
fn timestamp_in_range(seconds: i64) -> (ok: bool)
    ensures
        ok == (min_unix_seconds() <= seconds <= max_unix_seconds()),
{
    time::OffsetDateTime::from_unix_timestamp(seconds).is_ok()
}

/// A point in time, as seconds since the Unix epoch in UTC.
#[derive(Clone, Copy, Debug, PartialEq, Eq)]
pub struct BootTime {
    /// Seconds since `1970-01-01T00:00:00Z`.
    pub unix_seconds: i64,
}

impl BootTime {
    /// Seconds since the Unix epoch.
    pub fn unix_timestamp(&self) -> (r: i64)
        ensures
            r == self.unix_seconds,
    {
        self.unix_seconds
    }
}

/// The first line at or after `i` that starts with `"btime "`.
pub open spec fn btime_line_from(ls: Seq<Seq<char>>, i: int) -> Option<Seq<char>>
    decreases ls.len() - i,
{
    if i >= ls.len() || i < 0 {
        None
    } else if ls[i].len() >= 6 && ls[i].take(6) == "btime "@ {
        Some(ls[i].skip(6))
    } else {
        btime_line_from(ls, i + 1)
    }
}

/// What `parse_boot_time` gives for `/proc/stat` text `s`: the value of the
/// first `btime` line, when it is an integer that `OffsetDateTime` can hold.
pub open spec fn boot_time_of(s: Seq<char>) -> Option<BootTime> {
    match btime_line_from(lines(s), 0) {
        None => None,
        Some(rest) => match parse_i64_spec(trim(rest)) {
            None => None,
            Some(seconds) => if min_unix_seconds() <= seconds <= max_unix_seconds() {
                Some(BootTime { unix_seconds: seconds })
            } else {
                None
            },
        },
    }
}

proof fn lemma_btime_first_line(ls: Seq<Seq<char>>, i: int, j: int)
    requires
        0 <= i <= j < ls.len(),
        ls[j].len() >= 6 && ls[j].take(6) == "btime "@,
        forall|m: int| i <= m < j ==> !((#[trigger] ls[m]).len() >= 6 && ls[m].take(6) == "btime "@),
    ensures
        btime_line_from(ls, i) == Some(ls[j].skip(6)),
    decreases j - i,
{
    if i < j {
        lemma_btime_first_line(ls, i + 1, j);
    }
}

proof fn lemma_btime_absent(ls: Seq<Seq<char>>, i: int)
    requires
        0 <= i <= ls.len(),
        forall|m: int| i <= m < ls.len() ==> !((#[trigger] ls[m]).len() >= 6 && ls[m].take(6) == "btime "@),
    ensures
        btime_line_from(ls, i) is None,
    decreases ls.len() - i,
{
    if i < ls.len() {
        lemma_btime_absent(ls, i + 1);
    }
}

/// The boot time is the integer on the first line that starts with
/// `btime `, surrounding whitespace ignored, when it is a timestamp that
/// `OffsetDateTime` can hold; with no such line, or a value that is not such
/// an integer, there is none.
pub proof fn boot_time_reads_the_first_btime_line(s: Seq<char>, j: int)
    requires
        0 <= j < lines(s).len(),
        lines(s)[j].len() >= 6 && lines(s)[j].take(6) == "btime "@,
        forall|m: int|
            0 <= m < j ==> !((#[trigger] lines(s)[m]).len() >= 6 && lines(s)[m].take(6)
                == "btime "@),
    ensures
        boot_time_of(s) == (match parse_i64_spec(trim(lines(s)[j].skip(6))) {
            Some(v) => if min_unix_seconds() <= v <= max_unix_seconds() {
                Some(BootTime { unix_seconds: v })
            } else {
                None
            },
            None => None,
        }),
{
    lemma_btime_first_line(lines(s), 0, j);
}

/// Content without a line that starts with `btime ` gives no boot time.
pub proof fn boot_time_needs_a_btime_line(s: Seq<char>)
    requires
        forall|m: int|
            0 <= m < lines(s).len() ==> !((#[trigger] lines(s)[m]).len() >= 6 && lines(s)[m].take(
                6,
            ) == "btime "@),
    ensures
        boot_time_of(s) is None,
{
    lemma_btime_absent(lines(s), 0);
}

/// Reads the boot time from the `btime` line of `/proc/stat` content.
pub fn parse_boot_time(input: &str) -> (r: Option<BootTime>)
    ensures
        r == boot_time_of(input@),
{
    let s = chars_of(input);
    let all = split_lines(&s);
    let ghost ls = lines(s@);
    let prefix = chars_of("btime ");
    proof {
        reveal_strlit("btime ");
    }
    let mut i: usize = 0;
    while i < all.len()
        invariant
            s@ == input@,
            ls == lines(s@),
            views(all@) == ls,
            prefix@ == "btime "@,
            prefix@.len() == 6,
            i <= all@.len(),
            btime_line_from(ls, 0) == btime_line_from(ls, i as int),
        decreases all.len() - i,
    {
        let line = &all[i];
        assert(line@ == ls[i as int]);
        if starts_with(line, &prefix) {
            let rest = copy_range(line, 6, line.len());
            assert(rest@ =~= line@.skip(6));
            let seconds = match parse_i64(&trimmed(&rest)) {
                Some(v) => v,
                None => return None,
            };
            if timestamp_in_range(seconds) {
                return Some(BootTime { unix_seconds: seconds });
            } else {
                return None;
            }
        }
        i = i + 1;
    }
    None
}

/// Best-effort host information. Every field but the architecture is optional
/// because a host may lack any of the sources.
#[derive(Clone, Debug, PartialEq, Eq)]
pub struct HostMetrics {
    /// Hostname reported by the kernel.
    pub hostname: Option<String>,
    /// Build architecture of this daemon binary.
    pub architecture: String,
    /// Kernel release, for example `6.8.0-45-generic`.
    pub kernel_release: Option<String>,
    /// Kernel build version string.
    pub kernel_version: Option<String>,
    /// Parsed `/etc/os-release`, when present.
    pub os: Option<OsRelease>,
    /// System boot time, when reported.
    pub boot_time: Option<BootTime>,
}

/// The trimmed contents of a source, when it was read and is not blank.
pub open spec fn meaningful(content: Option<Seq<char>>) -> Option<Seq<char>> {
    match content {
        Some(c) => if trim(c).len() > 0 {
            Some(trim(c))
        } else {
            None
        },
        None => None,
    }
}

/// A source that was read and is not all whitespace is reported whole, with
/// only its leading and trailing whitespace removed: one contiguous stretch
/// of the content that starts and ends with a character that is not
/// whitespace, with nothing but whitespace outside it. A source that was not
/// read, or is all whitespace, is reported as absent.
pub proof fn meaningful_keeps_the_content_without_surrounding_whitespace(
    content: Option<Seq<char>>,
)
    ensures
        content is None ==> meaningful(content) is None,
        content matches Some(c) ==> (meaningful(content) is None <==> forall|j: int|
            0 <= j < c.len() ==> is_space(#[trigger] c[j])),
        content matches Some(c) ==> (meaningful(content) matches Some(t) ==> exists|
            lo: int,
            hi: int,
        |
            0 <= lo < hi <= c.len() && t == c.subrange(lo, hi) && (forall|j: int|
                0 <= j < lo ==> is_space(#[trigger] c[j])) && (forall|j: int|
                hi <= j < c.len() ==> is_space(#[trigger] c[j])) && !is_space(t[0]) && !is_space(
                t.last(),
            )),
{
    if let Some(c) = content {
        trim_removes_exactly_the_surrounding_whitespace(c);
        if let Some(t) = meaningful(content) {
            let (lo, hi) = choose|lo: int, hi: int|
                0 <= lo <= hi <= c.len() && trim(c) == c.subrange(lo, hi) && (forall|j: int|
                    0 <= j < lo ==> is_space(#[trigger] c[j])) && (forall|j: int|
                    hi <= j < c.len() ==> is_space(#[trigger] c[j])) && (lo < hi ==> !is_space(
                    c[lo],
                ) && !is_space(c[hi - 1]));
            assert(t[0] == c[lo]);
            assert(t.last() == c[hi - 1]);
        }
    }
}

/// The trimmed contents of `content`, or `None` when it is absent or blank.
pub fn meaningful_text(content: &Option<String>) -> (r: Option<String>)
    ensures
        opt_view(r) == meaningful(opt_view(*content)),
{
    match content {
        Some(c) => {
            let t = trimmed(&chars_of(c.as_str()));
            if t.len() > 0 {
                Some(string_from(&t))
            } else {
                None
            }
        },
        None => None,
    }
}

/// The host metrics that the contents of the metadata sources describe: the
/// kernel hostname, release and version files, `/etc/os-release` and
/// `/proc/stat`, each `None` when it could not be read.
pub fn host_metrics(
    hostname: &Option<String>,
    architecture: String,
    kernel_release: &Option<String>,
    kernel_version: &Option<String>,
    os_release: &Option<String>,
    stat: &Option<String>,
) -> (r: HostMetrics)
    ensures
        opt_view(r.hostname) == meaningful(opt_view(*hostname)),
        r.architecture == architecture,
        opt_view(r.kernel_release) == meaningful(opt_view(*kernel_release)),
        opt_view(r.kernel_version) == meaningful(opt_view(*kernel_version)),
        match *os_release {
            Some(c) => r.os matches Some(os) && os@ == os_release_of(c@),
            None => r.os is None,
        },
        match *stat {
            Some(c) => r.boot_time == boot_time_of(c@),
            None => r.boot_time is None,
        },
{
    let os = match os_release {
        Some(c) => Some(parse_os_release(c.as_str())),
        None => None,
    };
    let boot_time = match stat {
        Some(c) => parse_boot_time(c.as_str()),
        None => None,
    };
    HostMetrics {
        hostname: meaningful_text(hostname),
        architecture,
        kernel_release: meaningful_text(kernel_release),
        kernel_version: meaningful_text(kernel_version),
        os,
        boot_time,
    }
}

} // verus!
