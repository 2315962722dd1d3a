//! Mounted filesystems from `/proc/mounts`, and the capacity figures that
//! `statvfs` block counts describe.

use vstd::prelude::*;

use super::{ParseError, ParseErrorView};
use crate::text::{
    chars_of, lines, same_chars, split_lines, split_words, string_from, views, words,
};

verus! {

/// One mount described by `/proc/mounts`.
#[derive(Clone, Debug, PartialEq, Eq)]
pub struct MountEntry {
    /// Source device or pseudo-source.
    pub source: String,
    /// Mount point.
    pub mount_point: String,
    /// Filesystem type.
    pub fs_type: String,
}

/// The mathematical content of a [`MountEntry`].
pub struct MountEntryView {
    pub source: Seq<char>,
    pub mount_point: Seq<char>,
    pub fs_type: Seq<char>,
}

impl View for MountEntry {
    type V = MountEntryView;

    open spec fn view(&self) -> MountEntryView {
        MountEntryView {
            source: self.source@,
            mount_point: self.mount_point@,
            fs_type: self.fs_type@,
        }
    }
}

/// The views of a sequence of mount entries.
pub open spec fn entry_views(v: Seq<MountEntry>) -> Seq<MountEntryView> {
    v.map_values(|e: MountEntry| e@)
}

/// Filesystem types excluded from the disk response: kernel-internal or
/// synthetic filesystems such as `proc`, `sysfs`, `cgroup2`, and container
/// `overlay` layers.
pub open spec fn pseudo_fs_types() -> Seq<Seq<char>> {
    seq![
        "autofs"@,
        "binfmt_misc"@,
        "bpf"@,
        "cgroup"@,
        "cgroup2"@,
        "configfs"@,
        "debugfs"@,
        "devpts"@,
        "devtmpfs"@,
        "efivarfs"@,
        "fusectl"@,
        "hugetlbfs"@,
        "mqueue"@,
        "nsfs"@,
        "overlay"@,
        "proc"@,
        "pstore"@,
        "ramfs"@,
        "securityfs"@,
        "sysfs"@,
        "tmpfs"@,
        "tracefs"@,
    ]
}

/// The names of the filesystem types excluded from the disk response.
pub fn pseudo_fs_type_names() -> (v: Vec<&'static str>)
    ensures
        v@.len() == pseudo_fs_types().len(),
        forall|i: int| 0 <= i < v@.len() ==> #[trigger] v@[i]@ == pseudo_fs_types()[i],
{
    vec![
        "autofs",
        "binfmt_misc",
        "bpf",
        "cgroup",
        "cgroup2",
        "configfs",
        "debugfs",
        "devpts",
        "devtmpfs",
        "efivarfs",
        "fusectl",
        "hugetlbfs",
        "mqueue",
        "nsfs",
        "overlay",
        "proc",
        "pstore",
        "ramfs",
        "securityfs",
        "sysfs",
        "tmpfs",
        "tracefs",
    ]
}

/// Whether a mount of type `fs_type` is a pseudo-filesystem.
pub open spec fn is_pseudo_type(fs_type: Seq<char>) -> bool {
    pseudo_fs_types().contains(fs_type)
}

impl MountEntry {
    /// Whether this mount is a kernel-internal or synthetic filesystem.
    pub fn is_pseudo(&self) -> (r: bool)
        ensures
            r == is_pseudo_type(self.fs_type@),
    {
        let names = pseudo_fs_type_names();
        let fs_type = chars_of(self.fs_type.as_str());
        let mut i: usize = 0;
        while i < names.len()
            invariant
                names@.len() == pseudo_fs_types().len(),
                forall|j: int| 0 <= j < names@.len() ==> #[trigger] names@[j]@ == pseudo_fs_types()[j],
                fs_type@ == self.fs_type@,
                i <= names@.len(),
                forall|j: int| 0 <= j < i ==> pseudo_fs_types()[j] != fs_type@,
            decreases names.len() - i,
        {
            let name = chars_of(names[i]);
            if same_chars(&fs_type, &name) {
                assert(pseudo_fs_types()[i as int] == fs_type@);
                return true;
            }
            i = i + 1;
        }
        false
    }
}

/// The mounts that the disk response keeps: every entry that is not a
/// pseudo-filesystem, in their order.
pub open spec fn included(entries: Seq<MountEntryView>) -> Seq<MountEntryView> {
    entries.filter(|e: MountEntryView| !is_pseudo_type(e.fs_type))
}

/// The mounts that are not pseudo-filesystems, in their order.
pub fn included_mounts(entries: Vec<MountEntry>) -> (r: Vec<MountEntry>)
    ensures
        entry_views(r@) == included(entry_views(entries@)),
{
    let ghost all = entry_views(entries@);
    let mut r: Vec<MountEntry> = Vec::new();
    let mut i: usize = 0;
    let count = entries.len();
    let mut rest = entries;
    proof {
        assert(entry_views(r@) =~= included(all.take(0)));
    }
    while rest.len() > 0
        invariant
            i + rest@.len() == all.len(),
            all.len() == count,
            forall|j: int| 0 <= j < rest@.len() ==> #[trigger] rest@[j]@ == all[i + j],
            entry_views(r@) == included(all.take(i as int)),
        decreases rest.len(),
    {
        let ghost before = rest@;
        let e = rest.remove(0);
        proof {
            assert(e@ == all[i as int]);
            assert forall|j: int| 0 <= j < rest@.len() implies #[trigger] rest@[j]@ == all[i + 1
                + j] by {
                assert(rest@[j] == before[j + 1]);
            }
            assert(all.take(i + 1).drop_last() =~= all.take(i as int));
            reveal_with_fuel(Seq::filter, 1);
        }
        if !e.is_pseudo() {
            proof {
                assert(entry_views(r@.push(e)) =~= entry_views(r@).push(e@));
            }
            r.push(e);
        }
        i = i + 1;
    }
    assert(all.take(i as int) =~= all);
    r
}

/// The disk response keeps exactly the mounts that are not pseudo-filesystems:
/// none of the kept mounts is a pseudo-filesystem, every mount that is not one
/// is kept, and nothing is added.
pub proof fn included_mounts_exclude_exactly_pseudo_filesystems(entries: Seq<MountEntryView>)
    ensures
        forall|i: int|
            0 <= i < included(entries).len() ==> !is_pseudo_type(
                #[trigger] included(entries)[i].fs_type,
            ),
        forall|i: int|
            0 <= i < entries.len() && !is_pseudo_type(entries[i].fs_type) ==> #[trigger] included(
                entries,
            ).contains(entries[i]),
        included(entries).len() <= entries.len(),
{
    let pred = |e: MountEntryView| !is_pseudo_type(e.fs_type);
    assert forall|i: int| 0 <= i < included(entries).len() implies !is_pseudo_type(
        #[trigger] included(entries)[i].fs_type,
    ) by {
        entries.lemma_filter_pred(pred, i);
    }
    assert forall|i: int|
        0 <= i < entries.len() && !is_pseudo_type(entries[i].fs_type) implies #[trigger] included(
        entries,
    ).contains(entries[i]) by {
        entries.lemma_filter_contains(pred, i);
    }
    entries.lemma_filter_len(pred);
}

/// Whether `c` is an octal digit.
pub open spec fn is_octal(c: char) -> bool {
    0x30 <= (c as u32) <= 0x37
}

/// The number of octal digits, at most three, that start at `j`.
pub open spec fn octal_run(s: Seq<char>, j: int) -> int {
    if j < s.len() && is_octal(s[j]) {
        if j + 1 < s.len() && is_octal(s[j + 1]) {
            if j + 2 < s.len() && is_octal(s[j + 2]) {
                3
            } else {
                2
            }
        } else {
            1
        }
    } else {
        0
    }
}

/// The character whose code the three octal digits at `j` spell.
pub open spec fn octal_char(s: Seq<char>, j: int) -> char {
    (((s[j] as u32) - 0x30) * 64 + ((s[j + 1] as u32) - 0x30) * 8 + ((s[j + 2] as u32)
        - 0x30)) as char
}

/// `s` from position `i` on with every backslash followed by three octal
/// digits replaced by the character of that code; any other backslash is
/// kept with the digits that follow it.
pub open spec fn unescape_from(s: Seq<char>, i: int) -> Seq<char>
    decreases s.len() - i,
{
    if i >= s.len() || i < 0 {
        seq![]
    } else if s[i] != '\\' {
        seq![s[i]].add(unescape_from(s, i + 1))
    } else {
        let n = octal_run(s, i + 1);
        if n == 3 {
            seq![octal_char(s, i + 1)].add(unescape_from(s, i + 4))
        } else {
            seq!['\\'].add(s.subrange(i + 1, i + 1 + n)).add(unescape_from(s, i + 1 + n))
        }
    }
}

proof fn lemma_unescape_plain_from(s: Seq<char>, i: int)
    requires
        0 <= i <= s.len(),
        forall|j: int| 0 <= j < s.len() ==> s[j] != '\\',
    ensures
        unescape_from(s, i) == s.skip(i),
    decreases s.len() - i,
{
    if i < s.len() {
        lemma_unescape_plain_from(s, i + 1);
        assert(seq![s[i]].add(s.skip(i + 1)) =~= s.skip(i));
    } else {
        assert(s.skip(i) =~= Seq::<char>::empty());
    }
}

/// Text without a backslash is not changed by decoding.
pub proof fn unescape_leaves_plain_text_unchanged(s: Seq<char>)
    requires
        forall|j: int| 0 <= j < s.len() ==> s[j] != '\\',
    ensures
        unescape(s) == s,
{
    lemma_unescape_plain_from(s, 0);
    assert(s.skip(0) =~= s);
}

proof fn lemma_unescape_from_suffix(s: Seq<char>, i: int, k: int)
    requires
        0 <= i <= k <= s.len(),
    ensures
        unescape_from(s, k) == unescape_from(s.skip(i), k - i),
    decreases s.len() - k,
{
    let t = s.skip(i);
    if k < s.len() {
        assert(t[k - i] == s[k]);
        if s[k] != '\\' {
            lemma_unescape_from_suffix(s, i, k + 1);
        } else {
            let n = octal_run(s, k + 1);
            assert forall|m: int| k + 1 <= m < s.len() implies #[trigger] t[m - i] == s[m] by {}
            assert(octal_run(t, k - i + 1) == n);
            if n == 3 {
                assert(octal_char(t, k - i + 1) == octal_char(s, k + 1));
                lemma_unescape_from_suffix(s, i, k + 4);
            } else {
                assert(t.subrange(k - i + 1, k - i + 1 + n) =~= s.subrange(k + 1, k + 1 + n));
                lemma_unescape_from_suffix(s, i, k + 1 + n);
            }
        }
    }
}

proof fn lemma_unescape_plain_prefix(a: Seq<char>, s: Seq<char>, k: int)
    requires
        0 <= k <= a.len() <= s.len(),
        s.take(a.len() as int) == a,
        forall|j: int| 0 <= j < a.len() ==> a[j] != '\\',
    ensures
        unescape_from(s, k) == a.skip(k) + unescape_from(s, a.len() as int),
    decreases a.len() - k,
{
    if k < a.len() {
        assert(s[k] == a[k]);
        lemma_unescape_plain_prefix(a, s, k + 1);
        assert(seq![a[k]] + a.skip(k + 1) =~= a.skip(k));
        assert(seq![s[k]] + (a.skip(k + 1) + unescape_from(s, a.len() as int)) =~= a.skip(k)
            + unescape_from(s, a.len() as int));
    } else {
        assert(a.skip(k) =~= Seq::<char>::empty());
        assert(a.skip(k) + unescape_from(s, a.len() as int) =~= unescape_from(s, a.len() as int));
    }
}

/// A backslash followed by three octal digits decodes to the one character
/// whose code they spell; the text before it, free of backslashes, is kept,
/// and the text after it is decoded on its own.
pub proof fn unescape_decodes_an_octal_escape(
    a: Seq<char>,
    d1: char,
    d2: char,
    d3: char,
    b: Seq<char>,
)
    requires
        forall|j: int| 0 <= j < a.len() ==> a[j] != '\\',
        is_octal(d1),
        is_octal(d2),
        is_octal(d3),
    ensures
        unescape(a + seq!['\\', d1, d2, d3] + b) == a + seq![
            (((d1 as u32) - 0x30) * 64 + ((d2 as u32) - 0x30) * 8 + ((d3 as u32) - 0x30)) as char,
        ] + unescape(b),
{
    let s = a + seq!['\\', d1, d2, d3] + b;
    let n = a.len() as int;
    assert(s.take(n) =~= a);
    lemma_unescape_plain_prefix(a, s, 0);
    assert(a.skip(0) =~= a);
    assert(s[n] == '\\' && s[n + 1] == d1 && s[n + 2] == d2 && s[n + 3] == d3);
    assert(octal_run(s, n + 1) == 3);
    lemma_unescape_from_suffix(s, n + 4, n + 4);
    assert(s.skip(n + 4) =~= b);
    assert(a + (seq![octal_char(s, n + 1)] + unescape_from(b, 0)) =~= a + seq![
        octal_char(s, n + 1),
    ] + unescape_from(b, 0));
}

/// A backslash that is not followed by an octal digit is kept as it is; the
/// text before it, free of backslashes, is kept, and the text after it is
/// decoded on its own.
pub proof fn unescape_keeps_a_lone_backslash(a: Seq<char>, b: Seq<char>)
    requires
        forall|j: int| 0 <= j < a.len() ==> a[j] != '\\',
        b.len() == 0 || !is_octal(b[0]),
    ensures
        unescape(a + seq!['\\'] + b) == a + seq!['\\'] + unescape(b),
{
    let s = a + seq!['\\'] + b;
    let n = a.len() as int;
    assert(s.take(n) =~= a);
    lemma_unescape_plain_prefix(a, s, 0);
    assert(a.skip(0) =~= a);
    assert(s[n] == '\\');
    assert(n + 1 < s.len() ==> s[n + 1] == b[0]);
    assert(octal_run(s, n + 1) == 0);
    lemma_unescape_from_suffix(s, n + 1, n + 1);
    assert(s.skip(n + 1) =~= b);
    assert(s.subrange(n + 1, n + 1) =~= Seq::<char>::empty());
    assert(a + (seq!['\\'] + Seq::<char>::empty() + unescape_from(b, 0)) =~= a + seq!['\\']
        + unescape_from(b, 0));
}

/// `s` with the octal escapes of `/proc/mounts` decoded.
pub open spec fn unescape(s: Seq<char>) -> Seq<char> {
    unescape_from(s, 0)
}

/// The character with code `code`, if there is one.
///
/// Calls `char::from_u32`, which std documents as returning `None` exactly
/// when `code` is a surrogate or above `0x10FFFF`, and otherwise the character
/// with that code.
#[verifier::external_body]
fn char_from_code(code: u32) -> (r: Option<char>)
    ensures
        (code < 0xD800 || 0xE000 <= code <= 0x10FFFF) ==> r == Some(code as char),
        !(code < 0xD800 || 0xE000 <= code <= 0x10FFFF) ==> r is None,
{
    char::from_u32(code)
}

fn octal(c: char) -> (b: bool)
    ensures
        b == is_octal(c),
{
    let u = c as u32;
    0x30 <= u && u <= 0x37
}

/// Decodes the octal escapes (`\040` for a space) that `/proc/mounts` uses in
/// paths.
pub fn unescape_octal(input: &[char]) -> (r: Vec<char>)
    ensures
        r@ == unescape(input@),
{
    let mut out: Vec<char> = Vec::new();
    let mut i: usize = 0;
    while i < input.len()
        invariant
            i <= input@.len(),
            out@.add(unescape_from(input@, i as int)) == unescape(input@),
        decreases input.len() - i,
    {
        let c = input[i];
        if c != '\\' {
            proof {
                assert(out@.push(c).add(unescape_from(input@, i + 1)) =~= out@.add(
                    unescape_from(input@, i as int),
                ));
            }
            out.push(c);
            i = i + 1;
        } else {
            let j = i + 1;
            let mut n: usize = 0;
            while n < 3 && n < input.len() - j && octal(input[j + n])
                invariant
                    j == i + 1,
                    i < input@.len(),
                    j <= input@.len(),
                    n <= 3,
                    j + n <= input@.len(),
                    forall|k: int| j <= k < j + n ==> is_octal(#[trigger] input@[k]),
                decreases 3 - n,
            {
                n = n + 1;
            }
            assert(n == octal_run(input@, j as int));
            if n == 3 {
                let code: u32 = ((input[j] as u32) - 0x30) * 64 + ((input[j + 1] as u32) - 0x30)
                    * 8 + ((input[j + 2] as u32) - 0x30);
                match char_from_code(code) {
                    Some(d) => {
                        proof {
                            assert(d == octal_char(input@, j as int));
                            assert(out@.push(d).add(unescape_from(input@, i + 4)) =~= out@.add(
                                unescape_from(input@, i as int),
                            ));
                        }
                        out.push(d);
                    },
                    None => {
                        assert(false);
                    },
                }
                i = i + 4;
            } else {
                let ghost before = out@;
                out.push('\\');
                let mut k: usize = 0;
                while k < n
                    invariant
                        j == i + 1,
                        n < 3,
                        j + n <= input@.len(),
                        input@.len() == input.len(),
                        k <= n,
                        out@ == before.push('\\').add(input@.subrange(j as int, j + k)),
                    decreases n - k,
                {
                    out.push(input[j + k]);
                    k = k + 1;
                    assert(out@ =~= before.push('\\').add(input@.subrange(j as int, j + k)));
                }
                proof {
                    assert(out@.add(unescape_from(input@, j + n)) =~= before.add(
                        unescape_from(input@, i as int),
                    ));
                }
                i = j + n;
            }
        }
    }
    assert(out@ =~= out@.add(unescape_from(input@, i as int)));
    out
}

/// The entries of the first `n` lines, or the error for the first line with
/// fewer than four fields. A blank line is skipped.
pub open spec fn mounts_scan(ls: Seq<Seq<char>>, n: int) -> Result<
    Seq<MountEntryView>,
    ParseErrorView,
>
    decreases n,
{
    if n <= 0 {
        Ok(seq![])
    } else {
        match mounts_scan(ls, n - 1) {
            Err(e) => Err(e),
            Ok(found) => {
                let w = words(ls[n - 1]);
                if w.len() == 0 {
                    Ok(found)
                } else if w.len() < 4 {
                    Err(ParseErrorView::InvalidValue { field: "mounts"@, value: ls[n - 1] })
                } else {
                    Ok(
                        found.push(
                            MountEntryView {
                                source: unescape(w[0]),
                                mount_point: unescape(w[1]),
                                fs_type: w[2],
                            },
                        ),
                    )
                }
            },
        }
    }
}

proof fn lemma_mounts_scan_error_persists(ls: Seq<Seq<char>>, k: int, j: int)
    requires
        0 <= k <= j,
        mounts_scan(ls, k) is Err,
    ensures
        mounts_scan(ls, j) == mounts_scan(ls, k),
    decreases j - k,
{
    if j > k {
        lemma_mounts_scan_error_persists(ls, k, j - 1);
    }
}

/// What `parse_mounts` gives for the text `s`.
pub open spec fn mounts_outcome(s: Seq<char>) -> Result<Seq<MountEntryView>, ParseErrorView> {
    match mounts_scan(lines(s), lines(s).len() as int) {
        Err(e) => Err(e),
        Ok(found) => if found.len() == 0 {
            Err(ParseErrorView::Empty)
        } else {
            Ok(found)
        },
    }
}

/// Whether `entry` is what line `l` describes: its first word, unescaped,
/// is the source; its second, unescaped, the mount point; its third the
/// filesystem type.
pub open spec fn is_line_of_mount(l: Seq<char>, entry: MountEntryView) -> bool {
    let w = words(l);
    &&& w.len() >= 4
    &&& entry.source == unescape(w[0])
    &&& entry.mount_point == unescape(w[1])
    &&& entry.fs_type == w[2]
}

proof fn lemma_mounts_come_from_lines(ls: Seq<Seq<char>>, n: int)
    requires
        0 <= n <= ls.len(),
    ensures
        mounts_scan(ls, n) matches Ok(found) ==> forall|i: int|
            0 <= i < found.len() ==> exists|j: int|
                0 <= j < n && is_line_of_mount(ls[j], #[trigger] found[i]),
        mounts_scan(ls, n) is Ok ==> forall|j: int|
            0 <= j < n ==> (#[trigger] words(ls[j])).len() == 0 || words(ls[j]).len() >= 4,
    decreases n,
{
    if n > 0 {
        lemma_mounts_come_from_lines(ls, n - 1);
        if let Ok(found) = mounts_scan(ls, n) {
            if mounts_scan(ls, n - 1) is Err {
                lemma_mounts_scan_error_persists(ls, n - 1, n);
            }
            let before = mounts_scan(ls, n - 1)->Ok_0;
            assert forall|i: int| 0 <= i < found.len() implies exists|j: int|
                0 <= j < n && is_line_of_mount(ls[j], #[trigger] found[i]) by {
                if i < before.len() {
                    assert(found[i] == before[i]);
                    let j = choose|j: int| 0 <= j < n - 1 && is_line_of_mount(ls[j], before[i]);
                    assert(0 <= j < n && is_line_of_mount(ls[j], found[i]));
                } else {
                    assert(is_line_of_mount(ls[n - 1], found[i]));
                }
            }
        }
    }
}

proof fn lemma_mounts_keep_every_line(ls: Seq<Seq<char>>, n: int)
    requires
        0 <= n <= ls.len(),
    ensures
        mounts_scan(ls, n) matches Ok(found) ==> forall|j: int|
            0 <= j < n && (#[trigger] words(ls[j])).len() > 0 ==> exists|i: int|
                0 <= i < found.len() && #[trigger] is_line_of_mount(ls[j], found[i]),
    decreases n,
{
    if n > 0 {
        lemma_mounts_keep_every_line(ls, n - 1);
        if let Ok(found) = mounts_scan(ls, n) {
            if mounts_scan(ls, n - 1) is Err {
                lemma_mounts_scan_error_persists(ls, n - 1, n);
            }
            let before = mounts_scan(ls, n - 1)->Ok_0;
            assert(forall|i: int| 0 <= i < before.len() ==> found[i] == before[i]);
            assert forall|j: int| 0 <= j < n && (#[trigger] words(ls[j])).len() > 0 implies exists|
                i: int,
            | 0 <= i < found.len() && #[trigger] is_line_of_mount(ls[j], found[i]) by {
                if j < n - 1 {
                    let i = choose|i: int|
                        0 <= i < before.len() && #[trigger] is_line_of_mount(ls[j], before[i]);
                    assert(is_line_of_mount(ls[j], found[i]));
                } else {
                    assert(is_line_of_mount(ls[j], found[found.len() - 1]));
                }
            }
        }
    }
}

/// Every line of parsed `/proc/mounts` content that is not blank gives a
/// mount entry.
pub proof fn every_mount_line_gives_an_entry(s: Seq<char>)
    ensures
        mounts_outcome(s) matches Ok(found) ==> forall|j: int|
            0 <= j < lines(s).len() && (#[trigger] words(lines(s)[j])).len() > 0 ==> exists|i: int|
                0 <= i < found.len() && #[trigger] is_line_of_mount(lines(s)[j], found[i]),
{
    lemma_mounts_keep_every_line(lines(s), lines(s).len() as int);
}

/// Every parsed mount entry is what one line of the content describes, and
/// parsing succeeds only when every line is blank or has at least four
/// fields.
pub proof fn parsed_mounts_come_from_their_own_lines(s: Seq<char>)
    ensures
        mounts_outcome(s) matches Ok(found) ==> forall|i: int|
            0 <= i < found.len() ==> exists|j: int|
                0 <= j < lines(s).len() && is_line_of_mount(lines(s)[j], #[trigger] found[i]),
        mounts_outcome(s) is Ok ==> forall|j: int|
            0 <= j < lines(s).len() ==> (#[trigger] words(lines(s)[j])).len() == 0 || words(
                lines(s)[j],
            ).len() >= 4,
{
    lemma_mounts_come_from_lines(lines(s), lines(s).len() as int);
}

/// Parses `/proc/mounts` content, decoding octal escapes in the source and
/// mount point.
pub fn parse_mounts(input: &str) -> (r: Result<Vec<MountEntry>, ParseError>)
    ensures
        match r {
            Ok(v) => mounts_outcome(input@) == Ok::<Seq<MountEntryView>, ParseErrorView>(
                entry_views(v@),
            ),
            Err(e) => mounts_outcome(input@) == Err::<Seq<MountEntryView>, ParseErrorView>(e@),
        },
{
    let s = chars_of(input);
    let all = split_lines(&s);
    let ghost ls = lines(s@);
    let field = chars_of("mounts");
    let mut entries: Vec<MountEntry> = Vec::new();
    assert(entry_views(entries@) =~= Seq::<MountEntryView>::empty());
    let mut n: usize = 0;
    while n < all.len()
        invariant
            s@ == input@,
            ls == lines(s@),
            views(all@) == ls,
            field@ == "mounts"@,
            n <= all@.len(),
            mounts_scan(ls, n as int) == Ok::<Seq<MountEntryView>, ParseErrorView>(
                entry_views(entries@),
            ),
        decreases all.len() - n,
    {
        let line = &all[n];
        assert(line@ == ls[n as int]);
        let w = split_words(line);
        if w.len() > 0 {
            if w.len() < 4 {
                let e = ParseError::invalid(&field, line);
                proof {
                    lemma_mounts_scan_error_persists(ls, n + 1, ls.len() as int);
                }
                return Err(e);
            }
            assert(views(w@)[0] == w@[0]@ && views(w@)[1] == w@[1]@ && views(w@)[2] == w@[2]@);
            let entry = MountEntry {
                source: string_from(&unescape_octal(&w[0])),
                mount_point: string_from(&unescape_octal(&w[1])),
                fs_type: string_from(&w[2]),
            };
            proof {
                assert(entry_views(entries@.push(entry)) =~= entry_views(entries@).push(entry@));
            }
            entries.push(entry);
        }
        n = n + 1;
    }
    if entries.len() == 0 {
        return Err(ParseError::Empty);
    }
    Ok(entries)
}

/// Capacity figures of one filesystem, in bytes.
#[derive(Clone, Copy, Debug, PartialEq, Eq)]
pub struct DiskCounts {
    /// Total size.
    pub total_bytes: u64,
    /// Free bytes available to the superuser.
    pub free_bytes: u64,
    /// Free bytes available to unprivileged users.
    pub available_bytes: u64,
    /// Used bytes: `total - free`.
    pub used_bytes: u64,
    /// Space that unprivileged users can address: `used + available`.
    pub addressable_bytes: u64,
}

/// `a * b`, saturating at `u64::MAX`.
pub open spec fn sat_mul(a: u64, b: u64) -> u64 {
    if a * b > u64::MAX {
        u64::MAX
    } else {
        (a * b) as u64
    }
}

/// `a + b`, saturating at `u64::MAX`.
pub open spec fn sat_add(a: u64, b: u64) -> u64 {
    if a + b > u64::MAX {
        u64::MAX
    } else {
        (a + b) as u64
    }
}

/// The capacity arithmetic is exact where the result fits in a `u64`: a
/// product or sum that would not fit is `u64::MAX`, a difference that would go
/// below zero is zero.
pub proof fn capacity_arithmetic_is_exact_when_it_fits(a: u64, b: u64)
    ensures
        a * b <= u64::MAX ==> sat_mul(a, b) == a * b,
        a * b > u64::MAX ==> sat_mul(a, b) == u64::MAX,
        a + b <= u64::MAX ==> sat_add(a, b) == a + b,
        a + b > u64::MAX ==> sat_add(a, b) == u64::MAX,
        a >= b ==> crate::system::memory::sat_sub(a, b) + b == a,
        a < b ==> crate::system::memory::sat_sub(a, b) == 0,
{
}

fn saturating_mul(a: u64, b: u64) -> (r: u64)
    ensures
        r == sat_mul(a, b),
{
    assert((a as int) * (b as int) <= 0xFFFF_FFFF_FFFF_FFFF * 0xFFFF_FFFF_FFFF_FFFF) by (
    nonlinear_arith)
        requires
            0 <= a <= 0xFFFF_FFFF_FFFF_FFFF,
            0 <= b <= 0xFFFF_FFFF_FFFF_FFFF,
    ;
    let p: u128 = (a as u128) * (b as u128);
    if p > u64::MAX as u128 {
        u64::MAX
    } else {
        p as u64
    }
}

/// The capacity figures that `statvfs` block counts and the fragment size
/// describe, each product saturating at `u64::MAX`.
pub fn disk_counts(blocks: u64, blocks_free: u64, blocks_available: u64, fragment_size: u64) -> (r:
    DiskCounts)
    ensures
        r.total_bytes == sat_mul(blocks, fragment_size),
        r.free_bytes == sat_mul(blocks_free, fragment_size),
        r.available_bytes == sat_mul(blocks_available, fragment_size),
        r.used_bytes == crate::system::memory::sat_sub(r.total_bytes, r.free_bytes),
        r.addressable_bytes == sat_add(r.used_bytes, r.available_bytes),
        r.used_bytes <= r.total_bytes,
        r.used_bytes <= r.addressable_bytes,
{
    let total = saturating_mul(blocks, fragment_size);
    let free = saturating_mul(blocks_free, fragment_size);
    let available = saturating_mul(blocks_available, fragment_size);
    let used = if total >= free {
        total - free
    } else {
        0
    };
    let addressable = if used as u128 + available as u128 > u64::MAX as u128 {
        u64::MAX
    } else {
        used + available
    };
    DiskCounts {
        total_bytes: total,
        free_bytes: free,
        available_bytes: available,
        used_bytes: used,
        addressable_bytes: addressable,
    }
}

} // verus!
