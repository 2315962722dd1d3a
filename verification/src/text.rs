//! Character-level text handling shared by the `/proc` parsers: lines,
//! whitespace-separated words, trimming and decimal numbers.

use vstd::prelude::*;

verus! {

// ---------------------------------------------------------------------------
// Whitespace
// ---------------------------------------------------------------------------

/// Unicode `White_Space`, the class that `char::is_whitespace` tests.
pub open spec fn is_space(c: char) -> bool {
    let u = c as u32;
    ||| 0x09 <= u <= 0x0D
    ||| u == 0x20
    ||| u == 0x85
    ||| u == 0xA0
    ||| u == 0x1680
    ||| 0x2000 <= u <= 0x200A
    ||| u == 0x2028
    ||| u == 0x2029
    ||| u == 0x202F
    ||| u == 0x205F
    ||| u == 0x3000
}

/// Whether `c` is whitespace.
pub fn is_space_char(c: char) -> (b: bool)
    ensures
        b == is_space(c),
{
    let u = c as u32;
    (0x09 <= u && u <= 0x0D) || u == 0x20 || u == 0x85 || u == 0xA0 || u == 0x1680 || (0x2000
        <= u && u <= 0x200A) || u == 0x2028 || u == 0x2029 || u == 0x202F || u == 0x205F || u
        == 0x3000
}

/// Every character of `s` is whitespace (so `s.trim()` is empty).
pub open spec fn is_blank(s: Seq<char>) -> bool {
    forall|i: int| 0 <= i < s.len() ==> is_space(#[trigger] s[i])
}

/// Whether every character of `s` is whitespace.
pub fn blank(s: &[char]) -> (b: bool)
    ensures
        b == is_blank(s@),
{
    let mut i: usize = 0;
    while i < s.len()
        invariant
            i <= s.len(),
            forall|j: int| 0 <= j < i ==> is_space(#[trigger] s@[j]),
        decreases s.len() - i,
    {
        if !is_space_char(s[i]) {
            return false;
        }
        i = i + 1;
    }
    true
}

// ---------------------------------------------------------------------------
// Sequences of character sequences
// ---------------------------------------------------------------------------

/// The character sequences held by a vector of character vectors.
pub open spec fn views(v: Seq<Vec<char>>) -> Seq<Seq<char>> {
    v.map_values(|x: Vec<char>| x@)
}

pub proof fn lemma_views_push(v: Seq<Vec<char>>, x: Vec<char>)
    ensures
        views(v.push(x)) == views(v).push(x@),
{
    assert(views(v.push(x)) =~= views(v).push(x@));
}

/// The characters of `s` from `start` up to (not including) `end`.
pub fn copy_range(s: &[char], start: usize, end: usize) -> (v: Vec<char>)
    requires
        start <= end <= s@.len(),
    ensures
        v@ == s@.subrange(start as int, end as int),
{
    let mut v: Vec<char> = Vec::new();
    let mut i = start;
    while i < end
        invariant
            start <= i <= end <= s@.len(),
            v@ == s@.subrange(start as int, i as int),
        decreases end - i,
    {
        v.push(s[i]);
        i = i + 1;
        assert(v@ =~= s@.subrange(start as int, i as int));
    }
    v
}

/// The character vectors of `v` from index `from` on.
pub fn copy_tail(v: &[Vec<char>], from: usize) -> (out: Vec<Vec<char>>)
    requires
        from <= v@.len(),
    ensures
        views(out@) == views(v@).skip(from as int),
{
    let mut out: Vec<Vec<char>> = Vec::new();
    let mut i = from;
    while i < v.len()
        invariant
            from <= i <= v@.len(),
            views(out@) == views(v@).subrange(from as int, i as int),
        decreases v.len() - i,
    {
        let item = v[i].clone();
        proof {
            lemma_views_push(out@, item);
        }
        out.push(item);
        i = i + 1;
        assert(views(out@) =~= views(v@).subrange(from as int, i as int));
    }
    assert(views(v@).subrange(from as int, i as int) =~= views(v@).skip(from as int));
    out
}

/// The characters of `s`, in order.
pub fn chars_of(s: &str) -> (v: Vec<char>)
    ensures
        v@ == s@,
{
    let mut v: Vec<char> = Vec::new();
    for c in it: s.chars()
        invariant
            v@ == it.seq().take(it.index() as int),
    {
        v.push(c);
    }
    v
}

/// Appends `c` to `s`.
///
/// Calls `String::push`, which std documents as appending the character to
/// the end of the string; the contract says that the new contents are the old
/// contents followed by `c`.
#[verifier::external_body]
fn push_char(s: &mut String, c: char)
    ensures
        final(s)@ == old(s)@.push(c),
{
    s.push(c);
}

/// A string holding exactly the characters `chars`.
pub fn string_from(chars: &[char]) -> (s: String)
    ensures
        s@ == chars@,
{
    let mut s = String::new();
    let mut i: usize = 0;
    while i < chars.len()
        invariant
            i <= chars@.len(),
            s@ == chars@.take(i as int),
        decreases chars.len() - i,
    {
        push_char(&mut s, chars[i]);
        i = i + 1;
        assert(s@ =~= chars@.take(i as int));
    }
    assert(chars@.take(chars@.len() as int) =~= chars@);
    s
}

/// Whether `a` and `b` hold the same characters.
pub fn same_chars(a: &[char], b: &[char]) -> (r: bool)
    ensures
        r == (a@ == b@),
{
    if a.len() != b.len() {
        return false;
    }
    let mut i: usize = 0;
    while i < a.len()
        invariant
            a@.len() == b@.len(),
            i <= a@.len(),
            forall|j: int| 0 <= j < i ==> a@[j] == b@[j],
        decreases a.len() - i,
    {
        if a[i] != b[i] {
            return false;
        }
        i = i + 1;
    }
    assert(a@ =~= b@);
    true
}

/// Whether `s` begins with `prefix`.
pub fn starts_with(s: &[char], prefix: &[char]) -> (r: bool)
    ensures
        r == (prefix@.len() <= s@.len() && s@.take(prefix@.len() as int) == prefix@),
{
    if prefix.len() > s.len() {
        return false;
    }
    let mut i: usize = 0;
    while i < prefix.len()
        invariant
            prefix@.len() <= s@.len(),
            i <= prefix@.len(),
            forall|j: int| 0 <= j < i ==> s@[j] == prefix@[j],
        decreases prefix.len() - i,
    {
        if s[i] != prefix[i] {
            assert(s@.take(prefix@.len() as int)[i as int] != prefix@[i as int]);
            return false;
        }
        i = i + 1;
    }
    assert(s@.take(prefix@.len() as int) =~= prefix@);
    true
}

/// The first index at or after `i` where `s` holds `c`.
pub open spec fn find_from(s: Seq<char>, c: char, i: int) -> Option<int>
    decreases s.len() - i,
{
    if i >= s.len() {
        None
    } else if s[i] == c {
        Some(i)
    } else {
        find_from(s, c, i + 1)
    }
}

/// The first index where `s` holds `c`.
pub open spec fn find(s: Seq<char>, c: char) -> Option<int> {
    find_from(s, c, 0)
}

proof fn lemma_find_from_bounds(s: Seq<char>, c: char, i: int)
    requires
        0 <= i,
    ensures
        find_from(s, c, i) matches Some(k) ==> i <= k < s.len() && s[k] == c && forall|j: int|
            i <= j < k ==> s[j] != c,
    decreases s.len() - i,
{
    if i < s.len() {
        lemma_find_from_bounds(s, c, i + 1);
    }
}

proof fn lemma_find_from_none(s: Seq<char>, c: char, i: int)
    requires
        0 <= i,
        find_from(s, c, i) is None,
    ensures
        forall|j: int| i <= j < s.len() ==> s[j] != c,
    decreases s.len() - i,
{
    if i < s.len() {
        lemma_find_from_none(s, c, i + 1);
    }
}

/// Finding a character gives the index of its first occurrence, and nothing
/// exactly when it does not occur.
pub proof fn find_gives_the_first_occurrence(s: Seq<char>, c: char)
    ensures
        find(s, c) matches Some(k) ==> 0 <= k < s.len() && s[k] == c && forall|j: int|
            0 <= j < k ==> s[j] != c,
        find(s, c) is None <==> forall|j: int| 0 <= j < s.len() ==> s[j] != c,
{
    lemma_find_from_bounds(s, c, 0);
    if find(s, c) is None {
        lemma_find_from_none(s, c, 0);
    }
}

/// The first index where `s` holds `c`, as `str::find` with a character.
pub fn find_char(s: &[char], c: char) -> (r: Option<usize>)
    ensures
        match find(s@, c) {
            Some(k) => r == Some(k as usize),
            None => r is None,
        },
        r matches Some(k) ==> k < s@.len() && s@[k as int] == c && forall|j: int|
            0 <= j < k ==> s@[j] != c,
        r matches Some(k) ==> find(s@, c) == Some(k as int),
        r is None ==> find(s@, c) is None,
{
    proof {
        lemma_find_from_bounds(s@, c, 0);
    }
    let mut i: usize = 0;
    while i < s.len()
        invariant
            i <= s@.len(),
            find(s@, c) == find_from(s@, c, i as int),
            forall|j: int| 0 <= j < i ==> s@[j] != c,
        decreases s.len() - i,
    {
        if s[i] == c {
            return Some(i);
        }
        i = i + 1;
    }
    None
}

// ---------------------------------------------------------------------------
// Lines
// ---------------------------------------------------------------------------

/// The line that starts at `start` and ends before `end`, where `end` is a
/// newline or the end of the text. A carriage return right before a newline
/// is not part of the line.
pub open spec fn line_text(s: Seq<char>, start: int, end: int) -> Seq<char> {
    if end < s.len() && start < end && s[end - 1] == '\r' {
        s.subrange(start, end - 1)
    } else {
        s.subrange(start, end)
    }
}

/// The lines of `s` from position `i` on, where the current line began at
/// `start`.
pub open spec fn lines_from(s: Seq<char>, start: int, i: int) -> Seq<Seq<char>>
    decreases s.len() - i,
{
    if i >= s.len() {
        if start < s.len() {
            seq![line_text(s, start, s.len() as int)]
        } else {
            seq![]
        }
    } else if s[i] == '\n' {
        seq![line_text(s, start, i)].add(lines_from(s, i + 1, i + 1))
    } else {
        lines_from(s, start, i + 1)
    }
}

/// The lines of `s`, as `str::lines` yields them: split at `'\n'`, a `'\r'`
/// before the newline dropped, and no empty line after a final newline.
pub open spec fn lines(s: Seq<char>) -> Seq<Seq<char>> {
    lines_from(s, 0, 0)
}

proof fn lemma_lines_from_have_no_newline(s: Seq<char>, start: int, i: int)
    requires
        0 <= start <= i <= s.len(),
        forall|j: int| start <= j < i ==> #[trigger] s[j] != '\n',
    ensures
        forall|k: int, m: int|
            0 <= k < lines_from(s, start, i).len() && 0 <= m < lines_from(s, start, i)[k].len()
                ==> #[trigger] lines_from(s, start, i)[k][m] != '\n',
    decreases s.len() - i,
{
    if i >= s.len() {
        if start < s.len() {
            let l = line_text(s, start, s.len() as int);
            assert forall|m: int| 0 <= m < l.len() implies #[trigger] l[m] != '\n' by {
                assert(l[m] == s[start + m]);
            }
            assert(lines_from(s, start, i) == seq![l]);
        } else {
            assert(lines_from(s, start, i) == Seq::<Seq<char>>::empty());
        }
    } else if s[i] == '\n' {
        lemma_lines_from_have_no_newline(s, i + 1, i + 1);
        let l = line_text(s, start, i);
        assert forall|m: int| 0 <= m < l.len() implies #[trigger] l[m] != '\n' by {
            assert(l[m] == s[start + m]);
        }
        let rest = lines_from(s, i + 1, i + 1);
        assert(lines_from(s, start, i) == seq![l].add(rest));
        assert forall|k: int, m: int|
            0 <= k < seq![l].add(rest).len() && 0 <= m < seq![l].add(rest)[k].len() implies #[trigger] seq![
            l].add(rest)[k][m] != '\n' by {
            if k > 0 {
                assert(seq![l].add(rest)[k] == rest[k - 1]);
            } else {
                assert(seq![l].add(rest)[k] == l);
            }
        }
    } else {
        lemma_lines_from_have_no_newline(s, start, i + 1);
        assert(lines_from(s, start, i) == lines_from(s, start, i + 1));
    }
}

/// No line holds a newline.
pub proof fn lines_hold_no_newline(s: Seq<char>)
    ensures
        forall|k: int, m: int|
            0 <= k < lines(s).len() && 0 <= m < lines(s)[k].len() ==> #[trigger] lines(s)[k][m]
                != '\n',
{
    lemma_lines_from_have_no_newline(s, 0, 0);
}

/// The lines of `s`.
pub fn split_lines(s: &[char]) -> (out: Vec<Vec<char>>)
    ensures
        views(out@) == lines(s@),
{
    let mut out: Vec<Vec<char>> = Vec::new();
    let mut start: usize = 0;
    let mut i: usize = 0;
    while i < s.len()
        invariant
            start <= i <= s@.len(),
            views(out@).add(lines_from(s@, start as int, i as int)) == lines(s@),
        decreases s.len() - i,
    {
        if s[i] == '\n' {
            let end = if start < i && s[i - 1] == '\r' {
                i - 1
            } else {
                i
            };
            let line = copy_range(s, start, end);
            proof {
                assert(line@ == line_text(s@, start as int, i as int));
                lemma_views_push(out@, line);
                assert(views(out@.push(line)).add(lines_from(s@, i + 1, i + 1)) =~= views(
                    out@,
                ).add(lines_from(s@, start as int, i as int)));
            }
            out.push(line);
            i = i + 1;
            start = i;
        } else {
            i = i + 1;
        }
    }
    if start < s.len() {
        let line = copy_range(s, start, s.len());
        proof {
            lemma_views_push(out@, line);
            assert(views(out@.push(line)) =~= views(out@).add(
                lines_from(s@, start as int, i as int),
            ));
        }
        out.push(line);
    } else {
        assert(views(out@) =~= views(out@).add(lines_from(s@, start as int, i as int)));
    }
    out
}

// ---------------------------------------------------------------------------
// Words
// ---------------------------------------------------------------------------

/// The word `s[start..i]`, if it is not empty.
pub open spec fn pending_word(s: Seq<char>, start: int, i: int) -> Seq<Seq<char>> {
    if start < i {
        seq![s.subrange(start, i)]
    } else {
        seq![]
    }
}

/// The words of `s` from position `i` on, where the current word began at
/// `start`.
pub open spec fn words_from(s: Seq<char>, start: int, i: int) -> Seq<Seq<char>>
    decreases s.len() - i,
{
    if i >= s.len() {
        pending_word(s, start, i)
    } else if is_space(s[i]) {
        pending_word(s, start, i).add(words_from(s, i + 1, i + 1))
    } else {
        words_from(s, start, i + 1)
    }
}

/// The maximal runs of non-whitespace characters of `s`, as
/// `str::split_whitespace` yields them.
pub open spec fn words(s: Seq<char>) -> Seq<Seq<char>> {
    words_from(s, 0, 0)
}

/// Whether `w` is a non-empty run of characters none of which is
/// whitespace.
pub open spec fn is_word(w: Seq<char>) -> bool {
    w.len() > 0 && forall|m: int| 0 <= m < w.len() ==> !is_space(#[trigger] w[m])
}

proof fn lemma_words_from_shape(s: Seq<char>, start: int, i: int)
    requires
        0 <= start <= i <= s.len(),
        forall|j: int| start <= j < i ==> !is_space(#[trigger] s[j]),
    ensures
        forall|k: int|
            0 <= k < words_from(s, start, i).len() ==> is_word(#[trigger] words_from(s, start, i)[k]),
    decreases s.len() - i,
{
    let p = pending_word(s, start, i);
    assert forall|k: int| 0 <= k < p.len() implies is_word(#[trigger] p[k]) by {
        let w = s.subrange(start, i);
        assert(p[k] == w);
        assert forall|m: int| 0 <= m < w.len() implies !is_space(#[trigger] w[m]) by {
            assert(w[m] == s[start + m]);
        }
    }
    if i >= s.len() {
        assert(words_from(s, start, i) == p);
    } else if is_space(s[i]) {
        lemma_words_from_shape(s, i + 1, i + 1);
        let rest = words_from(s, i + 1, i + 1);
        assert(words_from(s, start, i) == p.add(rest));
        assert forall|k: int| 0 <= k < p.add(rest).len() implies is_word(#[trigger] p.add(rest)[k]) by {
            if k >= p.len() {
                assert(p.add(rest)[k] == rest[k - p.len()]);
            } else {
                assert(p.add(rest)[k] == p[k]);
            }
        }
    } else {
        lemma_words_from_shape(s, start, i + 1);
        assert(words_from(s, start, i) == words_from(s, start, i + 1));
    }
}

/// Every word is a non-empty run of characters none of which is
/// whitespace.
pub proof fn words_are_nonempty_runs_without_whitespace(s: Seq<char>)
    ensures
        forall|k: int| 0 <= k < words(s).len() ==> is_word(#[trigger] words(s)[k]),
{
    lemma_words_from_shape(s, 0, 0);
}

/// The whitespace-separated words of `s`.
pub fn split_words(s: &[char]) -> (out: Vec<Vec<char>>)
    ensures
        views(out@) == words(s@),
{
    let mut out: Vec<Vec<char>> = Vec::new();
    let mut start: usize = 0;
    let mut i: usize = 0;
    while i < s.len()
        invariant
            start <= i <= s@.len(),
            views(out@).add(words_from(s@, start as int, i as int)) == words(s@),
        decreases s.len() - i,
    {
        if is_space_char(s[i]) {
            if start < i {
                let word = copy_range(s, start, i);
                proof {
                    lemma_views_push(out@, word);
                    assert(views(out@.push(word)).add(words_from(s@, i + 1, i + 1)) =~= views(
                        out@,
                    ).add(words_from(s@, start as int, i as int)));
                }
                out.push(word);
            } else {
                assert(views(out@).add(words_from(s@, i + 1, i + 1)) =~= views(out@).add(
                    words_from(s@, start as int, i as int),
                ));
            }
            i = i + 1;
            start = i;
        } else {
            i = i + 1;
        }
    }
    if start < i {
        let word = copy_range(s, start, i);
        proof {
            lemma_views_push(out@, word);
            assert(views(out@.push(word)) =~= views(out@).add(
                words_from(s@, start as int, i as int),
            ));
        }
        out.push(word);
    } else {
        assert(views(out@) =~= views(out@).add(words_from(s@, start as int, i as int)));
    }
    out
}

// ---------------------------------------------------------------------------
// Trimming
// ---------------------------------------------------------------------------

/// `s` without its leading whitespace.
pub open spec fn trim_start(s: Seq<char>) -> Seq<char>
    decreases s.len(),
{
    if s.len() > 0 && is_space(s[0]) {
        trim_start(s.drop_first())
    } else {
        s
    }
}

/// `s` without its trailing whitespace.
pub open spec fn trim_end(s: Seq<char>) -> Seq<char>
    decreases s.len(),
{
    if s.len() > 0 && is_space(s.last()) {
        trim_end(s.drop_last())
    } else {
        s
    }
}

/// `s` without leading and trailing whitespace, as `str::trim` gives it.
pub open spec fn trim(s: Seq<char>) -> Seq<char> {
    trim_end(trim_start(s))
}

proof fn lemma_trim_start_skip(s: Seq<char>, i: int)
    requires
        0 <= i <= s.len(),
        forall|j: int| 0 <= j < i ==> is_space(#[trigger] s[j]),
    ensures
        trim_start(s) == trim_start(s.skip(i)),
    decreases i,
{
    if i > 0 {
        assert(s.skip(1) =~= s.drop_first());
        lemma_trim_start_skip(s.drop_first(), i - 1);
        assert(s.drop_first().skip(i - 1) =~= s.skip(i));
    } else {
        assert(s.skip(0) =~= s);
    }
}

proof fn lemma_trim_end_take(s: Seq<char>, i: int)
    requires
        0 <= i <= s.len(),
        forall|j: int| i <= j < s.len() ==> is_space(#[trigger] s[j]),
    ensures
        trim_end(s) == trim_end(s.take(i)),
    decreases s.len() - i,
{
    if i < s.len() {
        assert(s.take(s.len() - 1) =~= s.drop_last());
        lemma_trim_end_take(s.drop_last(), i);
        assert(s.drop_last().take(i) =~= s.take(i));
    } else {
        assert(s.take(i) =~= s);
    }
}

proof fn lemma_trim_start_shape(s: Seq<char>)
    ensures
        exists|lo: int|
            0 <= lo <= s.len() && trim_start(s) == s.skip(lo) && (forall|j: int|
                0 <= j < lo ==> is_space(#[trigger] s[j])) && (lo < s.len() ==> !is_space(s[lo])),
    decreases s.len(),
{
    if s.len() > 0 && is_space(s[0]) {
        let t = s.drop_first();
        lemma_trim_start_shape(t);
        let lo = choose|lo: int|
            0 <= lo <= t.len() && trim_start(t) == t.skip(lo) && (forall|j: int|
                0 <= j < lo ==> is_space(#[trigger] t[j])) && (lo < t.len() ==> !is_space(t[lo]));
        assert(t.skip(lo) =~= s.skip(lo + 1));
        assert forall|j: int| 0 <= j < lo + 1 implies is_space(#[trigger] s[j]) by {
            if j > 0 {
                assert(s[j] == t[j - 1]);
            }
        }
        assert(lo + 1 < s.len() ==> s[lo + 1] == t[lo]);
    } else {
        assert(s.skip(0) =~= s);
    }
}

proof fn lemma_trim_end_shape(s: Seq<char>)
    ensures
        exists|hi: int|
            0 <= hi <= s.len() && trim_end(s) == s.take(hi) && (forall|j: int|
                hi <= j < s.len() ==> is_space(#[trigger] s[j])) && (hi > 0 ==> !is_space(
                s[hi - 1],
            )),
    decreases s.len(),
{
    if s.len() > 0 && is_space(s.last()) {
        let t = s.drop_last();
        lemma_trim_end_shape(t);
        let hi = choose|hi: int|
            0 <= hi <= t.len() && trim_end(t) == t.take(hi) && (forall|j: int|
                hi <= j < t.len() ==> is_space(#[trigger] t[j])) && (hi > 0 ==> !is_space(
                t[hi - 1],
            ));
        assert(t.take(hi) =~= s.take(hi));
        assert forall|j: int| hi <= j < s.len() implies is_space(#[trigger] s[j]) by {
            if j < s.len() - 1 {
                assert(s[j] == t[j]);
            }
        }
    } else {
        assert(s.take(s.len() as int) =~= s);
    }
}

/// Trimming removes exactly the whitespace around the text: what is left is
/// one contiguous stretch of `s` that starts and ends with a character that
/// is not whitespace, and everything outside it is whitespace. Nothing is
/// left exactly when `s` is all whitespace.
pub proof fn trim_removes_exactly_the_surrounding_whitespace(s: Seq<char>)
    ensures
        exists|lo: int, hi: int|
            0 <= lo <= hi <= s.len() && trim(s) == s.subrange(lo, hi) && (forall|j: int|
                0 <= j < lo ==> is_space(#[trigger] s[j])) && (forall|j: int|
                hi <= j < s.len() ==> is_space(#[trigger] s[j])) && (lo < hi ==> !is_space(s[lo])
                && !is_space(s[hi - 1])),
        trim(s).len() == 0 <==> forall|j: int| 0 <= j < s.len() ==> is_space(#[trigger] s[j]),
{
    lemma_trim_start_shape(s);
    let lo = choose|lo: int|
        0 <= lo <= s.len() && trim_start(s) == s.skip(lo) && (forall|j: int|
            0 <= j < lo ==> is_space(#[trigger] s[j])) && (lo < s.len() ==> !is_space(s[lo]));
    let u = s.skip(lo);
    lemma_trim_end_shape(u);
    let k = choose|hi: int|
        0 <= hi <= u.len() && trim_end(u) == u.take(hi) && (forall|j: int|
            hi <= j < u.len() ==> is_space(#[trigger] u[j])) && (hi > 0 ==> !is_space(u[hi - 1]));
    let hi = lo + k;
    assert(u.take(k) =~= s.subrange(lo, hi));
    assert forall|j: int| hi <= j < s.len() implies is_space(#[trigger] s[j]) by {
        assert(s[j] == u[j - lo]);
    }
    if k > 0 {
        assert(s[hi - 1] == u[k - 1]);
    }
    if trim(s).len() == 0 {
        assert forall|j: int| 0 <= j < s.len() implies is_space(#[trigger] s[j]) by {
            if lo <= j < hi {
                assert(false);
            }
        }
    }
    if forall|j: int| 0 <= j < s.len() ==> is_space(#[trigger] s[j]) {
        if lo < hi {
            assert(is_space(s[lo]));
        }
    }
}

/// The characters of `s` without leading and trailing whitespace.
pub fn trimmed(s: &[char]) -> (t: Vec<char>)
    ensures
        t@ == trim(s@),
{
    let mut lo: usize = 0;
    while lo < s.len() && is_space_char(s[lo])
        invariant
            lo <= s@.len(),
            forall|j: int| 0 <= j < lo ==> is_space(#[trigger] s@[j]),
        decreases s.len() - lo,
    {
        lo = lo + 1;
    }
    proof {
        lemma_trim_start_skip(s@, lo as int);
        if lo < s.len() {
            assert(trim_start(s@.skip(lo as int)) == s@.skip(lo as int));
        } else {
            assert(s@.skip(lo as int) =~= Seq::<char>::empty());
        }
    }
    let mut hi: usize = s.len();
    while hi > lo && is_space_char(s[hi - 1])
        invariant
            lo <= hi <= s@.len(),
            forall|j: int| hi <= j < s@.len() ==> is_space(#[trigger] s@[j]),
        decreases hi,
    {
        hi = hi - 1;
    }
    proof {
        let u = s@.skip(lo as int);
        assert forall|j: int| hi - lo <= j < u.len() implies is_space(#[trigger] u[j]) by {
            assert(u[j] == s@[j + lo]);
        }
        lemma_trim_end_take(u, hi - lo);
        let w = u.take(hi - lo);
        assert(w =~= s@.subrange(lo as int, hi as int));
        if hi > lo {
            assert(w.last() == s@[hi - 1]);
            assert(trim_end(w) == w);
        } else {
            assert(w =~= Seq::<char>::empty());
        }
    }
    copy_range(s, lo, hi)
}

// ---------------------------------------------------------------------------
// Decimal numbers
// ---------------------------------------------------------------------------

/// An ASCII decimal digit.
pub open spec fn is_digit(c: char) -> bool {
    0x30 <= (c as u32) <= 0x39
}

/// The value of the digit `c`.
pub open spec fn digit_value(c: char) -> nat {
    ((c as u32) - 0x30) as nat
}

/// Every character of `s` is an ASCII decimal digit.
pub open spec fn all_digits(s: Seq<char>) -> bool {
    forall|i: int| 0 <= i < s.len() ==> is_digit(#[trigger] s[i])
}

/// The number that the decimal digits `s` spell.
pub open spec fn decimal_value(s: Seq<char>) -> nat
    decreases s.len(),
{
    if s.len() == 0 {
        0
    } else {
        decimal_value(s.drop_last()) * 10 + digit_value(s.last())
    }
}

/// `s` without one leading `'+'`.
pub open spec fn unsigned_digits(s: Seq<char>) -> Seq<char> {
    if s.len() > 0 && s[0] == '+' {
        s.drop_first()
    } else {
        s
    }
}

/// What `from_str` gives for an unsigned integer type whose largest value is
/// `max`: an optional `'+'` and then at least one ASCII digit, with a value
/// that fits.
pub open spec fn unsigned_number(s: Seq<char>, max: nat) -> Option<nat> {
    let d = unsigned_digits(s);
    if d.len() > 0 && all_digits(d) && decimal_value(d) <= max {
        Some(decimal_value(d))
    } else {
        None
    }
}

/// What `u64::from_str` gives for `s`.
pub open spec fn parse_u64_spec(s: Seq<char>) -> Option<u64> {
    match unsigned_number(s, u64::MAX as nat) {
        Some(v) => Some(v as u64),
        None => None,
    }
}

/// What `u32::from_str` gives for `s`.
pub open spec fn parse_u32_spec(s: Seq<char>) -> Option<u32> {
    match unsigned_number(s, u32::MAX as nat) {
        Some(v) => Some(v as u32),
        None => None,
    }
}

/// What `i64::from_str` gives for `s`: an optional sign and then at least one
/// ASCII digit, with a value in range.
pub open spec fn parse_i64_spec(s: Seq<char>) -> Option<i64> {
    if s.len() > 0 && s[0] == '-' {
        let d = s.drop_first();
        if d.len() > 0 && all_digits(d) && decimal_value(d) <= 0x8000_0000_0000_0000 {
            Some((0 - decimal_value(d)) as i64)
        } else {
            None
        }
    } else {
        match unsigned_number(s, i64::MAX as nat) {
            Some(v) => Some(v as i64),
            None => None,
        }
    }
}

proof fn lemma_decimal_take_step(s: Seq<char>, j: int)
    requires
        0 <= j < s.len(),
    ensures
        decimal_value(s.take(j + 1)) == decimal_value(s.take(j)) * 10 + digit_value(s[j]),
{
    assert(s.take(j + 1).drop_last() =~= s.take(j));
}

proof fn lemma_decimal_prefix_le(s: Seq<char>, j: int)
    requires
        0 <= j <= s.len(),
        all_digits(s),
    ensures
        decimal_value(s.take(j)) <= decimal_value(s),
    decreases s.len() - j,
{
    if j < s.len() {
        lemma_decimal_take_step(s, j);
        lemma_decimal_prefix_le(s, j + 1);
    } else {
        assert(s.take(j) =~= s);
    }
}

/// The value of the digits `s[start..]` when they are all digits, not empty,
/// and their value is at most `max`.
fn digits_upto(s: &[char], start: usize, max: u64) -> (r: Option<u64>)
    requires
        start <= s@.len(),
    ensures
        ({
            let d = s@.skip(start as int);
            match r {
                Some(v) => d.len() > 0 && all_digits(d) && decimal_value(d) <= max && v
                    == decimal_value(d),
                None => !(d.len() > 0 && all_digits(d) && decimal_value(d) <= max),
            }
        }),
{
    let ghost d = s@.skip(start as int);
    if start >= s.len() {
        return None;
    }
    let mut value: u64 = 0;
    let mut i = start;
    while i < s.len()
        invariant
            start <= i <= s@.len(),
            d == s@.skip(start as int),
            value <= max,
            all_digits(d.take(i - start)),
            value == decimal_value(d.take(i - start)),
        decreases s.len() - i,
    {
        let c = s[i];
        let u = c as u32;
        if u < 0x30 || u > 0x39 {
            assert(!is_digit(d[i - start]));
            return None;
        }
        let next: u128 = (value as u128) * 10 + ((u - 0x30) as u128);
        proof {
            lemma_decimal_take_step(d, i - start);
            assert(d.take(i - start + 1) =~= d.take(i - start).push(c));
        }
        if next > max as u128 {
            proof {
                if all_digits(d) {
                    lemma_decimal_prefix_le(d, i - start + 1);
                }
            }
            return None;
        }
        value = next as u64;
        i = i + 1;
    }
    assert(d.take(i - start) =~= d);
    Some(value)
}

/// The number `s` spells, as an unsigned integer of at most `max`, with the
/// rules of `from_str` for unsigned integers.
pub fn parse_unsigned(s: &[char], max: u64) -> (r: Option<u64>)
    ensures
        match unsigned_number(s@, max as nat) {
            Some(v) => r == Some(v as u64),
            None => r is None,
        },
{
    let start: usize = if s.len() > 0 && s[0] == '+' {
        1
    } else {
        0
    };
    assert(unsigned_digits(s@) =~= s@.skip(start as int));
    digits_upto(s, start, max)
}

/// `u64::from_str` on the characters `s`.
pub fn parse_u64(s: &[char]) -> (r: Option<u64>)
    ensures
        r == parse_u64_spec(s@),
{
    parse_unsigned(s, u64::MAX)
}

/// `u32::from_str` on the characters `s`.
pub fn parse_u32(s: &[char]) -> (r: Option<u32>)
    ensures
        r == parse_u32_spec(s@),
{
    match parse_unsigned(s, 0xFFFF_FFFF) {
        Some(v) => Some(v as u32),
        None => None,
    }
}

/// `i64::from_str` on the characters `s`.
pub fn parse_i64(s: &[char]) -> (r: Option<i64>)
    ensures
        r == parse_i64_spec(s@),
{
    if s.len() > 0 && s[0] == '-' {
        assert(s@.drop_first() =~= s@.skip(1));
        match digits_upto(s, 1, 0x8000_0000_0000_0000) {
            Some(v) => {
                if v == 0x8000_0000_0000_0000 {
                    Some(i64::MIN)
                } else {
                    let w = v as i64;
                    Some(0 - w)
                }
            },
            None => None,
        }
    } else {
        match parse_unsigned(s, 0x7FFF_FFFF_FFFF_FFFF) {
            Some(v) => Some(v as i64),
            None => None,
        }
    }
}

} // verus!
