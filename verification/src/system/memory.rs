//! Memory and swap usage from `/proc/meminfo`.

use vstd::prelude::*;

use super::{ParseError, ParseErrorView, plain_result};
use crate::text::{
    blank, chars_of, is_blank, lines, parse_u64, parse_u64_spec, same_chars, split_lines,
    split_words, views, words,
};

verus! {

/// Memory and swap usage read from `/proc/meminfo`, in bytes.
#[derive(Clone, Copy, Debug, PartialEq, Eq)]
pub struct MemoryMetrics {
    /// Total usable RAM.
    pub total_bytes: u64,
    /// Unused RAM.
    pub free_bytes: u64,
    /// RAM available to new workloads without swapping, when reported.
    pub available_bytes: Option<u64>,
    /// Used RAM: `total - available` when `MemAvailable` is reported,
    /// otherwise `total - free - buffers - cached`.
    pub used_bytes: u64,
    /// Temporary storage for raw block device data.
    pub buffers_bytes: u64,
    /// Page cache memory.
    pub cached_bytes: u64,
    /// Total swap space.
    pub swap_total_bytes: u64,
    /// Unused swap space.
    pub swap_free_bytes: u64,
    /// Used swap space.
    pub swap_used_bytes: u64,
}

/// `a - b`, or zero when `b > a`.
pub open spec fn sat_sub(a: u64, b: u64) -> u64 {
    if a >= b {
        (a - b) as u64
    } else {
        0
    }
}

/// A kibibyte count in bytes, saturating at `u64::MAX`.
pub open spec fn kib_to_bytes(kib: u64) -> u64 {
    if kib * 1024 > u64::MAX {
        u64::MAX
    } else {
        (kib * 1024) as u64
    }
}

/// A `meminfo` key without one trailing `':'`.
pub open spec fn strip_colon(key: Seq<char>) -> Seq<char> {
    if key.len() > 0 && key.last() == ':' {
        key.drop_last()
    } else {
        key
    }
}

/// The fields of the first `n` lines, a later line overriding an earlier one
/// with the same key, or the error for the first value that is not a number.
/// A line with fewer than two words is ignored.
pub open spec fn meminfo_fields(lines: Seq<Seq<char>>, n: int) -> Result<
    Map<Seq<char>, u64>,
    ParseErrorView,
>
    decreases n,
{
    if n <= 0 {
        Ok(Map::empty())
    } else {
        match meminfo_fields(lines, n - 1) {
            Err(e) => Err(e),
            Ok(m) => {
                let w = words(lines[n - 1]);
                if w.len() < 2 {
                    Ok(m)
                } else {
                    let key = strip_colon(w[0]);
                    match parse_u64_spec(w[1]) {
                        Some(kib) => Ok(m.insert(key, kib_to_bytes(kib))),
                        None => Err(ParseErrorView::InvalidValue { field: key, value: w[1] }),
                    }
                }
            },
        }
    }
}

proof fn lemma_meminfo_error_persists(ls: Seq<Seq<char>>, k: int, j: int)
    requires
        0 <= k <= j,
        meminfo_fields(ls, k) is Err,
    ensures
        meminfo_fields(ls, j) == meminfo_fields(ls, k),
    decreases j - k,
{
    if j > k {
        lemma_meminfo_error_persists(ls, k, j - 1);
    }
}

/// The value recorded for `key`, if any.
pub open spec fn field(m: Map<Seq<char>, u64>, key: Seq<char>) -> Option<u64> {
    if m.contains_key(key) {
        Some(m[key])
    } else {
        None
    }
}

/// The value recorded for `key`, or zero.
pub open spec fn field_or_zero(m: Map<Seq<char>, u64>, key: Seq<char>) -> u64 {
    if m.contains_key(key) {
        m[key]
    } else {
        0
    }
}

/// The metrics that a table of `meminfo` fields describes.
pub open spec fn memory_from_fields(m: Map<Seq<char>, u64>) -> MemoryMetrics {
    let total = m["MemTotal"@];
    let free = m["MemFree"@];
    let available = field(m, "MemAvailable"@);
    let buffers = field_or_zero(m, "Buffers"@);
    let cached = field_or_zero(m, "Cached"@);
    let swap_total = field_or_zero(m, "SwapTotal"@);
    let swap_free = field_or_zero(m, "SwapFree"@);
    MemoryMetrics {
        total_bytes: total,
        free_bytes: free,
        available_bytes: available,
        used_bytes: match available {
            Some(a) => sat_sub(total, a),
            None => sat_sub(sat_sub(sat_sub(total, free), buffers), cached),
        },
        buffers_bytes: buffers,
        cached_bytes: cached,
        swap_total_bytes: swap_total,
        swap_free_bytes: swap_free,
        swap_used_bytes: sat_sub(swap_total, swap_free),
    }
}

/// What `parse_meminfo` gives for the text `s`.
pub open spec fn meminfo_outcome(s: Seq<char>) -> Result<MemoryMetrics, ParseErrorView> {
    if is_blank(s) {
        Err(ParseErrorView::Empty)
    } else {
        match meminfo_fields(lines(s), lines(s).len() as int) {
            Err(e) => Err(e),
            Ok(m) => if !m.contains_key("MemTotal"@) {
                Err(ParseErrorView::MissingField("MemTotal"@))
            } else if !m.contains_key("MemFree"@) {
                Err(ParseErrorView::MissingField("MemFree"@))
            } else {
                Ok(memory_from_fields(m))
            },
        }
    }
}

/// Whether line `l` gives a value for `key`: it has at least two words and
/// its first word, without a trailing colon, is `key`.
pub open spec fn is_line_for(l: Seq<char>, key: Seq<char>) -> bool {
    words(l).len() >= 2 && strip_colon(words(l)[0]) == key
}

proof fn lemma_fields_ok_before(ls: Seq<Seq<char>>, k: int, n: int)
    requires
        0 <= k <= n,
        meminfo_fields(ls, n) is Ok,
    ensures
        meminfo_fields(ls, k) is Ok,
{
    if meminfo_fields(ls, k) is Err {
        lemma_meminfo_error_persists(ls, k, n);
    }
}

proof fn lemma_fields_last_line(ls: Seq<Seq<char>>, n: int, key: Seq<char>, j: int)
    requires
        0 <= j < n <= ls.len(),
        is_line_for(ls[j], key),
        forall|k: int| j < k < n ==> !is_line_for(#[trigger] ls[k], key),
        meminfo_fields(ls, n) is Ok,
    ensures
        parse_u64_spec(words(ls[j])[1]) is Some,
        field(meminfo_fields(ls, n)->Ok_0, key) == Some(
            kib_to_bytes(parse_u64_spec(words(ls[j])[1]).unwrap()),
        ),
    decreases n - j,
{
    lemma_fields_ok_before(ls, n - 1, n);
    if n - 1 > j {
        lemma_fields_last_line(ls, n - 1, key, j);
    }
}

proof fn lemma_fields_no_line(ls: Seq<Seq<char>>, n: int, key: Seq<char>)
    requires
        0 <= n <= ls.len(),
        forall|k: int| 0 <= k < n ==> !is_line_for(#[trigger] ls[k], key),
    ensures
        meminfo_fields(ls, n) matches Ok(m) ==> !m.contains_key(key),
    decreases n,
{
    if n > 0 {
        lemma_fields_no_line(ls, n - 1, key);
    }
}

/// Each reported field is the last line giving its key, in bytes: the
/// kibibyte count times 1024, saturating at `u64::MAX`.
pub proof fn meminfo_reports_the_last_line_of_each_key(s: Seq<char>, key: Seq<char>, j: int)
    requires
        meminfo_outcome(s) is Ok,
        0 <= j < lines(s).len(),
        is_line_for(lines(s)[j], key),
        forall|k: int| j < k < lines(s).len() ==> !is_line_for(#[trigger] lines(s)[k], key),
    ensures
        parse_u64_spec(words(lines(s)[j])[1]) is Some,
        ({
            let m = meminfo_outcome(s)->Ok_0;
            let v = kib_to_bytes(parse_u64_spec(words(lines(s)[j])[1]).unwrap());
            &&& key == "MemTotal"@ ==> m.total_bytes == v
            &&& key == "MemFree"@ ==> m.free_bytes == v
            &&& key == "MemAvailable"@ ==> m.available_bytes == Some(v)
            &&& key == "Buffers"@ ==> m.buffers_bytes == v
            &&& key == "Cached"@ ==> m.cached_bytes == v
            &&& key == "SwapTotal"@ ==> m.swap_total_bytes == v
            &&& key == "SwapFree"@ ==> m.swap_free_bytes == v
        }),
{
    lemma_fields_last_line(lines(s), lines(s).len() as int, key, j);
}

/// An optional key that no line gives reads as absent (`MemAvailable`) or as
/// zero (buffers, cache and swap).
pub proof fn meminfo_absent_keys_read_as_nothing(s: Seq<char>, key: Seq<char>)
    requires
        meminfo_outcome(s) is Ok,
        forall|k: int| 0 <= k < lines(s).len() ==> !is_line_for(#[trigger] lines(s)[k], key),
    ensures
        ({
            let m = meminfo_outcome(s)->Ok_0;
            &&& key == "MemAvailable"@ ==> m.available_bytes is None
            &&& key == "Buffers"@ ==> m.buffers_bytes == 0
            &&& key == "Cached"@ ==> m.cached_bytes == 0
            &&& key == "SwapTotal"@ ==> m.swap_total_bytes == 0
            &&& key == "SwapFree"@ ==> m.swap_free_bytes == 0
        }),
{
    lemma_fields_no_line(lines(s), lines(s).len() as int, key);
}

/// Parsing succeeds only when some line gives `MemTotal` and some line
/// gives `MemFree`; blank content is the empty error.
pub proof fn meminfo_requires_total_and_free(s: Seq<char>)
    ensures
        is_blank(s) ==> meminfo_outcome(s) == Err::<MemoryMetrics, ParseErrorView>(
            ParseErrorView::Empty,
        ),
        meminfo_outcome(s) is Ok ==> (exists|j: int|
            0 <= j < lines(s).len() && #[trigger] is_line_for(lines(s)[j], "MemTotal"@)) && (exists|
            j: int,
        | 0 <= j < lines(s).len() && #[trigger] is_line_for(lines(s)[j], "MemFree"@)),
{
    let ls = lines(s);
    if !(exists|j: int| 0 <= j < ls.len() && #[trigger] is_line_for(ls[j], "MemTotal"@)) {
        lemma_fields_no_line(ls, ls.len() as int, "MemTotal"@);
    }
    if !(exists|j: int| 0 <= j < ls.len() && #[trigger] is_line_for(ls[j], "MemFree"@)) {
        lemma_fields_no_line(ls, ls.len() as int, "MemFree"@);
    }
}

/// Used memory is what is not available (or, without `MemAvailable`, what is
/// neither free, buffers nor cache), and used swap is what is not free; each
/// is zero where the subtraction would go below zero.
pub proof fn meminfo_used_is_what_is_not_free(s: Seq<char>)
    ensures
        meminfo_outcome(s) matches Ok(m) ==> {
            &&& (m.swap_free_bytes <= m.swap_total_bytes ==> m.swap_used_bytes
                + m.swap_free_bytes == m.swap_total_bytes)
            &&& (m.swap_free_bytes > m.swap_total_bytes ==> m.swap_used_bytes == 0)
            &&& (m.available_bytes matches Some(a) ==> (a <= m.total_bytes ==> m.used_bytes + a
                == m.total_bytes) && (a > m.total_bytes ==> m.used_bytes == 0))
            &&& (m.available_bytes is None ==> {
                let rest = m.total_bytes - m.free_bytes - m.buffers_bytes - m.cached_bytes;
                (rest >= 0 ==> m.used_bytes == rest) && (rest < 0 ==> m.used_bytes == 0)
            })
        },
{
}

/// A kibibyte count is 1024 bytes each, or `u64::MAX` where that does not
/// fit.
pub proof fn kibibytes_are_1024_bytes(kib: u64)
    ensures
        kib * 1024 <= u64::MAX ==> kib_to_bytes(kib) == kib * 1024,
        kib * 1024 > u64::MAX ==> kib_to_bytes(kib) == u64::MAX,
{
}

fn saturating_sub(a: u64, b: u64) -> (r: u64)
    ensures
        r == sat_sub(a, b),
{
    if a >= b {
        a - b
    } else {
        0
    }
}

/// A kibibyte count in bytes, saturating at `u64::MAX`.
fn kibibytes_in_bytes(kib: u64) -> (b: u64)
    ensures
        b == kib_to_bytes(kib),
{
    if kib > u64::MAX / 1024 {
        u64::MAX
    } else {
        kib * 1024
    }
}

/// Records `value` in `slot` when `key` names it.
fn record(slot: &mut Option<u64>, name: &[char], key: &[char], value: u64)
    ensures
        *final(slot) == (if key@ == name@ {
            Some(value)
        } else {
            *old(slot)
        }),
{
    if same_chars(key, name) {
        *slot = Some(value);
    }
}

/// Parses `/proc/meminfo` content: kibibyte values become bytes, a missing
/// `MemAvailable` falls back to free, buffers and cached memory.
pub fn parse_meminfo(input: &str) -> (r: Result<MemoryMetrics, ParseError>)
    ensures
        plain_result(r) == meminfo_outcome(input@),
        r matches Ok(m) ==> m.used_bytes <= m.total_bytes && m.swap_used_bytes
            <= m.swap_total_bytes,
{
    let s = chars_of(input);
    if blank(&s) {
        return Err(ParseError::Empty);
    }
    let all = split_lines(&s);
    let ghost ls = lines(s@);

    let k_total = chars_of("MemTotal");
    let k_free = chars_of("MemFree");
    let k_available = chars_of("MemAvailable");
    let k_buffers = chars_of("Buffers");
    let k_cached = chars_of("Cached");
    let k_swap_total = chars_of("SwapTotal");
    let k_swap_free = chars_of("SwapFree");

    let mut total: Option<u64> = None;
    let mut free: Option<u64> = None;
    let mut available: Option<u64> = None;
    let mut buffers: Option<u64> = None;
    let mut cached: Option<u64> = None;
    let mut swap_total: Option<u64> = None;
    let mut swap_free: Option<u64> = None;
    let ghost mut m: Map<Seq<char>, u64> = Map::empty();

    let mut n: usize = 0;
    while n < all.len()
        invariant
            s@ == input@,
            !is_blank(s@),
            ls == lines(s@),
            views(all@) == ls,
            n <= all@.len(),
            meminfo_fields(ls, n as int) == Ok::<Map<Seq<char>, u64>, ParseErrorView>(m),
            k_total@ == "MemTotal"@,
            k_free@ == "MemFree"@,
            k_available@ == "MemAvailable"@,
            k_buffers@ == "Buffers"@,
            k_cached@ == "Cached"@,
            k_swap_total@ == "SwapTotal"@,
            k_swap_free@ == "SwapFree"@,
            total == field(m, "MemTotal"@),
            free == field(m, "MemFree"@),
            available == field(m, "MemAvailable"@),
            buffers == field(m, "Buffers"@),
            cached == field(m, "Cached"@),
            swap_total == field(m, "SwapTotal"@),
            swap_free == field(m, "SwapFree"@),
        decreases all.len() - n,
    {
        let w = split_words(&all[n]);
        assert(all@[n as int]@ == ls[n as int]);
        if w.len() >= 2 {
            let raw_key = &w[0];
            let key: Vec<char> = if raw_key.len() > 0 && raw_key[raw_key.len() - 1] == ':' {
                crate::text::copy_range(raw_key, 0, raw_key.len() - 1)
            } else {
                raw_key.clone()
            };
            assert(key@ == strip_colon(words(ls[n as int])[0])) by {
                assert(views(w@)[0] == w@[0]@);
                if raw_key@.len() > 0 && raw_key@.last() == ':' {
                    assert(key@ =~= raw_key@.drop_last());
                }
            }
            assert(views(w@)[1] == w@[1]@);
            match parse_u64(&w[1]) {
                None => {
                    proof {
                        lemma_meminfo_error_persists(ls, n + 1, ls.len() as int);
                    }
                    return Err(ParseError::invalid(&key, &w[1]));
                },
                Some(kib) => {
                    let bytes = kibibytes_in_bytes(kib);
                    record(&mut total, &k_total, &key, bytes);
                    record(&mut free, &k_free, &key, bytes);
                    record(&mut available, &k_available, &key, bytes);
                    record(&mut buffers, &k_buffers, &key, bytes);
                    record(&mut cached, &k_cached, &key, bytes);
                    record(&mut swap_total, &k_swap_total, &key, bytes);
                    record(&mut swap_free, &k_swap_free, &key, bytes);
                    proof {
                        m = m.insert(key@, bytes);
                    }
                },
            }
        }
        n = n + 1;
    }

    let total = match total {
        Some(v) => v,
        None => return Err(ParseError::missing("MemTotal")),
    };
    let free = match free {
        Some(v) => v,
        None => return Err(ParseError::missing("MemFree")),
    };
    let buffers = match buffers {
        Some(v) => v,
        None => 0,
    };
    let cached = match cached {
        Some(v) => v,
        None => 0,
    };
    let swap_total = match swap_total {
        Some(v) => v,
        None => 0,
    };
    let swap_free = match swap_free {
        Some(v) => v,
        None => 0,
    };
    let used = match available {
        Some(a) => saturating_sub(total, a),
        None => saturating_sub(saturating_sub(saturating_sub(total, free), buffers), cached),
    };
    Ok(
        MemoryMetrics {
            total_bytes: total,
            free_bytes: free,
            available_bytes: available,
            used_bytes: used,
            buffers_bytes: buffers,
            cached_bytes: cached,
            swap_total_bytes: swap_total,
            swap_free_bytes: swap_free,
            swap_used_bytes: saturating_sub(swap_total, swap_free),
        },
    )
}

} // verus!
