//! Load average and process counts from `/proc/loadavg`.

use vstd::prelude::*;

use super::{ParseError, ParseErrorView};
use crate::text::{
    chars_of, copy_range, find, find_char, find_gives_the_first_occurrence, parse_u64,
    parse_u64_spec, split_words, string_from, views, words,
};

verus! {

/// Process counts from `/proc/loadavg`.
#[derive(Clone, Copy, Debug, PartialEq, Eq)]
pub struct LoadCounts {
    /// Currently runnable processes.
    pub runnable: u64,
    /// Total processes on the host.
    pub total_processes: u64,
    /// Most recently created process identifier.
    pub last_pid: u64,
}

/// The fields of `/proc/loadavg`: the three load averages as written, which
/// the caller reads as floating-point numbers in this order, and then the
/// process counts, or the error of the first count that is not a number.
#[derive(Debug, PartialEq, Eq)]
pub struct LoadFields {
    /// One-minute load average, as written.
    pub load1: String,
    /// Five-minute load average, as written.
    pub load5: String,
    /// Fifteen-minute load average, as written.
    pub load15: String,
    /// The process counts.
    pub counts: Result<LoadCounts, ParseError>,
}

/// The mathematical content of [`LoadFields`].
pub struct LoadFieldsView {
    pub load1: Seq<char>,
    pub load5: Seq<char>,
    pub load15: Seq<char>,
    pub counts: Result<LoadCounts, ParseErrorView>,
}

impl View for LoadFields {
    type V = LoadFieldsView;

    open spec fn view(&self) -> LoadFieldsView {
        LoadFieldsView {
            load1: self.load1@,
            load5: self.load5@,
            load15: self.load15@,
            counts: match self.counts {
                Ok(c) => Ok(c),
                Err(e) => Err(e@),
            },
        }
    }
}

/// The count that `raw` spells, or the error naming `field`.
pub open spec fn count_value(raw: Seq<char>, field: Seq<char>) -> Result<u64, ParseErrorView> {
    match parse_u64_spec(raw) {
        Some(v) => Ok(v),
        None => Err(ParseErrorView::InvalidValue { field, value: raw }),
    }
}

/// The process counts of `runnable/total last_pid`, checked in that order.
pub open spec fn counts_of(runnable: Seq<char>, total: Seq<char>, last_pid: Seq<char>) -> Result<
    LoadCounts,
    ParseErrorView,
> {
    match count_value(runnable, "runnable"@) {
        Err(e) => Err(e),
        Ok(r) => match count_value(total, "total_processes"@) {
            Err(e) => Err(e),
            Ok(t) => match count_value(last_pid, "last_pid"@) {
                Err(e) => Err(e),
                Ok(p) => Ok(LoadCounts { runnable: r, total_processes: t, last_pid: p }),
            },
        },
    }
}

/// What `parse_loadavg` gives for the text `s`.
pub open spec fn loadavg_outcome(s: Seq<char>) -> Result<LoadFieldsView, ParseErrorView> {
    let w = words(s);
    if w.len() == 0 {
        Err(ParseErrorView::Empty)
    } else if w.len() < 5 {
        Err(ParseErrorView::MissingField("loadavg"@))
    } else {
        match find(w[3], '/') {
            None => Err(ParseErrorView::InvalidValue { field: "runnable"@, value: w[3] }),
            Some(k) => Ok(
                LoadFieldsView {
                    load1: w[0],
                    load5: w[1],
                    load15: w[2],
                    counts: counts_of(w[3].take(k), w[3].skip(k + 1), w[4]),
                },
            ),
        }
    }
}

/// The three load averages are the first three words, in order; the process
/// counts are the numbers on either side of the first `'/'` of the fourth
/// word and the number of the fifth word. Fewer than five words, or no `'/'`
/// in the fourth, is an error.
pub proof fn loadavg_reads_its_words_in_order(s: Seq<char>)
    ensures
        ({
            let w = words(s);
            &&& (loadavg_outcome(s) is Ok <==> w.len() >= 5 && exists|k: int|
                0 <= k < w[3].len() && w[3][k] == '/')
            &&& (loadavg_outcome(s) matches Ok(f) ==> {
                &&& f.load1 == w[0]
                &&& f.load5 == w[1]
                &&& f.load15 == w[2]
                &&& forall|k: int|
                    0 <= k < w[3].len() && w[3][k] == '/' && (forall|j: int|
                        0 <= j < k ==> w[3][j] != '/') ==> (match (
                        parse_u64_spec(w[3].take(k)),
                        parse_u64_spec(w[3].skip(k + 1)),
                        parse_u64_spec(w[4]),
                    ) {
                        (Some(r), Some(t), Some(p)) => f.counts == Ok::<
                            LoadCounts,
                            ParseErrorView,
                        >(LoadCounts { runnable: r, total_processes: t, last_pid: p }),
                        _ => f.counts is Err,
                    })
            })
        }),
{
    let w = words(s);
    if w.len() >= 5 {
        find_gives_the_first_occurrence(w[3], '/');
        if let Some(k) = find(w[3], '/') {
            assert forall|k2: int|
                0 <= k2 < w[3].len() && w[3][k2] == '/' && (forall|j: int|
                    0 <= j < k2 ==> w[3][j] != '/') implies k2 == k by {
                if k2 < k {
                    assert(w[3][k2] != '/');
                }
                if k < k2 {
                    assert(w[3][k] != '/');
                }
            }
        }
    }
}

fn count(raw: &[char], field: &str) -> (r: Result<u64, ParseError>)
    ensures
        match r {
            Ok(v) => count_value(raw@, field@) == Ok::<u64, ParseErrorView>(v),
            Err(e) => count_value(raw@, field@) == Err::<u64, ParseErrorView>(e@),
        },
{
    match parse_u64(raw) {
        Some(v) => Ok(v),
        None => Err(ParseError::invalid(&chars_of(field), raw)),
    }
}

/// Splits `/proc/loadavg` content into its fields.
pub fn parse_loadavg(input: &str) -> (r: Result<LoadFields, ParseError>)
    ensures
        match r {
            Ok(f) => loadavg_outcome(input@) == Ok::<LoadFieldsView, ParseErrorView>(f@),
            Err(e) => loadavg_outcome(input@) == Err::<LoadFieldsView, ParseErrorView>(e@),
        },
{
    let s = chars_of(input);
    let w = split_words(&s);
    if w.len() == 0 {
        return Err(ParseError::Empty);
    }
    if w.len() < 5 {
        return Err(ParseError::missing("loadavg"));
    }
    assert(views(w@)[0] == w@[0]@ && views(w@)[1] == w@[1]@ && views(w@)[2] == w@[2]@);
    assert(views(w@)[3] == w@[3]@ && views(w@)[4] == w@[4]@);
    let pair = &w[3];
    let k = match find_char(pair, '/') {
        Some(k) => k,
        None => return Err(ParseError::invalid(&chars_of("runnable"), pair)),
    };
    let runnable = copy_range(pair, 0, k);
    let total = copy_range(pair, k + 1, pair.len());
    assert(runnable@ =~= pair@.take(k as int));
    assert(total@ =~= pair@.skip(k + 1));
    let counts = match count(&runnable, "runnable") {
        Err(e) => Err(e),
        Ok(r) => match count(&total, "total_processes") {
            Err(e) => Err(e),
            Ok(t) => match count(&w[4], "last_pid") {
                Err(e) => Err(e),
                Ok(p) => Ok(LoadCounts { runnable: r, total_processes: t, last_pid: p }),
            },
        },
    };
    Ok(
        LoadFields {
            load1: string_from(&w[0]),
            load5: string_from(&w[1]),
            load15: string_from(&w[2]),
            counts,
        },
    )
}

} // verus!
