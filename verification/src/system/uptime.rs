//! System uptime and idle time from `/proc/uptime`.

use vstd::prelude::*;

use super::{ParseError, ParseErrorView};
use crate::text::{chars_of, split_words, string_from, views, words};

verus! {

/// The fields of `/proc/uptime` as written: seconds since boot, then the
/// aggregate idle seconds when present. The caller reads them as
/// floating-point numbers, the uptime first.
#[derive(Debug, PartialEq, Eq)]
pub struct UptimeFields {
    /// Seconds since the system booted, as written.
    pub uptime: String,
    /// Aggregate idle seconds, as written, when present.
    pub idle: Option<String>,
}

/// The mathematical content of [`UptimeFields`].
pub struct UptimeFieldsView {
    pub uptime: Seq<char>,
    pub idle: Option<Seq<char>>,
}

impl View for UptimeFields {
    type V = UptimeFieldsView;

    open spec fn view(&self) -> UptimeFieldsView {
        UptimeFieldsView {
            uptime: self.uptime@,
            idle: match self.idle {
                Some(i) => Some(i@),
                None => None,
            },
        }
    }
}

/// What `parse_uptime` gives for the text `s`.
pub open spec fn uptime_outcome(s: Seq<char>) -> Result<UptimeFieldsView, ParseErrorView> {
    let w = words(s);
    if w.len() == 0 {
        Err(ParseErrorView::Empty)
    } else {
        Ok(
            UptimeFieldsView {
                uptime: w[0],
                idle: if w.len() > 1 {
                    Some(w[1])
                } else {
                    None
                },
            },
        )
    }
}

/// Splits `/proc/uptime` content into its fields.
pub fn parse_uptime(input: &str) -> (r: Result<UptimeFields, ParseError>)
    ensures
        match r {
            Ok(f) => uptime_outcome(input@) == Ok::<UptimeFieldsView, ParseErrorView>(f@),
            Err(e) => uptime_outcome(input@) == Err::<UptimeFieldsView, ParseErrorView>(e@),
        },
{
    let s = chars_of(input);
    let w = split_words(&s);
    if w.len() == 0 {
        return Err(ParseError::Empty);
    }
    assert(views(w@)[0] == w@[0]@);
    let idle = if w.len() > 1 {
        assert(views(w@)[1] == w@[1]@);
        Some(string_from(&w[1]))
    } else {
        None
    };
    Ok(UptimeFields { uptime: string_from(&w[0]), idle })
}

/// The uptime is the first word and the idle time the second, when there
/// is one; blank content is an error.
pub proof fn uptime_reads_its_words_in_order(s: Seq<char>)
    ensures
        uptime_outcome(s) is Err <==> words(s).len() == 0,
        uptime_outcome(s) matches Ok(f) ==> f.uptime == words(s)[0] && (words(s).len() >= 2
            ==> f.idle == Some(words(s)[1])) && (words(s).len() < 2 ==> f.idle is None),
{
}

} // verus!
