//! Poll schedules written as cron expressions.

use vstd::prelude::*;

use crate::text::{count_words, word_count};
use crate::time::{MAX_SECONDS, MIN_SECONDS};

verus! {

/// A schedule, as the six-field expression or the shorthand that it was read
/// from.
#[derive(Clone, Debug)]
pub struct CronSchedule {
    pub source: String,
}

impl View for CronSchedule {
    type V = Seq<char>;

    open spec fn view(&self) -> Seq<char> {
        self.source@
    }
}

/// An expression with a field for the seconds: shorthands and six fields stand
/// as they are, five fields get second zero in front. No other number of
/// fields is an expression.
pub open spec fn with_seconds(expr: Seq<char>) -> Option<Seq<char>> {
    if expr.len() > 0 && expr[0] == '@' {
        Some(expr)
    } else if word_count(expr) == 5 {
        Some("0 "@ + expr)
    } else if word_count(expr) == 6 {
        Some(expr)
    } else {
        None
    }
}

/// Gives an expression a field for the seconds, or tells how many fields it
/// has where that is neither five nor six.
pub fn normalize(expr: &str) -> (r: Result<String, usize>)
    ensures
        match r {
            Ok(n) => with_seconds(expr@) == Some(n@),
            Err(n) => with_seconds(expr@) is None && n == word_count(expr@),
        },
{
    if !expr.is_empty() && expr.get_char(0) == '@' {
        return Ok(expr.to_string());
    }
    let n: usize = count_words(expr);
    if n == 5 {
        let mut s = "0 ".to_string();
        s.append(expr);
        Ok(s)
    } else if n == 6 {
        Ok(expr.to_string())
    } else {
        Err(n)
    }
}

/// The message with which `cron::Schedule::from_str` refuses a text, or nothing
/// where it reads it.
pub uninterp spec fn cron_fault(source: Seq<char>) -> Option<Seq<char>>;

/// Reads a schedule: `cron::Schedule::from_str`. What comes back is the text of
/// its error, named by `cron_fault`.
#[verifier::external_body]
pub(crate) fn schedule_fault(source: &str) -> (r: Option<String>)
    ensures
        match r {
            Some(m) => cron_fault(source@) == Some(m@),
            None => cron_fault(source@) is None,
        },
{
    source.parse::<cron::Schedule>().err().map(|e| e.to_string())
}

/// The first occurrence, in UTC, that `cron::Schedule::after` gives of a
/// schedule behind a second since 1970-01-01 00:00:00 UTC.
pub uninterp spec fn cron_next(source: Seq<char>, after: int) -> Option<int>;

/// The next occurrence of a schedule: `cron::Schedule::from_str`, then `after`
/// and the first item of its iterator, which starts to look one second behind
/// the point it is given. The result is named by `cron_next`, and lies behind
/// that point and within the calendar's range.
#[verifier::external_body]
pub(crate) fn next_occurrence(source: &str, after: i64) -> (r: Option<i64>)
    requires
        MIN_SECONDS <= after < MAX_SECONDS,
    ensures
        match r {
            Some(t) => cron_next(source@, after as int) == Some(t as int),
            None => cron_next(source@, after as int) is None,
        },
        r matches Some(t) ==> after < t <= MAX_SECONDS,
{
    let start = chrono::DateTime::from_timestamp(after, 0)?;
    let schedule = source.parse::<cron::Schedule>().ok()?;
    let next = schedule.after(&start).next()?;
    Some(next.timestamp())
}

} // verus!
