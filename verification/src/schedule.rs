//! Cron schedules: parsing and next-occurrence computation.
//!
//! A cron expression drives the recurring mode; parsing happens once
//! at startup and a rejected expression aborts the process.  Each
//! cycle recomputes the next scheduled instant for display.

use vstd::prelude::*;
use vstd::string::*;
use crate::error::CoreError;

verus! {

/// The largest instant (Unix seconds) the schedule arithmetic accepts;
/// far beyond any reachable wall-clock time, but safely inside the
/// range the underlying calendar types can represent.
pub const MAX_INSTANT: i64 = 4_000_000_000_000;

#[verifier::external_type_specification]
#[verifier::external_body]
pub struct ExSchedule(cron::Schedule);

/// Whether `cron::Schedule::from_str` accepts an expression; a
/// function of the expression alone.
pub uninterp spec fn cron_parses(expr: Seq<char>) -> bool;

/// The first scheduled instant strictly after `t` (Unix seconds) of
/// the schedule parsed from `expr`, or `None` when no future
/// occurrence exists.  A function of the expression and the instant
/// alone.
pub uninterp spec fn cron_next_after(expr: Seq<char>, t: int) -> Option<i64>;

/// A parsed schedule, kept together with its source expression; built
/// only by `CronSchedule::new`, so the two always agree.
pub struct CronSchedule {
    expr: String,
    sched: cron::Schedule,
}

impl CronSchedule {
    /// The source expression this schedule was parsed from.
    pub closed spec fn expr_view(&self) -> Seq<char> {
        self.expr@
    }
}

/// Relies on cron::Schedule::from_str: whether an expression parses
/// depends on the expression alone.
#[verifier::external_body]
fn parse_schedule(expr: &str) -> (r: Option<cron::Schedule>)
    ensures
        r is Some <==> cron_parses(expr@),
{
    match <cron::Schedule as core::str::FromStr>::from_str(expr) {
        Ok(s) => Some(s),
        Err(_) => None,
    }
}

/// Relies on cron::Schedule::after(..).next(): the first occurrence
/// strictly after the given instant (the search starts one second
/// past it), a deterministic function of the expression and the
/// instant.  Also relies on chrono's Unix-seconds conversions, exact
/// within the required range.
#[verifier::external_body]
fn schedule_next_after(c: &CronSchedule, t: i64) -> (r: Option<i64>)
    requires
        0 <= t < MAX_INSTANT,
    ensures
        r == cron_next_after(c.expr_view(), t as int),
        r matches Some(n) ==> n > t,
{
    match chrono::DateTime::<chrono::Utc>::from_timestamp(t, 0) {
        Some(dt) => c.sched.after(&dt).next().map(|d| d.timestamp()),
        None => None,
    }
}

impl CronSchedule {
    /// Parse a cron expression.  A rejected expression is fatal: the
    /// engine must not start with a schedule it cannot honour.
    pub fn new(expr: &String) -> (r: Result<CronSchedule, CoreError>)
        ensures
            r is Ok <==> cron_parses(expr@),
            r matches Ok(c) ==> c.expr_view() == expr@,
            r matches Err(e) ==> e is Fatal,
    {
        match parse_schedule(expr.as_str()) {
            Some(s) => Ok(CronSchedule { expr: expr.clone(), sched: s }),
            None => Err(CoreError::Fatal(String::from_str("invalid cron expression"))),
        }
    }

    /// The first occurrence strictly after `t`.
    pub fn next_after(&self, t: i64) -> (r: Option<i64>)
        requires
            0 <= t < MAX_INSTANT,
        ensures
            r == cron_next_after(self.expr_view(), t as int),
            r matches Some(n) ==> n > t,
    {
        schedule_next_after(self, t)
    }
}

/// The next scheduled run to display: the first occurrence strictly
/// after `now` in recurring mode, nothing in one-shot mode.
pub open spec fn spec_next_tick(cron: Option<CronSchedule>, now: int) -> Option<i64> {
    match cron {
        Some(c) => cron_next_after(c.expr_view(), now),
        None => None,
    }
}

/// Compute the next scheduled run after `now`.
pub fn compute_next_tick(cron: Option<&CronSchedule>, now: i64) -> (r: Option<i64>)
    requires
        0 <= now < MAX_INSTANT,
    ensures
        match cron {
            Some(c) => r == spec_next_tick(Some(*c), now as int),
            None => r is None,
        },
        r matches Some(n) ==> n > now,
{
    match cron {
        Some(c) => c.next_after(now),
        None => None,
    }
}

} // verus!
