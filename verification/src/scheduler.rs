//! The scheduler engine: one full cycle of detect-then-update.
//!
//! A cycle detects the public address, stamps it into the status
//! store together with the next scheduled run, and then lets every
//! configured provider record the outcome of its retry loop.  A
//! failed detection ends the cycle early: nothing is updated, and the
//! next trigger retries from scratch.  A provider's failure is
//! isolated — it lands in that provider's own status entry and
//! nowhere else.
//!
//! The asynchronous driver outside the crate performs the actual
//! upsert calls and feeds their outcomes back in; `one_cycle` is the
//! engine's decision content over those outcomes, and the helper
//! step functions (`begin_cycle`, `provider_succeeded`,
//! `provider_gave_up`) are what the driver calls as the cycle
//! unfolds.

use vstd::prelude::*;
use vstd::string::*;
use crate::detector::first_hit;
use crate::detector::resolve_detection;
use crate::provider::ProviderEntry;
use crate::provider::entry_keys;
use crate::retry::{run_retry, RetryOutcome, spec_retry_succeeds, spec_attempts, MAX_RETRY, backoff_table};
use crate::schedule::{CronSchedule, cron_next_after, compute_next_tick, MAX_INSTANT};
use crate::status::{
    AppStatus,
    StatusView,
    StatView,
    Event,
    EventView,
    opt_time_view,
    lemma_with_stat_same_key,
    lemma_with_stat_other_key,
    lemma_with_stat_frame,
};

verus! {

/// What one provider's upsert attempts would return this cycle:
/// per-attempt success, and the failure text recorded if the provider
/// gives up.
pub struct ProviderRun {
    pub results: Vec<bool>,
    pub error: String,
}

/// Whether each provider's retry loop ends in success.
pub open spec fn run_succ(runs: Seq<ProviderRun>) -> Seq<bool> {
    runs.map_values(|r: ProviderRun| spec_retry_succeeds(r.results@))
}

/// The failure text each provider would record on give-up.
pub open spec fn run_errs(runs: Seq<ProviderRun>) -> Seq<Seq<char>> {
    runs.map_values(|r: ProviderRun| r.error@)
}

/// The next scheduled run after `now`: the cron schedule's first
/// occurrence strictly after it, or nothing in one-shot mode.
pub open spec fn next_tick_of(cron: Option<&CronSchedule>, now: int) -> Option<i64> {
    match cron {
        Some(c) => cron_next_after(c.expr_view(), now),
        None => None,
    }
}

/// The success timestamp written for one provider outcome.
pub open spec fn provider_ok_view(succ: bool, now: int) -> Option<int> {
    if succ {
        Some(now)
    } else {
        None
    }
}

/// The failure text written for one provider outcome.
pub open spec fn provider_err_view(succ: bool, err: Seq<char>) -> Option<Seq<char>> {
    if succ {
        None
    } else {
        Some(err)
    }
}

/// The status store after the first `upto` providers have recorded
/// their outcome, starting from the post-detection state.
pub open spec fn update_fold(
    m: StatusView,
    keys: Seq<Seq<char>>,
    succ: Seq<bool>,
    errs: Seq<Seq<char>>,
    now: int,
    upto: int,
) -> StatusView
    decreases upto,
{
    if upto <= 0 {
        m
    } else {
        update_fold(m, keys, succ, errs, now, upto - 1).with_stat(
            keys[upto - 1],
            provider_ok_view(succ[upto - 1], now),
            provider_err_view(succ[upto - 1], errs[upto - 1]),
        )
    }
}

/// The log line published for one provider outcome.
pub open spec fn provider_log_view(key: Seq<char>, succ: bool, err: Seq<char>) -> Seq<char> {
    if succ {
        key + " OK"@
    } else {
        key + " give up: "@ + err
    }
}

/// Record a fresh detection: stamp the cycle time, the address and
/// the next scheduled run, and build the status-changed and log
/// events to publish.
pub fn begin_cycle(status: &mut AppStatus, ip: &String, now: i64, cron: Option<&CronSchedule>) -> (evs: (
    Event,
    Event,
))
    requires
        0 <= now < MAX_INSTANT,
    ensures
        final(status)@ == old(status)@.with_detected(
            now as int,
            ip@,
            opt_time_view(next_tick_of(cron, now as int)),
        ),
        evs.0@ == EventView::Status(final(status)@),
        evs.1@ == EventView::Log("detected IP "@ + ip@),
{
    let next = compute_next_tick(cron, now);
    status.set_detected(now, ip.clone(), next);
    let snap = status.snapshot();
    let log = String::from_str("detected IP ").concat(ip.as_str());
    (Event::Status(snap), Event::Log(log))
}

/// Record one provider's success: stamp the success time, clear any
/// stored error, and build the events to publish.
pub fn provider_succeeded(status: &mut AppStatus, key: &String, now: i64) -> (evs: (Event, Event))
    ensures
        final(status)@ == old(status)@.with_stat(key@, Some(now as int), None),
        evs.0@ == EventView::Status(final(status)@),
        evs.1@ == EventView::Log(key@ + " OK"@),
{
    status.set_stat(key, Some(now), None);
    let snap = status.snapshot();
    let log = key.clone().concat(" OK");
    (Event::Status(snap), Event::Log(log))
}

/// Record one provider's give-up: store the failure text (leaving any
/// prior success timestamp untouched) and build the events to
/// publish.
pub fn provider_gave_up(status: &mut AppStatus, key: &String, err: &String) -> (evs: (Event, Event))
    ensures
        final(status)@ == old(status)@.with_stat(key@, None, Some(err@)),
        evs.0@ == EventView::Status(final(status)@),
        evs.1@ == EventView::Log(key@ + " give up: "@ + err@),
{
    status.set_stat(key, None, Some(err.clone()));
    let snap = status.snapshot();
    let log = key.clone().concat(" give up: ").concat(err.as_str());
    (Event::Status(snap), Event::Log(log))
}

/// Everything one cycle produced: the detected address, how many
/// strategies were tried, each provider's retry outcome, and the
/// events to publish, in order.
pub struct CycleReport {
    pub ip: Option<String>,
    pub detect_attempts: usize,
    pub outcomes: Vec<RetryOutcome>,
    pub events: Vec<Event>,
}

/// One full cycle over given outcome tables.
///
/// `detect_results[i]` is what the `i`-th strategy in try order
/// returned; `runs[j]` is what provider `j`'s upsert attempts would
/// return.  When detection fails the status store is left exactly as
/// it was and no provider is attempted; when it succeeds, the store
/// ends as the fold of every provider's outcome over the
/// post-detection state, and the report carries the events in
/// publish order.
#[verifier::loop_isolation(false)]
pub fn one_cycle(
    status: &mut AppStatus,
    entries: &Vec<ProviderEntry>,
    detect_results: &Vec<Option<String>>,
    runs: &Vec<ProviderRun>,
    cron: Option<&CronSchedule>,
    now: i64,
) -> (rep: CycleReport)
    requires
        runs@.len() == entries@.len(),
        forall|j: int| 0 <= j < runs@.len() ==> (#[trigger] runs@[j].results)@.len() > MAX_RETRY as int,
        0 <= now < MAX_INSTANT,
    ensures
        ({
            let hit = first_hit(detect_results.deep_view());
            match hit {
                None => {
                    &&& final(status)@ == old(status)@
                    &&& rep.ip is None
                    &&& rep.detect_attempts == detect_results@.len()
                    &&& rep.outcomes@.len() == 0
                    &&& rep.events@.len() == 0
                },
                Some(p) => {
                    let m1 = old(status)@.with_detected(
                        now as int,
                        p.1,
                        opt_time_view(next_tick_of(cron, now as int)),
                    );
                    let keys = entry_keys(entries@);
                    let succ = run_succ(runs@);
                    let errs = run_errs(runs@);
                    let n = entries@.len() as int;
                    &&& match rep.ip {
                        Some(ip) => ip@ == p.1,
                        None => false,
                    }
                    &&& rep.detect_attempts == p.0 + 1
                    &&& final(status)@ == update_fold(m1, keys, succ, errs, now as int, n)
                    &&& rep.outcomes@.len() == n
                    &&& (forall|j: int|
                        0 <= j < n ==> {
                            &&& (#[trigger] rep.outcomes@[j]).success == succ[j]
                            &&& rep.outcomes@[j].attempts == spec_attempts(runs@[j].results@)
                            &&& rep.outcomes@[j].waits@.len() == rep.outcomes@[j].attempts - 1
                            &&& (forall|k: int|
                                0 <= k < rep.outcomes@[j].waits@.len()
                                    ==> rep.outcomes@[j].waits@[k] == backoff_table()[k])
                        })
                    &&& rep.events@.len() == 2 + 2 * n
                    &&& rep.events@[0]@ == EventView::Status(m1)
                    &&& rep.events@[1]@ == EventView::Log("detected IP "@ + p.1)
                    &&& (forall|j: int|
                        0 <= j < n ==> (#[trigger] rep.events@[2 + 2 * j])@ == EventView::Status(
                            update_fold(m1, keys, succ, errs, now as int, j + 1),
                        ))
                    &&& (forall|j: int|
                        0 <= j < n ==> rep.events@[2 + 2 * j + 1]@ == EventView::Log(
                            provider_log_view(keys[j], succ[j], errs[j]),
                        ))
                },
            }
        }),
{
    let d = resolve_detection(detect_results);
    let ip = match d.ip {
        None => {
            return CycleReport {
                ip: None,
                detect_attempts: d.attempts,
                outcomes: Vec::new(),
                events: Vec::new(),
            };
        },
        Some(ip) => ip,
    };
    let mut events: Vec<Event> = Vec::new();
    let pair = begin_cycle(status, &ip, now, cron);
    events.push(pair.0);
    events.push(pair.1);
    let ghost m1 = status@;
    let ghost keys = entry_keys(entries@);
    let ghost succ = run_succ(runs@);
    let ghost errs = run_errs(runs@);
    let mut outcomes: Vec<RetryOutcome> = Vec::new();
    let n = entries.len();
    let mut j: usize = 0;
    while j < n
        invariant
            j <= n,
            status@ == update_fold(m1, keys, succ, errs, now as int, j as int),
            outcomes@.len() == j,
            forall|l: int|
                0 <= l < j ==> {
                    &&& (#[trigger] outcomes@[l]).success == succ[l]
                    &&& outcomes@[l].attempts == spec_attempts(runs@[l].results@)
                    &&& outcomes@[l].waits@.len() == outcomes@[l].attempts - 1
                    &&& (forall|k: int|
                        0 <= k < outcomes@[l].waits@.len() ==> outcomes@[l].waits@[k]
                            == backoff_table()[k])
                },
            events@.len() == 2 + 2 * (j as int),
            events@[0]@ == EventView::Status(m1),
            events@[1]@ == EventView::Log("detected IP "@ + ip@),
            forall|l: int|
                0 <= l < j ==> (#[trigger] events@[2 + 2 * l])@ == EventView::Status(
                    update_fold(m1, keys, succ, errs, now as int, l + 1),
                ),
            forall|l: int|
                0 <= l < j ==> events@[2 + 2 * l + 1]@ == EventView::Log(
                    provider_log_view(keys[l], succ[l], errs[l]),
                ),
        decreases n - j,
    {
        let out = run_retry(&runs[j].results);
        proof {
            assert(keys[j as int] == entries@[j as int].key@);
            assert(succ[j as int] == spec_retry_succeeds(runs@[j as int].results@));
            assert(errs[j as int] == runs@[j as int].error@);
        }
        if out.success {
            let pr = provider_succeeded(status, &entries[j].key, now);
            events.push(pr.0);
            events.push(pr.1);
        } else {
            let pr = provider_gave_up(status, &entries[j].key, &runs[j].error);
            events.push(pr.0);
            events.push(pr.1);
        }
        outcomes.push(out);
        j = j + 1;
    }
    CycleReport { ip: Some(ip), detect_attempts: d.attempts, outcomes, events }
}

/// Entries the fold has not yet processed keep exactly the entry they
/// had before it started.
proof fn lemma_update_fold_untouched(
    m: StatusView,
    keys: Seq<Seq<char>>,
    succ: Seq<bool>,
    errs: Seq<Seq<char>>,
    now: int,
    upto: int,
    j: int,
)
    requires
        0 <= upto <= keys.len(),
        upto <= j < keys.len(),
        forall|a: int, b: int| 0 <= a < b < keys.len() ==> keys[a] != keys[b],
    ensures
        update_fold(m, keys, succ, errs, now, upto).has_key(keys[j]) == m.has_key(keys[j]),
        m.has_key(keys[j]) ==> update_fold(m, keys, succ, errs, now, upto).stat_of(keys[j])
            == m.stat_of(keys[j]),
    decreases upto,
{
    if upto > 0 {
        lemma_update_fold_untouched(m, keys, succ, errs, now, upto - 1, j);
        let prev = update_fold(m, keys, succ, errs, now, upto - 1);
        lemma_with_stat_other_key(
            prev,
            keys[upto - 1],
            provider_ok_view(succ[upto - 1], now),
            provider_err_view(succ[upto - 1], errs[upto - 1]),
            keys[j],
        );
    }
}

/// Law: one provider's cycle outcome lands exactly in its own status
/// entry.  A success stamps the cycle time and clears the stored
/// error; a give-up records the failure text and leaves any prior
/// success timestamp exactly as it was before the cycle.  No other
/// provider's outcome can touch the entry.
pub proof fn lemma_update_fold_stat(
    m: StatusView,
    keys: Seq<Seq<char>>,
    succ: Seq<bool>,
    errs: Seq<Seq<char>>,
    now: int,
    n: int,
    j: int,
)
    requires
        0 <= j < n <= keys.len(),
        forall|a: int, b: int| 0 <= a < b < keys.len() ==> keys[a] != keys[b],
    ensures
        update_fold(m, keys, succ, errs, now, n).has_key(keys[j]),
        succ[j] ==> update_fold(m, keys, succ, errs, now, n).stat_of(keys[j]) == (StatView {
            last_ok: Some(now),
            last_err: None,
        }),
        !succ[j] ==> update_fold(m, keys, succ, errs, now, n).stat_of(keys[j]) == (StatView {
            last_ok: if m.has_key(keys[j]) {
                m.stat_of(keys[j]).last_ok
            } else {
                None
            },
            last_err: Some(errs[j]),
        }),
    decreases n,
{
    let prev = update_fold(m, keys, succ, errs, now, n - 1);
    if j == n - 1 {
        lemma_update_fold_untouched(m, keys, succ, errs, now, n - 1, j);
        lemma_with_stat_same_key(
            prev,
            keys[j],
            provider_ok_view(succ[j], now),
            provider_err_view(succ[j], errs[j]),
        );
    } else {
        lemma_update_fold_stat(m, keys, succ, errs, now, n - 1, j);
        lemma_with_stat_other_key(
            prev,
            keys[n - 1],
            provider_ok_view(succ[n - 1], now),
            provider_err_view(succ[n - 1], errs[n - 1]),
            keys[j],
        );
    }
}

/// Law: provider outcomes never touch the cycle fields — the detected
/// address, the cycle time and the next scheduled run are exactly
/// what detection stamped.
pub proof fn lemma_update_fold_frame(
    m: StatusView,
    keys: Seq<Seq<char>>,
    succ: Seq<bool>,
    errs: Seq<Seq<char>>,
    now: int,
    upto: int,
)
    ensures
        update_fold(m, keys, succ, errs, now, upto).now == m.now,
        update_fold(m, keys, succ, errs, now, upto).next_tick == m.next_tick,
        update_fold(m, keys, succ, errs, now, upto).current_ip == m.current_ip,
    decreases upto,
{
    if upto > 0 {
        lemma_update_fold_frame(m, keys, succ, errs, now, upto - 1);
        lemma_with_stat_frame(
            update_fold(m, keys, succ, errs, now, upto - 1),
            keys[upto - 1],
            provider_ok_view(succ[upto - 1], now),
            provider_err_view(succ[upto - 1], errs[upto - 1]),
        );
    }
}

} // verus!
