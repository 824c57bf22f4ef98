//! Per-provider retry with exponential backoff.
//!
//! Within one cycle each provider is attempted up to `MAX_RETRY + 1`
//! times: one initial attempt and `MAX_RETRY` retries, sleeping
//! `BACKOFF_SECS << attempt` seconds before retry number `attempt`
//! (10s, 20s, 40s, 80s, 160s).  The sleep happens without holding a
//! concurrency slot.  A provider that exhausts its retries gives up
//! for this cycle only and never aborts its siblings.

use vstd::prelude::*;

verus! {

/// Retries allowed per provider per cycle, after the initial attempt.
pub const MAX_RETRY: u8 = 5;

/// Exponential backoff base, in seconds.
pub const BACKOFF_SECS: u64 = 5;

/// The waits between attempts: before retry `k` (1-based) the engine
/// sleeps `backoff_table()[k - 1]` seconds.
pub open spec fn backoff_table() -> Seq<u64> {
    seq![10u64, 20u64, 40u64, 80u64, 160u64]
}

/// The wait before retry `attempt` (1-based), computed as
/// `BACKOFF_SECS << attempt`.
pub fn backoff_wait(attempt: u8) -> (w: u64)
    requires
        1 <= attempt <= MAX_RETRY,
    ensures
        w == backoff_table()[attempt - 1],
{
    let w = BACKOFF_SECS << attempt;
    proof {
        assert((5u64 << 1u8) == 10u64 && (5u64 << 2u8) == 20u64 && (5u64 << 3u8) == 40u64 && (5u64
            << 4u8) == 80u64 && (5u64 << 5u8) == 160u64) by (bit_vector);
    }
    w
}

/// Index of the first successful attempt in an outcome table.
pub open spec fn spec_first_ok(res: Seq<bool>) -> Option<int>
    decreases res.len(),
{
    if res.len() == 0 {
        None
    } else if res[0] {
        Some(0int)
    } else {
        match spec_first_ok(res.drop_first()) {
            Some(i) => Some(i + 1),
            None => None,
        }
    }
}

/// Whether the retry loop ends in success: some attempt within the
/// ceiling succeeds.
pub open spec fn spec_retry_succeeds(res: Seq<bool>) -> bool {
    match spec_first_ok(res) {
        Some(i) => i <= MAX_RETRY,
        None => false,
    }
}

/// How many attempts the retry loop makes: up to and including the
/// first success, never more than `MAX_RETRY + 1`.
pub open spec fn spec_attempts(res: Seq<bool>) -> int {
    match spec_first_ok(res) {
        Some(i) => if i <= MAX_RETRY {
            i + 1
        } else {
            MAX_RETRY + 1
        },
        None => MAX_RETRY + 1,
    }
}

pub proof fn lemma_first_ok_at(res: Seq<bool>, i: int)
    requires
        0 <= i < res.len(),
        res[i],
        forall|j: int| 0 <= j < i ==> !res[j],
    ensures
        spec_first_ok(res) == Some(i),
    decreases res.len(),
{
    if i != 0 {
        assert(res.drop_first()[i - 1] == res[i]);
        assert(forall|j: int| 0 <= j < i - 1 ==> !res.drop_first()[j]);
        lemma_first_ok_at(res.drop_first(), i - 1);
    }
}

pub proof fn lemma_first_ok_none(res: Seq<bool>)
    requires
        forall|j: int| 0 <= j < res.len() ==> !res[j],
    ensures
        spec_first_ok(res) is None,
    decreases res.len(),
{
    if res.len() != 0 {
        assert(forall|j: int| 0 <= j < res.drop_first().len() ==> !res.drop_first()[j]);
        lemma_first_ok_none(res.drop_first());
    }
}

/// Law: a provider whose upsert always fails is attempted exactly
/// `MAX_RETRY + 1` times — one initial attempt plus every allowed
/// retry — and gives up, with the strictly increasing waits
/// 10s, 20s, 40s, 80s, 160s between consecutive attempts.
pub proof fn lemma_always_failing_gives_up(res: Seq<bool>)
    requires
        forall|j: int| 0 <= j < res.len() ==> !res[j],
    ensures
        spec_attempts(res) == MAX_RETRY + 1,
        !spec_retry_succeeds(res),
        forall|k: int|
            0 <= k < backoff_table().len() - 1
                ==> #[trigger] backoff_table()[k] < backoff_table()[k + 1],
{
    lemma_first_ok_none(res);
    assert(backoff_table()[0] == 10);
    assert(backoff_table()[1] == 20);
    assert(backoff_table()[2] == 40);
    assert(backoff_table()[3] == 80);
    assert(backoff_table()[4] == 160);
}

/// Law: a provider that fails twice and then succeeds makes exactly 3
/// attempts and ends in success.
pub proof fn lemma_two_failures_then_success(res: Seq<bool>)
    requires
        res.len() >= 3,
        !res[0],
        !res[1],
        res[2],
    ensures
        spec_retry_succeeds(res),
        spec_attempts(res) == 3,
{
    lemma_first_ok_at(res, 2);
}

/// What the retry loop does after one upsert attempt: stop on
/// success, sleep and retry while retries remain, otherwise give up.
pub enum RetryDecision {
    /// The upsert succeeded; the loop is over for this provider.
    Done,
    /// The upsert failed with retries remaining: sleep this many
    /// seconds (holding no concurrency slot) and try again.
    Backoff(u64),
    /// The upsert failed on the last allowed attempt: record the error
    /// and stop; the failure never aborts sibling providers.
    GiveUp,
}

/// The attempt counter of one provider's retry loop within a cycle.
pub struct RetryState {
    pub attempt: u8,
}

impl RetryState {
    /// A fresh loop: no retries consumed.
    pub fn new() -> (s: RetryState)
        ensures
            s.attempt == 0,
    {
        RetryState { attempt: 0 }
    }

    /// Advance the loop by the outcome of one upsert attempt.
    pub fn on_result(&mut self, ok: bool) -> (d: RetryDecision)
        requires
            old(self).attempt <= MAX_RETRY,
        ensures
            ok ==> d is Done && final(self).attempt == old(self).attempt,
            !ok && old(self).attempt < MAX_RETRY ==> final(self).attempt == old(self).attempt + 1
                && d == RetryDecision::Backoff(backoff_table()[old(self).attempt as int]),
            !ok && old(self).attempt == MAX_RETRY ==> d is GiveUp && final(self).attempt == old(
                self,
            ).attempt,
    {
        if ok {
            RetryDecision::Done
        } else if self.attempt < MAX_RETRY {
            self.attempt = self.attempt + 1;
            RetryDecision::Backoff(backoff_wait(self.attempt))
        } else {
            RetryDecision::GiveUp
        }
    }
}

/// Everything one provider's retry loop produces in one cycle.
pub struct RetryOutcome {
    /// Whether some attempt within the ceiling succeeded.
    pub success: bool,
    /// Attempts actually made, the initial one included.
    pub attempts: usize,
    /// The waits slept between consecutive attempts, in order.
    pub waits: Vec<u64>,
}

/// Run one provider's retry loop against a table of per-attempt
/// outcomes (`results[i]` is whether attempt `i` would succeed).
#[verifier::loop_isolation(false)]
pub fn run_retry(results: &Vec<bool>) -> (out: RetryOutcome)
    requires
        results@.len() > MAX_RETRY as int,
    ensures
        out.success == spec_retry_succeeds(results@),
        out.attempts == spec_attempts(results@),
        out.waits@.len() == out.attempts - 1,
        forall|k: int| 0 <= k < out.waits@.len() ==> out.waits@[k] == backoff_table()[k],
{
    let mut state = RetryState::new();
    let mut waits: Vec<u64> = Vec::new();
    loop
        invariant
            state.attempt <= MAX_RETRY,
            results@.len() > MAX_RETRY as int,
            waits@.len() == state.attempt as int,
            forall|k: int| 0 <= k < waits@.len() ==> waits@[k] == backoff_table()[k],
            forall|j: int| 0 <= j < state.attempt as int ==> !results@[j],
        decreases MAX_RETRY as int - state.attempt as int,
    {
        let ghost prior = state.attempt;
        let ok = results[state.attempt as usize];
        let d = state.on_result(ok);
        match d {
            RetryDecision::Done => {
                proof {
                    lemma_first_ok_at(results@, prior as int);
                }
                return RetryOutcome { success: true, attempts: state.attempt as usize + 1, waits };
            },
            RetryDecision::Backoff(w) => {
                waits.push(w);
            },
            RetryDecision::GiveUp => {
                proof {
                    assert(forall|j: int| 0 <= j <= MAX_RETRY as int ==> !results@[j]);
                    if spec_first_ok(results@) is Some {
                        let i = spec_first_ok(results@)->0;
                        lemma_first_ok_lower_bound(results@, MAX_RETRY as int + 1);
                    }
                }
                return RetryOutcome {
                    success: false,
                    attempts: MAX_RETRY as usize + 1,
                    waits,
                };
            },
        }
    }
}

/// A first success, when there is one, sits at a valid index whose
/// attempt indeed succeeds.
pub proof fn lemma_first_ok_bounds(res: Seq<bool>)
    requires
        spec_first_ok(res) is Some,
    ensures
        0 <= spec_first_ok(res)->0 < res.len(),
        res[spec_first_ok(res)->0],
    decreases res.len(),
{
    if res.len() > 0 && !res[0] {
        lemma_first_ok_bounds(res.drop_first());
    }
}

/// When the first `k` attempts all fail, any success sits at index
/// `k` or later.
proof fn lemma_first_ok_lower_bound(res: Seq<bool>, k: int)
    requires
        0 <= k <= res.len(),
        forall|j: int| 0 <= j < k ==> !res[j],
        spec_first_ok(res) is Some,
    ensures
        spec_first_ok(res)->0 >= k,
    decreases k,
{
    if k == 0 {
        lemma_first_ok_bounds(res);
    } else {
        assert(!res[0]);
        assert(forall|j: int| 0 <= j < k - 1 ==> !res.drop_first()[j]);
        match spec_first_ok(res.drop_first()) {
            Some(i) => {
                lemma_first_ok_lower_bound(res.drop_first(), k - 1);
                assert(spec_first_ok(res) == Some(i + 1));
            },
            None => {
                assert(spec_first_ok(res) is None);
            },
        }
    }
}

} // verus!
