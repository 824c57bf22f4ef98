//! Strategy ordering and first-success selection for IP detection.
//!
//! Strategies are tried in ascending priority; equal priorities keep
//! their declaration order (a stable sort).  The first strategy that
//! yields a non-empty address wins and short-circuits the rest; when
//! every strategy fails the whole detection fails and the cycle ends
//! without touching provider state.
//!
//! The I/O of each attempt (HTTP fetch, shell command) happens outside
//! the crate; the verified logic decides the order of attempts and
//! what to make of each outcome.

use vstd::prelude::*;
use vstd::string::*;
use vstd::relations::{sorted_by, total_ordering};
use vstd::seq_lib::lemma_sorted_unique;
use crate::cfg::DetectCfg;
use crate::cfg::spec_priority;

verus! {

broadcast use {vstd::seq_lib::group_to_multiset_ensures, vstd::multiset::group_multiset_axioms};

/// The order in which strategy indices are tried: ascending priority,
/// ties broken by position, which is exactly a stable sort by priority.
pub open spec fn idx_leq(s: Seq<DetectCfg>) -> spec_fn(usize, usize) -> bool {
    |a: usize, b: usize|
        spec_priority(s[a as int]) < spec_priority(s[b as int]) || (spec_priority(s[a as int])
            == spec_priority(s[b as int]) && a <= b)
}

/// The sequence `0, 1, ..., n-1`.
pub open spec fn identity_order(n: nat) -> Seq<usize> {
    Seq::new(n, |i: int| i as usize)
}

/// The canonical try order of a strategy list: its indices, stably
/// sorted by priority.
pub open spec fn try_order(s: Seq<DetectCfg>) -> Seq<usize> {
    identity_order(s.len()).sort_by(idx_leq(s))
}

/// The strategies themselves in try order.
pub open spec fn ordered_strategies(s: Seq<DetectCfg>) -> Seq<DetectCfg> {
    try_order(s).map_values(|i: usize| s[i as int])
}

pub proof fn lemma_idx_leq_total(s: Seq<DetectCfg>)
    ensures
        total_ordering(idx_leq(s)),
{
    let leq = idx_leq(s);
    assert forall|a: usize, b: usize, c: usize| #[trigger] leq(a, b) && #[trigger] leq(b, c) implies leq(
        a,
        c,
    ) by {}
    assert forall|a: usize, b: usize| #[trigger] leq(a, b) && #[trigger] leq(b, a) implies a == b by {}
    assert forall|a: usize, b: usize| #[trigger] leq(a, b) || leq(b, a) by {}
}

pub proof fn lemma_identity_contains(n: nat, x: usize)
    requires
        n <= usize::MAX,
    ensures
        identity_order(n).contains(x) <==> (x as nat) < n,
{
    if (x as nat) < n {
        assert(identity_order(n)[x as int] == x);
    }
}

/// Everything the try order guarantees: it is a permutation of the
/// strategy indices, ascending in priority, and stable — equal
/// priorities keep their declaration order.
pub proof fn lemma_try_order_ensures(s: Seq<DetectCfg>)
    requires
        s.len() <= usize::MAX,
    ensures
        try_order(s).len() == s.len(),
        forall|i: int| 0 <= i < s.len() ==> (#[trigger] try_order(s)[i]) < s.len(),
        try_order(s).to_multiset() == identity_order(s.len()).to_multiset(),
        forall|i: int, j: int|
            0 <= i < j < s.len() ==> spec_priority(s[#[trigger] try_order(s)[i] as int])
                <= spec_priority(s[#[trigger] try_order(s)[j] as int]),
        forall|i: int, j: int|
            0 <= i < j < s.len() && spec_priority(s[#[trigger] try_order(s)[i] as int])
                == spec_priority(s[#[trigger] try_order(s)[j] as int]) ==> try_order(s)[i]
                < try_order(s)[j],
{
    let leq = idx_leq(s);
    let id = identity_order(s.len());
    lemma_idx_leq_total(s);
    id.lemma_sort_by_ensures(leq);
    let ord = try_order(s);
    assert(ord.to_multiset() == id.to_multiset());
    assert(id.len() == id.to_multiset().len());
    assert(ord.len() == ord.to_multiset().len());
    assert forall|i: int| 0 <= i < s.len() implies (#[trigger] ord[i]) < s.len() by {
        assert(ord.contains(ord[i]));
        assert(ord.to_multiset().count(ord[i]) > 0);
        assert(id.contains(ord[i]));
        lemma_identity_contains(s.len(), ord[i]);
    }
    assert(sorted_by(ord, leq));
    assert forall|i: int, j: int| 0 <= i < j < s.len() implies spec_priority(
        s[#[trigger] ord[i] as int],
    ) <= spec_priority(s[#[trigger] ord[j] as int]) by {
        assert(leq(ord[i], ord[j]));
    }
    assert forall|i: int, j: int|
        0 <= i < j < s.len() && spec_priority(s[#[trigger] ord[i] as int]) == spec_priority(
            s[#[trigger] ord[j] as int],
        ) implies ord[i] < ord[j] by {
        assert(leq(ord[i], ord[j]));
        if ord[i] == ord[j] {
            assert(ord.to_multiset().count(ord[i]) >= 2) by {
                let m = ord.remove(i).to_multiset();
                assert(ord.remove(i)[j - 1] == ord[j]);
                assert(ord.remove(i).contains(ord[j]));
                assert(m.count(ord[j]) > 0);
                assert(ord.to_multiset() == m.insert(ord[i]));
            }
            assert(id.to_multiset().count(ord[i]) <= 1) by {
                lemma_identity_no_dup_count(s.len(), ord[i]);
            }
        }
    }
}

/// In the identity sequence every value occurs at most once.
proof fn lemma_identity_no_dup_count(n: nat, x: usize)
    requires
        n <= usize::MAX,
    ensures
        identity_order(n).to_multiset().count(x) <= 1,
    decreases n,
{
    let id = identity_order(n);
    if n > 0 {
        let prev = identity_order((n - 1) as nat);
        assert(id =~= prev.push(((n - 1) as nat) as usize));
        lemma_identity_no_dup_count((n - 1) as nat, x);
        assert(id.to_multiset() == prev.to_multiset().insert(((n - 1) as nat) as usize));
        if x == ((n - 1) as nat) as usize {
            assert(prev.to_multiset().count(x) == 0) by {
                if prev.to_multiset().count(x) > 0 {
                    assert(prev.contains(x));
                    lemma_identity_contains((n - 1) as nat, x);
                }
            }
        }
    }
}

/// No two strategies share a priority.
pub open spec fn distinct_priorities(s: Seq<DetectCfg>) -> bool {
    forall|i: int, j: int|
        0 <= i < j < s.len() ==> spec_priority(#[trigger] s[i]) != spec_priority(#[trigger] s[j])
}

/// Non-decreasing in priority.
pub open spec fn priority_sorted(s: Seq<DetectCfg>) -> bool {
    forall|i: int, j: int|
        0 <= i < j < s.len() ==> spec_priority(#[trigger] s[i]) <= spec_priority(#[trigger] s[j])
}

/// Mapping two index sequences with the same multiset over the same
/// list yields sequences with the same multiset.
proof fn lemma_map_multiset_congruence(s: Seq<DetectCfg>, idx1: Seq<usize>, idx2: Seq<usize>)
    requires
        idx1.to_multiset() == idx2.to_multiset(),
    ensures
        idx1.map_values(|i: usize| s[i as int]).to_multiset() == idx2.map_values(
            |i: usize| s[i as int],
        ).to_multiset(),
    decreases idx1.len(),
{
    let f = |i: usize| s[i as int];
    assert(idx1.to_multiset().len() == idx1.len());
    assert(idx2.to_multiset().len() == idx2.len());
    if idx1.len() == 0 {
        assert(idx2.len() == 0);
        assert(idx1.map_values(f) =~= idx2.map_values(f));
    } else {
        let x = idx1.last();
        assert(idx1 =~= idx1.drop_last().push(x));
        assert(idx1.to_multiset() == idx1.drop_last().to_multiset().insert(x));
        assert(idx2.to_multiset().count(x) > 0);
        assert(idx2.contains(x));
        let k = choose|k: int| 0 <= k < idx2.len() && idx2[k] == x;
        assert(idx2.remove(k).to_multiset() == idx2.to_multiset().remove(x));
        assert(idx1.drop_last().to_multiset() =~= idx2.remove(k).to_multiset());
        lemma_map_multiset_congruence(s, idx1.drop_last(), idx2.remove(k));
        assert(idx1.map_values(f) =~= idx1.drop_last().map_values(f).push(f(x)));
        assert(idx2.remove(k).map_values(f) =~= idx2.map_values(f).remove(k));
        assert(idx1.map_values(f).to_multiset() == idx1.drop_last().map_values(
            f,
        ).to_multiset().insert(f(x)));
        assert(idx2.map_values(f).remove(k).to_multiset() == idx2.map_values(
            f,
        ).to_multiset().remove(f(x))) by {
            assert(idx2.map_values(f)[k] == f(x));
        }
        assert(idx2.map_values(f).to_multiset().count(f(x)) > 0) by {
            assert(idx2.map_values(f)[k] == f(x));
            assert(idx2.map_values(f).contains(f(x)));
        }
        assert(idx1.map_values(f).to_multiset() =~= idx2.map_values(f).to_multiset());
    }
}

/// The strategies in try order are a permutation of the input list.
pub proof fn lemma_ordered_strategies_permutation(s: Seq<DetectCfg>)
    requires
        s.len() <= usize::MAX,
    ensures
        ordered_strategies(s).to_multiset() == s.to_multiset(),
{
    lemma_try_order_ensures(s);
    let f = |i: usize| s[i as int];
    lemma_map_multiset_congruence(s, try_order(s), identity_order(s.len()));
    assert(identity_order(s.len()).map_values(f) =~= s);
}

/// Two priority-sorted sequences with the same elements are equal when
/// one of them has pairwise-distinct priorities.
proof fn lemma_priority_sorted_unique(x: Seq<DetectCfg>, y: Seq<DetectCfg>)
    requires
        priority_sorted(x),
        priority_sorted(y),
        x.to_multiset() == y.to_multiset(),
        distinct_priorities(x),
    ensures
        x == y,
    decreases x.len(),
{
    assert(x.to_multiset().len() == x.len());
    assert(y.to_multiset().len() == y.len());
    if x.len() == 0 {
        assert(x =~= y);
    } else {
        assert(x.to_multiset().count(x[0]) > 0);
        assert(y.to_multiset().count(y[0]) > 0);
        assert(x.contains(y[0]));
        assert(y.contains(x[0]));
        let i = choose|i: int| 0 <= i < x.len() && x[i] == y[0];
        let j = choose|j: int| 0 <= j < y.len() && y[j] == x[0];
        assert(spec_priority(x[0]) <= spec_priority(x[i]));
        assert(spec_priority(y[0]) <= spec_priority(y[j]));
        assert(spec_priority(x[0]) == spec_priority(x[i]));
        assert(i == 0);
        assert(x[0] == y[0]);
        assert(x.drop_first().to_multiset() =~= y.drop_first().to_multiset()) by {
            assert(x.drop_first() =~= x.remove(0));
            assert(y.drop_first() =~= y.remove(0));
            assert(x.remove(0).to_multiset() == x.to_multiset().remove(x[0]));
            assert(y.remove(0).to_multiset() == y.to_multiset().remove(y[0]));
        }
        assert(priority_sorted(x.drop_first())) by {
            assert(forall|a: int|
                0 <= a < x.drop_first().len() ==> #[trigger] x.drop_first()[a] == x[a + 1]);
        }
        assert(priority_sorted(y.drop_first())) by {
            assert(forall|a: int|
                0 <= a < y.drop_first().len() ==> #[trigger] y.drop_first()[a] == y[a + 1]);
        }
        assert(distinct_priorities(x.drop_first())) by {
            assert(forall|a: int|
                0 <= a < x.drop_first().len() ==> #[trigger] x.drop_first()[a] == x[a + 1]);
        }
        lemma_priority_sorted_unique(x.drop_first(), y.drop_first());
        assert forall|m: int| 0 <= m < x.len() implies x[m] == y[m] by {
            if m > 0 {
                assert(x.drop_first()[m - 1] == y.drop_first()[m - 1]);
            }
        }
        assert(x =~= y);
    }
}

/// Law: with pairwise-distinct priorities the try order is canonical.
/// Reordering the configured strategy list in any way yields the very
/// same sequence of strategies to try.
pub proof fn lemma_try_order_canonical(a: Seq<DetectCfg>, b: Seq<DetectCfg>)
    requires
        a.to_multiset() == b.to_multiset(),
        distinct_priorities(a),
        a.len() <= usize::MAX,
    ensures
        ordered_strategies(a) == ordered_strategies(b),
{
    assert(a.to_multiset().len() == a.len());
    assert(b.to_multiset().len() == b.len());
    lemma_try_order_ensures(a);
    lemma_try_order_ensures(b);
    lemma_ordered_strategies_permutation(a);
    lemma_ordered_strategies_permutation(b);
    let oa = ordered_strategies(a);
    let ob = ordered_strategies(b);
    assert(priority_sorted(oa)) by {
        assert(forall|i: int|
            0 <= i < a.len() ==> #[trigger] oa[i] == a[try_order(a)[i] as int]);
    }
    assert(priority_sorted(ob)) by {
        assert(forall|i: int|
            0 <= i < b.len() ==> #[trigger] ob[i] == b[try_order(b)[i] as int]);
    }
    assert(distinct_priorities(oa)) by {
        let ord = try_order(a);
        assert(forall|i: int| 0 <= i < a.len() ==> #[trigger] oa[i] == a[ord[i] as int]);
        assert forall|i: int, j: int| 0 <= i < j < oa.len() implies spec_priority(
            #[trigger] oa[i],
        ) != spec_priority(#[trigger] oa[j]) by {
            if spec_priority(a[ord[i] as int]) == spec_priority(a[ord[j] as int]) {
                assert(ord[i] < ord[j]);
                assert(spec_priority(a[ord[i] as int]) != spec_priority(a[ord[j] as int]));
            }
        }
    }
    lemma_priority_sorted_unique(oa, ob);
}

/// Compute the try order of a strategy list: indices, stably sorted by
/// ascending priority (insertion sort; ties keep declaration order).
/// The first successful outcome in try order: its position and the
/// address it produced.  `out[i]` is what the `i`-th strategy in try
/// order returned — `None` for any failure (transport error, timeout,
/// empty body), `Some` for a usable address.
pub open spec fn first_hit(out: Seq<Option<Seq<char>>>) -> Option<(int, Seq<char>)>
    decreases out.len(),
{
    if out.len() == 0 {
        None
    } else {
        match out[0] {
            Some(ip) => Some((0int, ip)),
            None => match first_hit(out.drop_first()) {
                Some(p) => Some((p.0 + 1, p.1)),
                None => None,
            },
        }
    }
}

pub proof fn lemma_first_hit_at(out: Seq<Option<Seq<char>>>, i: int)
    requires
        0 <= i < out.len(),
        forall|j: int| 0 <= j < i ==> out[j] is None,
        out[i] is Some,
    ensures
        first_hit(out) == Some((i, out[i]->0)),
    decreases out.len(),
{
    if i != 0 {
        assert(out.drop_first()[i - 1] == out[i]);
        assert(forall|j: int| 0 <= j < i - 1 ==> out.drop_first()[j] is None);
        lemma_first_hit_at(out.drop_first(), i - 1);
    }
}

/// Law: when every strategy fails, detection as a whole fails — there
/// is no partial or best-effort result.
pub proof fn lemma_first_hit_none(out: Seq<Option<Seq<char>>>)
    requires
        forall|j: int| 0 <= j < out.len() ==> out[j] is None,
    ensures
        first_hit(out) is None,
    decreases out.len(),
{
    if out.len() != 0 {
        assert(forall|j: int| 0 <= j < out.drop_first().len() ==> out.drop_first()[j] is None);
        lemma_first_hit_none(out.drop_first());
    }
}

/// Law: when the first strategy in try order fails and the second
/// succeeds, detection returns the second strategy's address after
/// exactly two attempts; strategies after the succeeding one are never
/// consulted.
pub proof fn lemma_second_strategy_wins(out: Seq<Option<Seq<char>>>)
    requires
        out.len() >= 2,
        out[0] is None,
        out[1] is Some,
    ensures
        first_hit(out) == Some((1int, out[1]->0)),
{
    lemma_first_hit_at(out, 1);
}

/// The outcome of a whole detection pass: the winning address, if any,
/// and how many strategies were attempted before stopping.
pub struct DetectionResult {
    pub ip: Option<String>,
    pub attempts: usize,
}

/// Fold a sequence of per-strategy outcomes (already in try order)
/// into the detection outcome: the first success wins and
/// short-circuits the rest; with no success the whole detection fails.
#[verifier::loop_isolation(false)]
pub fn resolve_detection(outcomes: &Vec<Option<String>>) -> (r: DetectionResult)
    ensures
        ({
            let hit = first_hit(outcomes.deep_view());
            match hit {
                Some(p) => r.attempts == p.0 + 1 && match r.ip {
                    Some(ip) => ip@ == p.1,
                    None => false,
                },
                None => r.ip is None && r.attempts == outcomes@.len(),
            }
        }),
{
    let ghost dv = outcomes.deep_view();
    let n = outcomes.len();
    let mut i: usize = 0;
    while i < n
        invariant
            i <= n,
            forall|j: int| 0 <= j < i ==> dv[j] is None,
        decreases n - i,
    {
        match &outcomes[i] {
            Some(ip) => {
                proof {
                    assert(dv[i as int] == Some(ip@));
                    lemma_first_hit_at(dv, i as int);
                }
                return DetectionResult { ip: Some(ip.clone()), attempts: i + 1 };
            },
            None => {
                proof {
                    assert(dv[i as int] is None);
                }
                i = i + 1;
            },
        }
    }
    proof {
        lemma_first_hit_none(dv);
    }
    DetectionResult { ip: None, attempts: n }
}

/// The characters trimmed from around a detected address.
pub open spec fn is_space(c: char) -> bool {
    c == ' ' || c == '\t' || c == '\r' || c == '\n'
}

pub open spec fn trim_start_spec(s: Seq<char>) -> Seq<char>
    decreases s.len(),
{
    if s.len() == 0 {
        s
    } else if is_space(s[0]) {
        trim_start_spec(s.drop_first())
    } else {
        s
    }
}

pub open spec fn trim_end_spec(s: Seq<char>) -> Seq<char>
    decreases s.len(),
{
    if s.len() == 0 {
        s
    } else if is_space(s.last()) {
        trim_end_spec(s.drop_last())
    } else {
        s
    }
}

/// A detected address with surrounding whitespace removed.
pub open spec fn trim_spec(s: Seq<char>) -> Seq<char> {
    trim_end_spec(trim_start_spec(s))
}

proof fn lemma_trim_start_prefix(s: Seq<char>, k: int)
    requires
        0 <= k <= s.len(),
        forall|j: int| 0 <= j < k ==> is_space(s[j]),
        k < s.len() ==> !is_space(s[k]),
    ensures
        trim_start_spec(s) == s.subrange(k, s.len() as int),
    decreases k,
{
    if k == 0 {
        assert(trim_start_spec(s) =~= s.subrange(0, s.len() as int)) by {
            if s.len() != 0 {
                assert(!is_space(s[0]));
            }
        }
    } else {
        assert(is_space(s[0]));
        let d = s.drop_first();
        assert(forall|j: int| 0 <= j < k - 1 ==> is_space(#[trigger] d[j]));
        assert(k - 1 < d.len() ==> !is_space(d[k - 1]));
        lemma_trim_start_prefix(d, k - 1);
        assert(d.subrange(k - 1, d.len() as int) =~= s.subrange(k, s.len() as int));
    }
}

proof fn lemma_trim_end_suffix(s: Seq<char>, e: int)
    requires
        0 <= e <= s.len(),
        forall|j: int| e <= j < s.len() ==> is_space(s[j]),
        e > 0 ==> !is_space(s[e - 1]),
    ensures
        trim_end_spec(s) == s.subrange(0, e),
    decreases s.len() - e,
{
    if e == s.len() {
        if s.len() == 0 {
            assert(trim_end_spec(s) =~= s.subrange(0, e));
        } else {
            assert(!is_space(s.last()));
            assert(trim_end_spec(s) =~= s.subrange(0, e));
        }
    } else {
        assert(is_space(s.last()));
        let d = s.drop_last();
        assert(forall|j: int| e <= j < d.len() ==> is_space(#[trigger] d[j]));
        lemma_trim_end_suffix(d, e);
        assert(d.subrange(0, e) =~= s.subrange(0, e));
    }
}

fn is_space_char(c: char) -> (b: bool)
    ensures
        b == is_space(c),
{
    c == ' ' || c == '\t' || c == '\r' || c == '\n'
}

/// Trim whitespace around a raw detection result and reject an empty
/// remainder: an empty body is a strategy failure, never an address.
#[verifier::loop_isolation(false)]
pub fn clean_address(raw: &str) -> (r: Option<String>)
    ensures
        match r {
            Some(ip) => ip@ == trim_spec(raw@) && trim_spec(raw@).len() > 0,
            None => trim_spec(raw@).len() == 0,
        },
{
    let n = raw.unicode_len();
    let mut start: usize = 0;
    while start < n && is_space_char(raw.get_char(start))
        invariant
            start <= n,
            forall|j: int| 0 <= j < start ==> is_space(raw@[j]),
        decreases n - start,
    {
        start = start + 1;
    }
    let mut end: usize = n;
    while end > start && is_space_char(raw.get_char(end - 1))
        invariant
            start <= end <= n,
            forall|j: int| end <= j < n ==> is_space(raw@[j]),
        decreases end,
    {
        end = end - 1;
    }
    proof {
        lemma_trim_start_prefix(raw@, start as int);
        let t = trim_start_spec(raw@);
        assert(forall|j: int|
            end - start <= j < t.len() ==> is_space(#[trigger] t[j]));
        if end > start {
            assert(t[end - start - 1] == raw@[end - 1]);
        }
        lemma_trim_end_suffix(t, end - start);
        assert(trim_spec(raw@) =~= raw@.subrange(start as int, end as int));
    }
    if start == end {
        None
    } else {
        let sub = raw.substring_char(start, end);
        Some(String::from_str(sub))
    }
}

#[verifier::loop_isolation(false)]
pub fn compute_try_order(list: &Vec<DetectCfg>) -> (order: Vec<usize>)
    ensures
        order@ == try_order(list@),
{
    let ghost s = list@;
    let ghost leq = idx_leq(s);
    let n = list.len();
    let mut order: Vec<usize> = Vec::new();
    let mut k: usize = 0;
    while k < n
        invariant
            n == s.len(),
            s == list@,
            k <= n,
            order@.len() == k,
            forall|i: int| 0 <= i < k ==> (#[trigger] order@[i]) < k,
            sorted_by(order@, idx_leq(s)),
            order@.to_multiset() == identity_order(k as nat).to_multiset(),
        decreases n - k,
    {
        let pk = list[k].priority();
        let mut pos: usize = 0;
        while pos < order.len() && list[order[pos]].priority() <= pk
            invariant
                s == list@,
                k < n == s.len(),
                pk == spec_priority(s[k as int]),
                order@.len() == k,
                forall|i: int| 0 <= i < k ==> (#[trigger] order@[i]) < k,
                pos <= k,
                forall|i: int| 0 <= i < pos ==> spec_priority(s[#[trigger] order@[i] as int]) <= pk,
            decreases k - pos,
        {
            pos = pos + 1;
        }
        let ghost oldord = order@;
        proof {
            assert forall|i: int| 0 <= i < pos implies #[trigger] leq(oldord[i], k as usize) by {
                assert(oldord[i] < k);
            }
            assert forall|i: int| pos <= i < k implies #[trigger] leq(k as usize, oldord[i]) by {
                assert(spec_priority(s[oldord[pos as int] as int]) > pk);
                if i > pos {
                    assert(leq(oldord[pos as int], oldord[i]));
                }
            }
        }
        order.insert(pos, k);
        proof {
            let neword = order@;
            oldord.insert_ensures(pos as int, k as usize);
            assert forall|i: int, j: int| 0 <= i < j < neword.len() implies #[trigger] leq(
                neword[i],
                neword[j],
            ) by {
                if j < pos {
                    assert(leq(oldord[i], oldord[j]));
                } else if i > pos {
                    assert(leq(oldord[i - 1], oldord[j - 1]));
                } else if i < pos && j == pos {
                    assert(leq(oldord[i], k as usize));
                } else if i == pos {
                    assert(leq(k as usize, oldord[j - 1]));
                } else {
                    assert(i < pos && j > pos);
                    assert(leq(oldord[i], oldord[j - 1]));
                }
            }
            assert(neword.to_multiset() =~= identity_order((k + 1) as nat).to_multiset()) by {
                assert(neword.to_multiset() == oldord.to_multiset().insert(k as usize));
                assert(identity_order((k + 1) as nat) =~= identity_order(k as nat).push(
                    k as usize,
                ));
            }
            assert forall|i: int| 0 <= i < k + 1 implies (#[trigger] neword[i]) < k + 1 by {}
        }
        k = k + 1;
    }
    proof {
        lemma_idx_leq_total(s);
        identity_order(s.len()).lemma_sort_by_ensures(leq);
        lemma_sorted_unique(order@, try_order(s), leq);
        assert(order@ =~= try_order(s));
    }
    order
}

} // verus!
