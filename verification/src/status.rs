//! Observable state of the engine.
//!
//! `AppStatus` is the single source of truth: the time of the last
//! cycle, the currently detected address, the next scheduled run and
//! the per-provider health.  The engine mutates it through short,
//! field-level operations; observers receive full value copies
//! (snapshots), so later mutations can never reach into a snapshot
//! already handed out.
//!
//! Timestamps are Unix seconds.

use vstd::prelude::*;

verus! {

/// Health of one provider: when it last succeeded and the text of its
/// last recorded failure.  A later failure does not clear a prior
/// success timestamp; a later success clears the failure text.
#[derive(Debug, Clone)]
pub struct ProviderStat {
    pub last_ok: Option<i64>,
    pub last_err: Option<String>,
}

/// One provider's health, keyed by its display key.
#[derive(Debug, Clone)]
pub struct StatusEntry {
    pub key: String,
    pub stat: ProviderStat,
}

/// The canonical snapshot structure.
#[derive(Debug, Clone)]
pub struct AppStatus {
    pub now: i64,
    pub next_tick: Option<i64>,
    pub current_ip: Option<String>,
    pub providers: Vec<StatusEntry>,
}

/// An event broadcast to observers: either a fresh status snapshot or
/// a free-text log line.  Events are a derived, best-effort stream;
/// the status store stays authoritative.
#[derive(Debug, Clone)]
pub enum Event {
    Status(AppStatus),
    Log(String),
}

/// Mathematical model of `ProviderStat`.
#[verifier::ext_equal]
pub struct StatView {
    pub last_ok: Option<int>,
    pub last_err: Option<Seq<char>>,
}

/// Mathematical model of one keyed provider entry.
#[verifier::ext_equal]
pub struct EntryView {
    pub key: Seq<char>,
    pub stat: StatView,
}

/// Mathematical model of `AppStatus`.
#[verifier::ext_equal]
pub struct StatusView {
    pub now: int,
    pub next_tick: Option<int>,
    pub current_ip: Option<Seq<char>>,
    pub providers: Seq<EntryView>,
}

pub open spec fn opt_time_view(o: Option<i64>) -> Option<int> {
    match o {
        Some(t) => Some(t as int),
        None => None,
    }
}

pub open spec fn opt_text_view(o: Option<String>) -> Option<Seq<char>> {
    match o {
        Some(s) => Some(s@),
        None => None,
    }
}

impl View for ProviderStat {
    type V = StatView;

    open spec fn view(&self) -> StatView {
        StatView { last_ok: opt_time_view(self.last_ok), last_err: opt_text_view(self.last_err) }
    }
}

impl View for StatusEntry {
    type V = EntryView;

    open spec fn view(&self) -> EntryView {
        EntryView { key: self.key@, stat: self.stat@ }
    }
}

impl View for AppStatus {
    type V = StatusView;

    open spec fn view(&self) -> StatusView {
        StatusView {
            now: self.now as int,
            next_tick: opt_time_view(self.next_tick),
            current_ip: opt_text_view(self.current_ip),
            providers: Seq::new(self.providers@.len(), |i: int| self.providers@[i]@),
        }
    }
}

/// Mathematical model of `Event`.
#[verifier::ext_equal]
pub enum EventView {
    Status(StatusView),
    Log(Seq<char>),
}

impl View for Event {
    type V = EventView;

    open spec fn view(&self) -> EventView {
        match self {
            Event::Status(s) => EventView::Status(s@),
            Event::Log(l) => EventView::Log(l@),
        }
    }
}

/// Index of the first entry with the given key, or -1 when absent.
pub open spec fn first_index_of(s: Seq<EntryView>, k: Seq<char>) -> int
    decreases s.len(),
{
    if s.len() == 0 {
        -1
    } else if s[0].key == k {
        0
    } else {
        let r = first_index_of(s.drop_first(), k);
        if r < 0 {
            -1
        } else {
            r + 1
        }
    }
}

pub proof fn lemma_first_index_of_bounds(s: Seq<EntryView>, k: Seq<char>)
    ensures
        -1 <= first_index_of(s, k) < s.len(),
        first_index_of(s, k) >= 0 ==> s[first_index_of(s, k)].key == k,
    decreases s.len(),
{
    if s.len() != 0 && s[0].key != k {
        lemma_first_index_of_bounds(s.drop_first(), k);
    }
}

/// The first matching index is exactly the index found by a scan that
/// saw no earlier match.
pub proof fn lemma_first_index_of_hit(s: Seq<EntryView>, k: Seq<char>, i: int)
    requires
        0 <= i < s.len(),
        s[i].key == k,
        forall|j: int| 0 <= j < i ==> s[j].key != k,
    ensures
        first_index_of(s, k) == i,
    decreases s.len(),
{
    if i != 0 {
        assert(s.drop_first()[i - 1].key == k);
        assert(forall|j: int| 0 <= j < i - 1 ==> s.drop_first()[j].key != k);
        lemma_first_index_of_hit(s.drop_first(), k, i - 1);
    }
}

pub proof fn lemma_first_index_of_miss(s: Seq<EntryView>, k: Seq<char>)
    requires
        forall|j: int| 0 <= j < s.len() ==> s[j].key != k,
    ensures
        first_index_of(s, k) == -1,
    decreases s.len(),
{
    if s.len() != 0 {
        assert(forall|j: int| 0 <= j < s.drop_first().len() ==> s.drop_first()[j].key != k);
        lemma_first_index_of_miss(s.drop_first(), k);
    }
}

/// The first matching index depends only on the keys.
pub proof fn lemma_first_index_of_same_keys(s1: Seq<EntryView>, s2: Seq<EntryView>, k: Seq<char>)
    requires
        s1.len() == s2.len(),
        forall|i: int| 0 <= i < s1.len() ==> s1[i].key == s2[i].key,
    ensures
        first_index_of(s1, k) == first_index_of(s2, k),
    decreases s1.len(),
{
    if s1.len() != 0 && s1[0].key != k {
        assert(forall|i: int|
            0 <= i < s1.drop_first().len() ==> s1.drop_first()[i].key == s2.drop_first()[i].key);
        lemma_first_index_of_same_keys(s1.drop_first(), s2.drop_first(), k);
    }
}

/// Appending an entry leaves every present key where it was and makes
/// the new key findable at the end.
pub proof fn lemma_first_index_of_push(s: Seq<EntryView>, e: EntryView, k: Seq<char>)
    ensures
        first_index_of(s, k) >= 0 ==> first_index_of(s.push(e), k) == first_index_of(s, k),
        first_index_of(s, k) < 0 && e.key == k ==> first_index_of(s.push(e), k) == s.len(),
        first_index_of(s, k) < 0 && e.key != k ==> first_index_of(s.push(e), k) == -1,
    decreases s.len(),
{
    if s.len() == 0 {
        assert(s.push(e)[0] == e);
        if e.key != k {
            assert(s.push(e).drop_first() =~= Seq::<EntryView>::empty());
            assert(first_index_of(Seq::<EntryView>::empty(), k) == -1);
            assert(first_index_of(s.push(e).drop_first(), k) == -1);
        }
    } else {
        assert(s.push(e)[0] == s[0]);
        if s[0].key != k {
            assert(s.push(e).drop_first() =~= s.drop_first().push(e));
            lemma_first_index_of_push(s.drop_first(), e, k);
        }
    }
}

/// The result of applying one bookkeeping step to a provider's health:
/// a success stamps `last_ok` and clears `last_err`; a failure records
/// its text and leaves `last_ok` untouched.
pub open spec fn apply_stat(st: StatView, ok: Option<int>, err: Option<Seq<char>>) -> StatView {
    let st1 = match ok {
        Some(t) => StatView { last_ok: Some(t), last_err: None },
        None => st,
    };
    match err {
        Some(e) => StatView { last_ok: st1.last_ok, last_err: Some(e) },
        None => st1,
    }
}

pub open spec fn empty_stat() -> StatView {
    StatView { last_ok: None, last_err: None }
}

impl StatusView {
    pub open spec fn has_key(self, k: Seq<char>) -> bool {
        first_index_of(self.providers, k) >= 0
    }

    /// The health recorded under key `k` (meaningful when `has_key`).
    pub open spec fn stat_of(self, k: Seq<char>) -> StatView {
        self.providers[first_index_of(self.providers, k)].stat
    }

    /// Model of pre-seeding: ensure an entry for `k` exists, with empty
    /// health when it is new.
    pub open spec fn seeded(self, k: Seq<char>) -> StatusView {
        if self.has_key(k) {
            self
        } else {
            StatusView {
                providers: self.providers.push(EntryView { key: k, stat: empty_stat() }),
                ..self
            }
        }
    }

    /// Model of one status write for provider `k`; inserts the entry
    /// when it is missing.
    pub open spec fn with_stat(self, k: Seq<char>, ok: Option<int>, err: Option<Seq<char>>) -> StatusView {
        let i = first_index_of(self.providers, k);
        if i < 0 {
            StatusView {
                providers: self.providers.push(
                    EntryView { key: k, stat: apply_stat(empty_stat(), ok, err) },
                ),
                ..self
            }
        } else {
            StatusView {
                providers: self.providers.update(
                    i,
                    EntryView { key: k, stat: apply_stat(self.providers[i].stat, ok, err) },
                ),
                ..self
            }
        }
    }

    /// Model of recording a fresh detection: stamp the cycle time, the
    /// address and the next scheduled run; provider health untouched.
    pub open spec fn with_detected(self, now: int, ip: Seq<char>, next_tick: Option<int>) -> StatusView {
        StatusView { now: now, next_tick: next_tick, current_ip: Some(ip), providers: self.providers }
    }
}

fn dup_text_opt(o: &Option<String>) -> (r: Option<String>)
    ensures
        r == *o,
{
    match o {
        Some(s) => Some(s.clone()),
        None => None,
    }
}

impl ProviderStat {
    /// A value copy of this health record.
    pub fn dup(&self) -> (r: ProviderStat)
        ensures
            r == *self,
    {
        ProviderStat { last_ok: self.last_ok, last_err: dup_text_opt(&self.last_err) }
    }
}

impl AppStatus {
    /// The state before any cycle has run.
    pub fn new() -> (s: AppStatus)
        ensures
            s@ == (StatusView {
                now: 0,
                next_tick: None,
                current_ip: None,
                providers: Seq::<EntryView>::empty(),
            }),
    {
        let s = AppStatus { now: 0, next_tick: None, current_ip: None, providers: Vec::new() };
        proof {
            assert(s@ =~= StatusView {
                now: 0,
                next_tick: None,
                current_ip: None,
                providers: Seq::<EntryView>::empty(),
            });
        }
        s
    }

    /// Index of the first entry stored under `key`.
    fn find(&self, key: &String) -> (r: Option<usize>)
        ensures
            match r {
                Some(i) => i < self@.providers.len() && self@.providers[i as int].key == key@
                    && (forall|j: int| 0 <= j < i ==> self@.providers[j].key != key@),
                None => forall|j: int| 0 <= j < self@.providers.len() ==> self@.providers[j].key != key@,
            },
    {
        let n = self.providers.len();
        let mut i: usize = 0;
        while i < n
            invariant
                n == self@.providers.len(),
                i <= n,
                forall|j: int| 0 <= j < i ==> self@.providers[j].key != key@,
            decreases n - i,
        {
            if self.providers[i].key == *key {
                return Some(i);
            }
            i = i + 1;
        }
        None
    }

    /// Ensure an entry for `key` exists (pre-seeding at startup, so
    /// observers never see a configured provider missing).
    pub fn seed(&mut self, key: &String)
        ensures
            final(self)@ == old(self)@.seeded(key@),
    {
        match self.find(key) {
            Some(i) => {
                proof {
                    lemma_first_index_of_hit(self@.providers, key@, i as int);
                }
            },
            None => {
                proof {
                    lemma_first_index_of_miss(self@.providers, key@);
                }
                self.providers.push(
                    StatusEntry {
                        key: key.clone(),
                        stat: ProviderStat { last_ok: None, last_err: None },
                    },
                );
                proof {
                    assert(self@.providers =~= old(self)@.providers.push(
                        EntryView { key: key@, stat: empty_stat() },
                    ));
                    assert(self@ =~= old(self)@.seeded(key@));
                }
            },
        }
    }

    /// Record the outcome of a provider attempt under `key`.
    ///
    /// `ok` carries a success timestamp (which also clears the stored
    /// failure text); `err` carries a failure text.  An entry is
    /// created when `key` was never seeded.
    pub fn set_stat(&mut self, key: &String, ok: Option<i64>, err: Option<String>)
        ensures
            final(self)@ == old(self)@.with_stat(key@, opt_time_view(ok), opt_text_view(err)),
    {
        let found = self.find(key);
        match found {
            Some(i) => {
                proof {
                    lemma_first_index_of_hit(self@.providers, key@, i as int);
                }
                let mut st = self.providers[i].stat.dup();
                if let Some(t) = ok {
                    st.last_ok = Some(t);
                    st.last_err = None;
                }
                if let Some(e) = err {
                    st.last_err = Some(e);
                }
                self.providers.set(i, StatusEntry { key: key.clone(), stat: st });
                proof {
                    assert(self@.providers =~= old(self)@.providers.update(
                        i as int,
                        EntryView {
                            key: key@,
                            stat: apply_stat(
                                old(self)@.providers[i as int].stat,
                                opt_time_view(ok),
                                opt_text_view(err),
                            ),
                        },
                    ));
                    assert(self@ =~= old(self)@.with_stat(key@, opt_time_view(ok), opt_text_view(err)));
                }
            },
            None => {
                proof {
                    lemma_first_index_of_miss(self@.providers, key@);
                }
                let mut st = ProviderStat { last_ok: None, last_err: None };
                if let Some(t) = ok {
                    st.last_ok = Some(t);
                    st.last_err = None;
                }
                if let Some(e) = err {
                    st.last_err = Some(e);
                }
                self.providers.push(StatusEntry { key: key.clone(), stat: st });
                proof {
                    assert(self@.providers =~= old(self)@.providers.push(
                        EntryView {
                            key: key@,
                            stat: apply_stat(empty_stat(), opt_time_view(ok), opt_text_view(err)),
                        },
                    ));
                    assert(self@ =~= old(self)@.with_stat(key@, opt_time_view(ok), opt_text_view(err)));
                }
            },
        }
    }

    /// Record a fresh detection at the start of a cycle.
    pub fn set_detected(&mut self, now: i64, ip: String, next_tick: Option<i64>)
        ensures
            final(self)@ == old(self)@.with_detected(now as int, ip@, opt_time_view(next_tick)),
    {
        self.now = now;
        self.current_ip = Some(ip);
        self.next_tick = next_tick;
        proof {
            assert(self@.providers =~= old(self)@.providers);
            assert(self@ =~= old(self)@.with_detected(now as int, ip@, opt_time_view(next_tick)));
        }
    }

    /// The health stored under `key`, as a value copy.
    pub fn get_stat(&self, key: &String) -> (r: Option<ProviderStat>)
        ensures
            match r {
                Some(st) => self@.has_key(key@) && st@ == self@.stat_of(key@),
                None => !self@.has_key(key@),
            },
    {
        let found = self.find(key);
        match found {
            Some(i) => {
                proof {
                    lemma_first_index_of_hit(self@.providers, key@, i as int);
                }
                Some(self.providers[i].stat.dup())
            },
            None => {
                proof {
                    lemma_first_index_of_miss(self@.providers, key@);
                }
                None
            },
        }
    }

    /// An immutable point-in-time copy of the whole status.  The copy
    /// is a fresh value: mutating the store afterwards cannot change a
    /// snapshot already returned.
    pub fn snapshot(&self) -> (s: AppStatus)
        ensures
            s@ == self@,
    {
        let mut entries: Vec<StatusEntry> = Vec::new();
        let n = self.providers.len();
        let mut i: usize = 0;
        while i < n
            invariant
                n == self.providers@.len(),
                i <= n,
                entries@.len() == i,
                forall|j: int| 0 <= j < i ==> entries@[j]@ == self.providers@[j]@,
            decreases n - i,
        {
            let e = &self.providers[i];
            entries.push(StatusEntry { key: e.key.clone(), stat: e.stat.dup() });
            i = i + 1;
        }
        let s = AppStatus {
            now: self.now,
            next_tick: self.next_tick,
            current_ip: dup_text_opt(&self.current_ip),
            providers: entries,
        };
        proof {
            assert(s@.providers =~= self@.providers);
            assert(s@ =~= self@);
        }
        s
    }
}

/// Writing one provider's outcome never touches the cycle fields nor
/// any other provider's entry, and inserts at most one entry at the
/// end: everything an observer already holds stays valid.
pub proof fn lemma_with_stat_frame(m: StatusView, k: Seq<char>, ok: Option<int>, err: Option<Seq<char>>)
    ensures
        m.with_stat(k, ok, err).now == m.now,
        m.with_stat(k, ok, err).next_tick == m.next_tick,
        m.with_stat(k, ok, err).current_ip == m.current_ip,
        m.has_key(k) ==> m.with_stat(k, ok, err).providers.len() == m.providers.len(),
        !m.has_key(k) ==> m.with_stat(k, ok, err).providers.len() == m.providers.len() + 1,
        forall|j: int|
            0 <= j < m.providers.len() && m.providers[j].key != k
                ==> m.with_stat(k, ok, err).providers[j] == m.providers[j],
{
    lemma_first_index_of_bounds(m.providers, k);
}

/// After a status write for `k`, the entry under `k` holds exactly
/// the applied health — whether the entry existed before or was
/// inserted by the write.
pub proof fn lemma_with_stat_same_key(m: StatusView, k: Seq<char>, ok: Option<int>, err: Option<Seq<char>>)
    ensures
        m.with_stat(k, ok, err).has_key(k),
        m.with_stat(k, ok, err).stat_of(k) == apply_stat(
            if m.has_key(k) {
                m.stat_of(k)
            } else {
                empty_stat()
            },
            ok,
            err,
        ),
{
    let i = first_index_of(m.providers, k);
    lemma_first_index_of_bounds(m.providers, k);
    if i < 0 {
        let e = EntryView { key: k, stat: apply_stat(empty_stat(), ok, err) };
        lemma_first_index_of_push(m.providers, e, k);
    } else {
        let e = EntryView { key: k, stat: apply_stat(m.providers[i].stat, ok, err) };
        let upd = m.providers.update(i, e);
        assert(forall|j: int| 0 <= j < upd.len() ==> upd[j].key == m.providers[j].key);
        lemma_first_index_of_same_keys(upd, m.providers, k);
    }
}

/// A status write for `k` never touches the entry under any other
/// key, nor whether that key is present.
pub proof fn lemma_with_stat_other_key(
    m: StatusView,
    k: Seq<char>,
    ok: Option<int>,
    err: Option<Seq<char>>,
    k2: Seq<char>,
)
    requires
        k2 != k,
    ensures
        m.with_stat(k, ok, err).has_key(k2) == m.has_key(k2),
        m.has_key(k2) ==> m.with_stat(k, ok, err).stat_of(k2) == m.stat_of(k2),
{
    let i = first_index_of(m.providers, k);
    lemma_first_index_of_bounds(m.providers, k);
    lemma_first_index_of_bounds(m.providers, k2);
    if i < 0 {
        let e = EntryView { key: k, stat: apply_stat(empty_stat(), ok, err) };
        lemma_first_index_of_push(m.providers, e, k2);
    } else {
        let e = EntryView { key: k, stat: apply_stat(m.providers[i].stat, ok, err) };
        let upd = m.providers.update(i, e);
        assert(forall|j: int| 0 <= j < upd.len() ==> upd[j].key == m.providers[j].key);
        lemma_first_index_of_same_keys(upd, m.providers, k2);
        if m.has_key(k2) {
            assert(first_index_of(m.providers, k2) != i);
        }
    }
}

/// Seeding `k` makes it present, keeps every other key's health
/// untouched, and never changes an entry that already exists.
pub proof fn lemma_seeded_keys(m: StatusView, k: Seq<char>, k2: Seq<char>)
    ensures
        m.seeded(k).has_key(k),
        m.seeded(k).now == m.now,
        m.seeded(k).next_tick == m.next_tick,
        m.seeded(k).current_ip == m.current_ip,
        m.has_key(k) ==> m.seeded(k) == m,
        !m.has_key(k) ==> m.seeded(k).stat_of(k) == empty_stat(),
        k2 != k && m.has_key(k2) ==> m.seeded(k).has_key(k2) && m.seeded(k).stat_of(k2)
            == m.stat_of(k2),
{
    lemma_first_index_of_bounds(m.providers, k);
    if !m.has_key(k) {
        let e = EntryView { key: k, stat: empty_stat() };
        lemma_first_index_of_push(m.providers, e, k);
        lemma_first_index_of_push(m.providers, e, k2);
        lemma_first_index_of_bounds(m.providers, k2);
    }
}

} // verus!
