//! The provider contract's plain data: record types and the validated
//! provider set built once at startup.
//!
//! A vendor client (outside this crate) is constructed from a
//! `ProviderEntry`; construction fails fast — at startup, never at
//! update time — on an unknown vendor kind, missing vendor
//! credentials or a duplicate display key.

use vstd::prelude::*;
use vstd::string::*;
use crate::cfg::{AppConfig, ProviderCfg, spec_display_key, display_key};
use crate::error::CoreError;
use crate::status::AppStatus;
use crate::status::StatusView;

verus! {

/// DNS record type.
#[derive(Clone, Copy, Debug, PartialEq, Eq, Structural)]
pub enum RecordType {
    A,
    AAAA,
}

/// Supported DNS vendors.
#[derive(Clone, Copy, Debug, PartialEq, Eq, Structural)]
pub enum ProviderKind {
    Cloudflare,
    Aliyun,
}

/// `c` matches `w` up to ASCII case, where `w` is a lowercase letter:
/// either the letter itself or its uppercase form.
pub open spec fn matches_ci(c: char, w: char) -> bool {
    c == w || (c as u32) + 32 == (w as u32)
}

/// Case-insensitive ASCII match of `s` against a lowercase word.
pub open spec fn eq_ci(s: Seq<char>, word: Seq<char>) -> bool {
    s.len() == word.len() && forall|i: int| 0 <= i < s.len() ==> matches_ci(s[i], #[trigger] word[i])
}

/// Case-insensitive comparison of a string against a lowercase word.
#[verifier::loop_isolation(false)]
pub fn eq_ignore_case(s: &str, word: &str) -> (b: bool)
    ensures
        b == eq_ci(s@, word@),
{
    let n = s.unicode_len();
    let m = word.unicode_len();
    if n != m {
        return false;
    }
    let mut i: usize = 0;
    while i < n
        invariant
            i <= n,
            forall|j: int| 0 <= j < i ==> matches_ci(s@[j], #[trigger] word@[j]),
        decreases n - i,
    {
        let c = s.get_char(i);
        let w = word.get_char(i);
        if !(c == w || (c as u64) + 32 == (w as u64)) {
            return false;
        }
        i = i + 1;
    }
    true
}

/// The record type a configured string means: `AAAA` in any ASCII
/// case, everything else defaulting to `A`.
pub open spec fn spec_record_type(s: Seq<char>) -> RecordType {
    if eq_ci(s, "aaaa"@) {
        RecordType::AAAA
    } else {
        RecordType::A
    }
}

/// Parse a configured record type.
pub fn parse_record_type(s: &String) -> (t: RecordType)
    ensures
        t == spec_record_type(s@),
{
    if eq_ignore_case(s.as_str(), "aaaa") {
        RecordType::AAAA
    } else {
        RecordType::A
    }
}

impl RecordType {
    /// The record type's wire name.
    pub fn rtype_str(&self) -> (r: &'static str)
        ensures
            *self is A ==> r@ == "A"@,
            *self is AAAA ==> r@ == "AAAA"@,
    {
        match self {
            RecordType::A => "A",
            RecordType::AAAA => "AAAA",
        }
    }
}

/// The vendor a configured kind string names, matched without regard
/// to ASCII case.
pub open spec fn spec_provider_kind(kind: Seq<char>) -> Option<ProviderKind> {
    if eq_ci(kind, "cloudflare"@) {
        Some(ProviderKind::Cloudflare)
    } else if eq_ci(kind, "aliyun"@) {
        Some(ProviderKind::Aliyun)
    } else {
        None
    }
}

/// Runtime pairing of a display key with everything a vendor client
/// needs; created once at startup, immutable thereafter, shared by
/// every cycle.  Fields a vendor does not use stay empty.
#[derive(Debug)]
pub struct ProviderEntry {
    pub key: String,
    pub kind: ProviderKind,
    pub zone: String,
    pub record: String,
    pub rtype: RecordType,
    pub ttl: u32,
    pub token: String,
    pub access_key: String,
    pub access_secret: String,
    pub region: String,
}

/// One provider configuration is usable: its vendor kind is known and
/// the vendor's required credentials are present.
pub open spec fn spec_valid_provider(p: ProviderCfg) -> bool {
    match spec_provider_kind(p.kind@) {
        Some(ProviderKind::Cloudflare) => true,
        Some(ProviderKind::Aliyun) => p.access_key is Some && p.access_secret is Some,
        None => false,
    }
}

/// Display keys are unique across the configured providers.
pub open spec fn spec_distinct_keys(ps: Seq<ProviderCfg>) -> bool {
    forall|i: int, j: int|
        0 <= i < j < ps.len() ==> spec_display_key(#[trigger] ps[i]) != spec_display_key(
            #[trigger] ps[j],
        )
}

/// The whole provider configuration is usable.
pub open spec fn spec_providers_ok(ps: Seq<ProviderCfg>) -> bool {
    (forall|i: int| 0 <= i < ps.len() ==> spec_valid_provider(#[trigger] ps[i]))
        && spec_distinct_keys(ps)
}

/// The entry built from one provider configuration.
pub open spec fn entry_matches(e: ProviderEntry, p: ProviderCfg) -> bool {
    &&& e.key@ == spec_display_key(p)
    &&& Some(e.kind) == spec_provider_kind(p.kind@)
    &&& e.zone@ == p.zone@
    &&& e.record@ == p.record@
    &&& e.rtype == spec_record_type(p.record_type@)
    &&& e.ttl == p.ttl
    &&& e.kind is Cloudflare ==> e.token@ == p.token@
    &&& e.kind is Aliyun ==> {
        &&& e.access_key@ == p.access_key->0@
        &&& e.access_secret@ == p.access_secret->0@
        &&& e.region@ == match p.region {
            Some(r) => r@,
            None => "cn-hangzhou"@,
        }
    }
}

/// The display keys of a built provider set.
pub open spec fn entry_keys(es: Seq<ProviderEntry>) -> Seq<Seq<char>> {
    es.map_values(|e: ProviderEntry| e.key@)
}

/// Build the runtime provider set from configuration.  Fails fast on
/// an unknown vendor kind, missing vendor credentials or a duplicate
/// display key; success yields one entry per configured provider, in
/// declaration order.
#[verifier::loop_isolation(false)]
pub fn init_providers(cfg: &AppConfig) -> (r: Result<Vec<ProviderEntry>, CoreError>)
    ensures
        r is Ok <==> spec_providers_ok(cfg.provider@),
        r matches Ok(v) ==> v@.len() == cfg.provider@.len() && (forall|i: int|
            0 <= i < v@.len() ==> entry_matches(#[trigger] v@[i], cfg.provider@[i])),
        r matches Err(e) ==> e is Fatal,
{
    let ghost ps = cfg.provider@;
    let n = cfg.provider.len();
    let mut v: Vec<ProviderEntry> = Vec::new();
    let mut i: usize = 0;
    while i < n
        invariant
            i <= n,
            v@.len() == i,
            forall|j: int| 0 <= j < i ==> entry_matches(#[trigger] v@[j], ps[j]),
            forall|j: int| 0 <= j < i ==> spec_valid_provider(#[trigger] ps[j]),
            forall|j: int, l: int|
                0 <= j < l < i ==> spec_display_key(#[trigger] ps[j]) != spec_display_key(
                    #[trigger] ps[l],
                ),
        decreases n - i,
    {
        let p = &cfg.provider[i];
        let key = display_key(p);

        let mut d: usize = 0;
        while d < i
            invariant
                d <= i,
                key@ == spec_display_key(ps[i as int]),
                forall|j: int| 0 <= j < d ==> spec_display_key(#[trigger] ps[j]) != key@,
            decreases i - d,
        {
            if v[d].key == key {
                return Err(CoreError::Fatal(
                    String::from_str("duplicate provider key `").concat(key.as_str()).concat("`"),
                ));
            }
            d = d + 1;
        }

        let rtype = parse_record_type(&p.record_type);
        let entry: ProviderEntry;
        if eq_ignore_case(p.kind.as_str(), "cloudflare") {
            entry = ProviderEntry {
                key,
                kind: ProviderKind::Cloudflare,
                zone: p.zone.clone(),
                record: p.record.clone(),
                rtype,
                ttl: p.ttl,
                token: p.token.clone(),
                access_key: String::new(),
                access_secret: String::new(),
                region: String::new(),
            };
        } else if eq_ignore_case(p.kind.as_str(), "aliyun") {
            let ak = match &p.access_key {
                Some(a) => a.clone(),
                None => {
                    return Err(CoreError::Fatal(String::from_str("aliyun: access_key missing")));
                },
            };
            let sk = match &p.access_secret {
                Some(s) => s.clone(),
                None => {
                    return Err(CoreError::Fatal(String::from_str("aliyun: access_secret missing")));
                },
            };
            let region = match &p.region {
                Some(r) => r.clone(),
                None => String::from_str("cn-hangzhou"),
            };
            entry = ProviderEntry {
                key,
                kind: ProviderKind::Aliyun,
                zone: p.zone.clone(),
                record: p.record.clone(),
                rtype,
                ttl: p.ttl,
                token: String::new(),
                access_key: ak,
                access_secret: sk,
                region,
            };
        } else {
            return Err(CoreError::Fatal(
                String::from_str("unknown provider kind `").concat(p.kind.as_str()).concat("`"),
            ));
        }
        v.push(entry);
        i = i + 1;
    }
    Ok(v)
}

/// Law: the provider set built from a valid configuration carries
/// pairwise-distinct display keys, so each provider's outcome lands
/// in its own status entry and nowhere else.
pub proof fn lemma_entries_distinct_keys(v: Seq<ProviderEntry>, ps: Seq<ProviderCfg>)
    requires
        v.len() == ps.len(),
        forall|i: int| 0 <= i < v.len() ==> entry_matches(#[trigger] v[i], ps[i]),
        spec_distinct_keys(ps),
    ensures
        forall|a: int, b: int|
            0 <= a < b < entry_keys(v).len() ==> entry_keys(v)[a] != entry_keys(v)[b],
{
    assert forall|a: int, b: int|
        0 <= a < b < entry_keys(v).len() implies entry_keys(v)[a] != entry_keys(v)[b] by {
        assert(entry_matches(v[a], ps[a]));
        assert(entry_matches(v[b], ps[b]));
        assert(spec_display_key(ps[a]) != spec_display_key(ps[b]));
    }
}

/// The status store after seeding the first `upto` keys, in order.
pub open spec fn seed_fold(m: StatusView, keys: Seq<Seq<char>>, upto: int) -> StatusView
    decreases upto,
{
    if upto <= 0 {
        m
    } else {
        seed_fold(m, keys, upto - 1).seeded(keys[upto - 1])
    }
}

/// Pre-seed the status store so every configured provider has an
/// entry before the first cycle runs: observers never see a
/// configured provider missing.
#[verifier::loop_isolation(false)]
pub fn seed_status(status: &mut AppStatus, entries: &Vec<ProviderEntry>)
    ensures
        final(status)@ == seed_fold(old(status)@, entry_keys(entries@), entries@.len() as int),
{
    let n = entries.len();
    let mut i: usize = 0;
    while i < n
        invariant
            i <= n,
            status@ == seed_fold(old(status)@, entry_keys(entries@), i as int),
        decreases n - i,
    {
        status.seed(&entries[i].key);
        i = i + 1;
    }
}

/// Law: after seeding, every seeded key is present; keys seeded
/// earlier stay present throughout.
pub proof fn lemma_seed_fold_has_all(m: StatusView, keys: Seq<Seq<char>>, upto: int, j: int)
    requires
        0 <= j < upto <= keys.len(),
    ensures
        seed_fold(m, keys, upto).has_key(keys[j]),
    decreases upto,
{
    if j == upto - 1 {
        crate::status::lemma_seeded_keys(seed_fold(m, keys, upto - 1), keys[j], keys[j]);
    } else {
        lemma_seed_fold_has_all(m, keys, upto - 1, j);
        let prev = seed_fold(m, keys, upto - 1);
        crate::status::lemma_seeded_keys(prev, keys[upto - 1], keys[j]);
        if keys[upto - 1] == keys[j] {
        } else {
            assert(prev.seeded(keys[upto - 1]).has_key(keys[j]));
        }
    }
}

} // verus!
