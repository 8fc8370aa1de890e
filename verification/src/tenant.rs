//! Who calls, what they may use, and how often.

use vstd::prelude::*;
use vstd::string::*;
use crate::codec::{fingerprint, fingerprint_of, lemma_marked_hex, marked_hex};
use crate::config::{env_u64, env_number, opt_slice, Env, Vars};
use crate::json::{lemma_values, no_members, values, Json, JsonV, NumV, Object};
use crate::numeral::{dec, dec_u64, parse_unsigned, unsigned_of};
use crate::strmap::{each, find, put, StrMap};
use crate::table::{key3, lemma_store_lookup, lookup, store, Rows, Table};
use crate::text::{after_prefix, before, cat2, cat5, copy_list, cut, cut_at_char, lex_lt, list_has, lower, lowercase, opt_text, same, split, split_at_char, strip_prefix, texts, trim, trimmed};

verus! {

/// Who calls.
pub enum Tenant {
    /// May use every system.
    Full { id: String },
    /// May use the listed systems only. The label is no secret: it stands in logs.
    Restricted { id: String, instances: Vec<String> },
}

/// Who calls.
pub enum TenantV {
    Full { id: Seq<char> },
    Restricted { id: Seq<char>, instances: Seq<Seq<char>> },
}

impl TenantV {
    /// The label.
    pub open spec fn label(self) -> Seq<char> {
        match self {
            TenantV::Full { id } => id,
            TenantV::Restricted { id, .. } => id,
        }
    }

    /// Whether a system may be used.
    pub open spec fn may_use(self, instance: Seq<char>) -> bool {
        match self {
            TenantV::Full { .. } => true,
            TenantV::Restricted { instances, .. } => instances.contains(instance),
        }
    }

    /// What a call for a system that may not be used is answered.
    pub open spec fn refusal(self, instance: Seq<char>) -> Seq<char> {
        "tenant '"@ + self.label() + "' has no access to instance '"@ + instance + "'"@
    }

    /// The names of the systems that may be used, among the given ones.
    pub open spec fn visible(self, names: Seq<Seq<char>>) -> Seq<Seq<char>>
        decreases names.len(),
    {
        if names.len() == 0 {
            Seq::empty()
        } else {
            let head = self.visible(names.drop_last());
            if self.may_use(names.last()) {
                head.push(names.last())
            } else {
                head
            }
        }
    }

    /// The system that resources are read from: the default one if it may be used,
    /// else the first in order that may.
    pub open spec fn home(self, pool_default: Seq<char>) -> Option<Seq<char>> {
        match self {
            TenantV::Full { .. } => Some(pool_default),
            TenantV::Restricted { instances, .. } => if instances.contains(pool_default) {
                Some(pool_default)
            } else {
                least(instances)
            },
        }
    }
}

/// The first text in lexicographic order.
pub open spec fn least(v: Seq<Seq<char>>) -> Option<Seq<char>>
    decreases v.len(),
{
    if v.len() == 0 {
        None
    } else {
        match least(v.drop_last()) {
            None => Some(v.last()),
            Some(m) => if lex_lt(v.last(), m) {
                Some(v.last())
            } else {
                Some(m)
            },
        }
    }
}

/// The first text in lexicographic order.
fn least_of(v: &Vec<String>) -> (r: Option<String>)
    ensures
        opt_text(r) == least(texts(v@)),
{
    let mut best: Option<String> = None;
    let mut i: usize = 0;
    while i < v.len()
        invariant
            i <= v@.len(),
            opt_text(best) == least(texts(v@).take(i as int)),
        decreases v@.len() - i,
    {
        proof {
            assert(texts(v@).take(i + 1).drop_last() =~= texts(v@).take(i as int));
        }
        let better: bool = match &best {
            None => true,
            Some(m) => before(v[i].as_str(), m.as_str()),
        };
        if better {
            best = Some(v[i].clone());
        }
        i = i + 1;
    }
    assert(texts(v@).take(i as int) =~= texts(v@));
    best
}

impl Tenant {
    /// Who it is.
    pub open spec fn view(&self) -> TenantV {
        match self {
            Tenant::Full { id } => TenantV::Full { id: id@ },
            Tenant::Restricted { id, instances } => TenantV::Restricted {
                id: id@,
                instances: texts(instances@),
            },
        }
    }

    /// A copy.
    pub fn copy(&self) -> (r: Tenant)
        ensures
            r@ == self@,
    {
        match self {
            Tenant::Full { id } => Tenant::Full { id: id.clone() },
            Tenant::Restricted { id, instances } => Tenant::Restricted {
                id: id.clone(),
                instances: copy_list(instances),
            },
        }
    }

    /// The label.
    pub fn id(&self) -> (r: &String)
        ensures
            r@ == self@.label(),
    {
        match self {
            Tenant::Full { id } => id,
            Tenant::Restricted { id, .. } => id,
        }
    }

    /// Whether the caller may use everything.
    pub fn is_full(&self) -> (r: bool)
        ensures
            r == (self@ is Full),
    {
        match self {
            Tenant::Full { .. } => true,
            Tenant::Restricted { .. } => false,
        }
    }

    /// Accepts a system that may be used, and refuses every other.
    pub fn check(&self, instance: &str) -> (r: Result<(), String>)
        ensures
            r is Ok == self@.may_use(instance@),
            r matches Err(e) ==> e@ == self@.refusal(instance@),
    {
        match self {
            Tenant::Full { .. } => Ok(()),
            Tenant::Restricted { id, instances } => if list_has(instances, instance) {
                Ok(())
            } else {
                Err(
                    cat5(
                        "tenant '",
                        id.as_str(),
                        "' has no access to instance '",
                        instance,
                        "'",
                    ),
                )
            },
        }
    }

    /// The names of the systems that may be used, among the given ones.
    pub fn filter(&self, names: &Vec<String>) -> (r: Vec<String>)
        ensures
            texts(r@) == self@.visible(texts(names@)),
    {
        let mut out: Vec<String> = Vec::new();
        let mut i: usize = 0;
        while i < names.len()
            invariant
                i <= names@.len(),
                texts(out@) == self@.visible(texts(names@).take(i as int)),
            decreases names@.len() - i,
        {
            proof {
                assert(texts(names@).take(i + 1).drop_last() =~= texts(names@).take(i as int));
            }
            let keep: bool = match self {
                Tenant::Full { .. } => true,
                Tenant::Restricted { instances, .. } => list_has(instances, names[i].as_str()),
            };
            if keep {
                let ghost prev = texts(out@);
                out.push(names[i].clone());
                assert(texts(out@) =~= prev.push(names@[i as int]@));
            }
            i = i + 1;
        }
        assert(texts(names@).take(i as int) =~= texts(names@));
        out
    }

    /// The system that resources are read from: the default one if it may be used,
    /// else the first in order that may.
    pub fn resource_default(&self, pool_default: &str) -> (r: Option<String>)
        ensures
            opt_text(r) == self@.home(pool_default@),
    {
        match self {
            Tenant::Full { .. } => Some(pool_default.to_owned()),
            Tenant::Restricted { instances, .. } => if list_has(instances, pool_default) {
                Some(pool_default.to_owned())
            } else {
                least_of(instances)
            },
        }
    }
}

/// No system is visible that may not be used, and every one that may is.
pub proof fn visible_is_what_may_be_used(t: TenantV, names: Seq<Seq<char>>, n: Seq<char>)
    ensures
        t.visible(names).contains(n) == (names.contains(n) && t.may_use(n)),
    decreases names.len(),
{
    if names.len() > 0 {
        visible_is_what_may_be_used(t, names.drop_last(), n);
        let head = t.visible(names.drop_last());
        assert(names =~= names.drop_last().push(names.last()));
        lemma_push_contains(names.drop_last(), names.last(), n);
        lemma_push_contains(head, names.last(), n);
    }
}

proof fn lemma_push_contains(s: Seq<Seq<char>>, x: Seq<char>, n: Seq<char>)
    ensures
        s.push(x).contains(n) == (s.contains(n) || n == x),
{
    if s.contains(n) {
        let i = choose|i: int| 0 <= i < s.len() && s[i] == n;
        assert(s.push(x)[i] == n);
    }
    if n == x {
        assert(s.push(x)[s.len() as int] == n);
    }
    if s.push(x).contains(n) && n != x {
        let i = choose|i: int| 0 <= i < s.push(x).len() && s.push(x)[i] == n;
        assert(s[i] == n);
    }
}

/// The system that resources are read from may be used.
pub proof fn home_may_be_used(t: TenantV, pool_default: Seq<char>)
    ensures
        t.home(pool_default) matches Some(n) ==> t.may_use(n),
{
    if let TenantV::Restricted { instances, .. } = t {
        lemma_least_member(instances);
    }
}

proof fn lemma_least_member(v: Seq<Seq<char>>)
    ensures
        least(v) matches Some(m) ==> v.contains(m),
    decreases v.len(),
{
    if v.len() > 0 {
        lemma_least_member(v.drop_last());
        assert(v =~= v.drop_last().push(v.last()));
        if let Some(m) = least(v) {
            lemma_push_contains(v.drop_last(), v.last(), m);
        }
    }
}

/// The label of a caller who is known by a token.
pub open spec fn token_label(token: Seq<char>) -> Seq<char> {
    "t-"@ + fingerprint_of(token, 12)
}

/// The label of a caller who is known by a token: a part of the token's digest, `t-` and 12
/// lower-case hexadecimal digits.
pub fn digest_token(token: &str) -> (r: String)
    ensures
        r@ == token_label(token@),
        marked_hex(r@, "t-"@, 12),
{
    let h = fingerprint(token, 12);
    proof {
        lemma_marked_hex("t-"@, h@);
    }
    cat2("t-", h.as_str())
}

/// The tokens of the tenants, by system.
pub type Tokens = Seq<(Seq<char>, Seq<Seq<char>>)>;

/// The tokens in a map.
pub open spec fn tokens_of(m: Seq<(Seq<char>, Vec<String>)>) -> Tokens {
    each(m, |v: Vec<String>| texts(v@))
}

/// The systems that list a token.
pub open spec fn listed(m: Tokens, token: Seq<char>) -> Seq<Seq<char>>
    decreases m.len(),
{
    if m.len() == 0 {
        Seq::empty()
    } else {
        let head = listed(m.drop_last(), token);
        if m.last().1.contains(token) {
            head.push(m.last().0)
        } else {
            head
        }
    }
}

/// Who calls with a token. A token that systems list gives those systems; the token
/// of `MCP_AUTH_TOKEN` gives everything; without authentication everyone may use
/// everything.
pub open spec fn caller(
    token: Option<Seq<char>>,
    auth_enabled: bool,
    m: Tokens,
    env: Vars,
) -> Result<TenantV, Seq<char>> {
    let t = match token {
        Some(x) => trimmed(x),
        None => Seq::empty(),
    };
    if t.len() == 0 {
        if auth_enabled {
            Err("missing bearer token"@)
        } else {
            Ok(TenantV::Full { id: "local"@ })
        }
    } else if listed(m, t).len() > 0 {
        Ok(TenantV::Restricted { id: token_label(t), instances: listed(m, t) })
    } else if auth_enabled {
        if find(env, "MCP_AUTH_TOKEN"@) == Some(t) {
            Ok(TenantV::Full { id: "admin"@ })
        } else {
            Err("unknown token"@)
        }
    } else {
        Ok(TenantV::Full { id: token_label(t) })
    }
}

/// Who calls with a token.
pub fn resolve_tenant(
    token: Option<&str>,
    auth_enabled: bool,
    instance_tokens: &StrMap<Vec<String>>,
    env: &Env,
) -> (r: Result<Tenant, String>)
    ensures
        (match r {
            Ok(t) => caller(opt_slice(token), auth_enabled, tokens_of(instance_tokens@), env@)
                == Ok::<TenantV, Seq<char>>(t@),
            Err(e) => caller(opt_slice(token), auth_enabled, tokens_of(instance_tokens@), env@)
                == Err::<TenantV, Seq<char>>(e@),
        }),
{
    let ghost m = tokens_of(instance_tokens@);
    let t: String = match token {
        Some(x) => trim(x),
        None => String::new(),
    };
    proof {
        if token is None {
            assert(t@ =~= Seq::<char>::empty());
        }
    }
    if t.as_str().is_empty() {
        if auth_enabled {
            return Err("missing bearer token".to_owned());
        }
        return Ok(Tenant::Full { id: "local".to_owned() });
    }
    let mut allowed: Vec<String> = Vec::new();
    let mut i: usize = 0;
    let n: usize = instance_tokens.len();
    while i < n
        invariant
            i <= n,
            n == instance_tokens@.len(),
            m == tokens_of(instance_tokens@),
            texts(allowed@) == listed(m.take(i as int), t@),
        decreases n - i,
    {
        proof {
            assert(m.take(i + 1).drop_last() =~= m.take(i as int));
            assert(m.take(i + 1).last() == m[i as int]);
        }
        if list_has(instance_tokens.value_at(i), t.as_str()) {
            let ghost prev = texts(allowed@);
            allowed.push(instance_tokens.key_at(i).clone());
            assert(texts(allowed@) =~= prev.push(m[i as int].0));
        }
        i = i + 1;
    }
    assert(m.take(i as int) =~= m);
    assert(texts(allowed@).len() == allowed@.len());
    if allowed.len() > 0 {
        return Ok(Tenant::Restricted { id: digest_token(t.as_str()), instances: allowed });
    }
    if auth_enabled {
        if let Some(admin) = env.var("MCP_AUTH_TOKEN") {
            if same(t.as_str(), admin) {
                return Ok(Tenant::Full { id: "admin".to_owned() });
            }
        }
        return Err("unknown token".to_owned());
    }
    Ok(Tenant::Full { id: digest_token(t.as_str()) })
}

/// A caller whose token a system lists may use exactly the systems that list it, with
/// or without authentication.
pub proof fn tokens_give_their_systems(
    token: Seq<char>,
    auth_enabled: bool,
    m: Tokens,
    env: Vars,
    i: int,
    instance: Seq<char>,
)
    requires
        0 <= i < m.len(),
        m[i].1.contains(trimmed(token)),
        trimmed(token).len() > 0,
    ensures
        (match caller(Some(token), auth_enabled, m, env) {
            Ok(t) => t.may_use(instance) == exists|j: int|
                0 <= j < m.len() && m[j].1.contains(trimmed(token)) && (#[trigger] m[j]).0
                    == instance,
            Err(_) => false,
        }),
{
    let t = trimmed(token);
    lemma_listed(m, t, m[i].0);
    lemma_listed(m, t, instance);
    assert(listed(m, t).contains(m[i].0)) by {
        assert(m[i].0 == m[i].0);
    }
}

proof fn lemma_listed(m: Tokens, token: Seq<char>, n: Seq<char>)
    ensures
        listed(m, token).contains(n) == exists|j: int|
            0 <= j < m.len() && m[j].1.contains(token) && (#[trigger] m[j]).0 == n,
    decreases m.len(),
{
    if m.len() > 0 {
        let h = m.drop_last();
        lemma_listed(h, token, n);
        lemma_push_contains(listed(h, token), m.last().0, n);
        if exists|j: int| 0 <= j < h.len() && h[j].1.contains(token) && (#[trigger] h[j]).0 == n {
            let j = choose|j: int|
                0 <= j < h.len() && h[j].1.contains(token) && (#[trigger] h[j]).0 == n;
            assert(m[j] == h[j]);
        }
        if exists|j: int| 0 <= j < m.len() && m[j].1.contains(token) && (#[trigger] m[j]).0 == n {
            let j = choose|j: int|
                0 <= j < m.len() && m[j].1.contains(token) && (#[trigger] m[j]).0 == n;
            if j < h.len() {
                assert(m[j] == h[j]);
            } else {
                assert(m[j] == m.last());
            }
        }
        if m.last().1.contains(token) && m.last().0 == n {
            assert(m[m.len() - 1].0 == n);
        }
    }
}

/// With authentication, a call whose token no system lists and that is not the
/// administrator's is refused, and so is a call without a token.
pub proof fn strangers_are_refused(token: Option<Seq<char>>, m: Tokens, env: Vars)
    requires
        token matches Some(t) ==> listed(m, trimmed(t)).len() == 0 && find(
            env,
            "MCP_AUTH_TOKEN"@,
        ) != Some(trimmed(t)),
    ensures
        caller(token, true, m, env) is Err,
{
}

/// The token of a query string: the first value of `token` or `access_token` that is
/// not empty.
pub open spec fn query_token(pieces: Seq<Seq<char>>) -> Option<Seq<char>>
    decreases pieces.len(),
{
    if pieces.len() == 0 {
        None
    } else {
        match cut(pieces[0], '=') {
            Some((k, v)) => if (k == "token"@ || k == "access_token"@) && v.len() > 0 {
                Some(v)
            } else {
                query_token(pieces.drop_first())
            },
            None => query_token(pieces.drop_first()),
        }
    }
}

/// The token of an authorization header.
pub open spec fn header_token(h: Seq<char>) -> Option<Seq<char>> {
    let rest = match after_prefix(h, "Bearer "@) {
        Some(t) => Some(t),
        None => after_prefix(h, "bearer "@),
    };
    match rest {
        Some(t) => if trimmed(t).len() > 0 {
            Some(trimmed(t))
        } else {
            None
        },
        None => None,
    }
}

/// The token of a request: that of the authorization header, else that of the query
/// string.
pub open spec fn bearer(authorization: Option<Seq<char>>, query: Seq<char>) -> Option<Seq<char>> {
    match authorization {
        Some(h) => match header_token(h) {
            Some(t) => Some(t),
            None => query_token(split(query, '&')),
        },
        None => query_token(split(query, '&')),
    }
}

/// The token of a request: that of the authorization header, else that of the query
/// string.
pub fn bearer_from(authorization: Option<&str>, query: &str) -> (r: Option<String>)
    ensures
        opt_text(r) == bearer(opt_slice(authorization), query@),
{
    if let Some(h) = authorization {
        let rest = match strip_prefix(h, "Bearer ") {
            Some(t) => Some(t),
            None => strip_prefix(h, "bearer "),
        };
        if let Some(t) = rest {
            let t = trim(t.as_str());
            if !t.as_str().is_empty() {
                return Some(t);
            }
        }
    }
    let pieces = split_at_char(query, '&');
    let ghost all = texts(pieces@);
    let mut i: usize = 0;
    assert(all.skip(0) =~= all);
    while i < pieces.len()
        invariant
            i <= pieces@.len(),
            all == texts(pieces@),
            all == split(query@, '&'),
            query_token(all) == query_token(all.skip(i as int)),
            bearer(opt_slice(authorization), query@) == query_token(all),
        decreases pieces@.len() - i,
    {
        let ghost rest = all.skip(i as int);
        assert(rest[0] == all[i as int]);
        assert(rest.drop_first() =~= all.skip(i + 1));
        if let Some((k, v)) = cut_at_char(pieces[i].as_str(), '=') {
            if (same(k.as_str(), "token") || same(k.as_str(), "access_token"))
                && !v.as_str().is_empty() {
                return Some(v);
            }
        }
        i = i + 1;
    }
    None
}

/// How the rate limit works: `off`, `warn` or `block`.
pub open spec fn rate_mode(env: Vars) -> Seq<char> {
    lowercase(
        match find(env, "SAP_MCP_RATE_LIMIT_MODE"@) {
            Some(v) => v,
            None => "off"@,
        },
    )
}

/// The window of the rate limit, in seconds.
pub open spec fn rate_window(env: Vars) -> nat {
    env_number(env, "SAP_MCP_RATE_LIMIT_WINDOW"@, 60)
}

/// How many calls fit into the window.
pub open spec fn rate_budget(env: Vars) -> nat {
    match find(env, "SAP_MCP_RATE_LIMIT_MAX_CALLS"@) {
        Some(v) => match unsigned_of(v, usize::MAX as nat) {
            Some(n) => n,
            None => 120,
        },
        None => 120,
    }
}

/// How long ago a moment was, in nanoseconds.
pub open spec fn elapsed(at: u64, now: u64) -> int {
    if now >= at {
        now - at
    } else {
        0
    }
}

/// Whether a moment was longer ago than a number of seconds.
pub open spec fn older(at: u64, now: u64, secs: nat) -> bool {
    elapsed(at, now) > secs * 1_000_000_000
}

/// Whether a moment was longer ago than a number of seconds.
pub fn is_older(at: u64, now: u64, secs: u64) -> (r: bool)
    ensures
        r == older(at, now, secs as nat),
{
    let e: u64 = if now >= at {
        now - at
    } else {
        0
    };
    (e as u128) > (secs as u128) * 1_000_000_000
}

/// The moments from the first that is not too long ago.
pub open spec fn recent(times: Seq<u64>, now: u64, secs: nat) -> Seq<u64>
    decreases times.len(),
{
    if times.len() == 0 {
        times
    } else if older(times[0], now, secs) {
        recent(times.drop_first(), now, secs)
    } else {
        times
    }
}

/// How many of the moments are not too long ago.
pub open spec fn count_recent(times: Seq<u64>, now: u64, secs: nat) -> nat
    decreases times.len(),
{
    if times.len() == 0 {
        0
    } else {
        count_recent(times.drop_last(), now, secs) + (if older(times.last(), now, secs) {
            0nat
        } else {
            1nat
        })
    }
}

/// The calls that were made, by tenant, system and tool.
pub type Calls = Rows<Seq<u64>>;

/// The most keys that the calls are kept under before they are dropped for a new one.
pub const MAX_RATE_KEYS: usize = 4096;

/// The calls of a key up to now, with the present one.
pub open spec fn calls_with(calls: Calls, key: Seq<Seq<char>>, now: u64, secs: nat) -> Seq<u64> {
    let kept = match lookup(pruned(calls, key), key) {
        Some(t) => recent(t, now, secs),
        None => Seq::empty(),
    };
    kept.push(now)
}

/// The calls, dropped where there are too many keys for a new one.
pub open spec fn pruned(calls: Calls, key: Seq<Seq<char>>) -> Calls {
    if calls.len() > MAX_RATE_KEYS && lookup(calls, key) is None {
        Seq::empty()
    } else {
        calls
    }
}

/// The calls after one more.
pub open spec fn calls_after(env: Vars, calls: Calls, key: Seq<Seq<char>>, now: u64) -> Calls {
    if rate_mode(env) == "off"@ {
        calls
    } else {
        store(pruned(calls, key), key, calls_with(calls, key, now, rate_window(env)))
    }
}

/// Whether one more call is let through, and how many there are with it.
pub open spec fn rate_verdict(env: Vars, calls: Calls, key: Seq<Seq<char>>, now: u64) -> (
    bool,
    nat,
) {
    if rate_mode(env) == "off"@ {
        (true, 0)
    } else {
        let n = calls_with(calls, key, now, rate_window(env)).len();
        (!(rate_mode(env) == "block"@ && n > rate_budget(env)), n)
    }
}

/// What calls in a table are.
pub open spec fn calls_of(rows: Rows<Vec<u64>>) -> Calls {
    Seq::new(rows.len(), |i: int| (rows[i].0, rows[i].1@))
}

proof fn lemma_calls_lookup(rows: Rows<Vec<u64>>, key: Seq<Seq<char>>)
    ensures
        lookup(calls_of(rows), key) == (match lookup(rows, key) {
            Some(v) => Some(v@),
            None => None,
        }),
    decreases rows.len(),
{
    if rows.len() > 0 {
        assert(calls_of(rows).drop_first() =~= calls_of(rows.drop_first()));
        lemma_calls_lookup(rows.drop_first(), key);
    }
}

proof fn lemma_calls_store(rows: Rows<Vec<u64>>, key: Seq<Seq<char>>, v: Vec<u64>)
    ensures
        calls_of(store(rows, key, v)) == store(calls_of(rows), key, v@),
    decreases rows.len(),
{
    let c = calls_of(rows);
    if rows.len() == 0 {
        assert(calls_of(store(rows, key, v)) =~= store(c, key, v@));
    } else {
        lemma_calls_store(rows.drop_first(), key, v);
        assert(c.drop_first() =~= calls_of(rows.drop_first()));
        assert(calls_of(store(rows, key, v)) =~= store(c, key, v@));
    }
}

/// Counts calls per tenant, system and tool in a sliding window.
pub struct RateLimiter {
    calls: Table<Vec<u64>>,
}

impl RateLimiter {
    /// The calls that were made.
    pub closed spec fn view(&self) -> Calls {
        calls_of(self.calls@)
    }

    /// A limiter that has seen no calls.
    pub fn new() -> (r: RateLimiter)
        ensures
            r@ == Seq::<(Seq<Seq<char>>, Seq<u64>)>::empty(),
    {
        let r = RateLimiter { calls: Table::new() };
        assert(r@ =~= Seq::<(Seq<Seq<char>>, Seq<u64>)>::empty());
        r
    }

    /// How the limit works.
    pub fn mode(env: &Env) -> (r: String)
        ensures
            r@ == rate_mode(env@),
    {
        match env.var("SAP_MCP_RATE_LIMIT_MODE") {
            Some(v) => lower(v),
            None => lower("off"),
        }
    }

    /// The window, in seconds.
    pub fn window(env: &Env) -> (r: u64)
        ensures
            r == rate_window(env@),
    {
        env_u64(env, "SAP_MCP_RATE_LIMIT_WINDOW", 60)
    }

    /// How many calls fit into the window.
    pub fn budget(env: &Env) -> (r: usize)
        ensures
            r == rate_budget(env@),
    {
        match env.var("SAP_MCP_RATE_LIMIT_MAX_CALLS") {
            Some(v) => match parse_unsigned(v, usize::MAX as u64) {
                Some(n) => n as usize,
                None => 120,
            },
            None => 120,
        }
    }

    /// Counts one more call. Returns whether it is let through, and how many calls
    /// there are with it.
    pub fn check(&mut self, env: &Env, tenant: &str, instance: &str, tool: &str, now: u64) -> (r: (
        bool,
        usize,
    ))
        ensures
            final(self)@ == calls_after(env@, old(self)@, seq![tenant@, instance@, tool@], now),
            (r.0, r.1 as nat) == rate_verdict(
                env@,
                old(self)@,
                seq![tenant@, instance@, tool@],
                now,
            ),
    {
        let mode = Self::mode(env);
        if same(mode.as_str(), "off") {
            return (true, 0);
        }
        let window = Self::window(env);
        let budget = Self::budget(env);
        let key = key3(tenant, instance, tool);
        let ghost k = texts(key@);
        let ghost before_calls = self@;
        proof {
            lemma_calls_lookup(self.calls@, k);
        }
        if self.calls.len() > MAX_RATE_KEYS && self.calls.get(&key).is_none() {
            self.calls.clear();
            assert(calls_of(self.calls@) =~= Seq::<(Seq<Seq<char>>, Seq<u64>)>::empty());
        }
        proof {
            lemma_calls_lookup(self.calls@, k);
            assert(calls_of(self.calls@) == pruned(before_calls, k));
        }
        let mut kept: Vec<u64> = Vec::new();
        if let Some(times) = self.calls.get(&key) {
            let mut i: usize = 0;
            assert(times@.skip(0) =~= times@);
            while i < times.len() && is_older(times[i], now, window)
                invariant
                    i <= times@.len(),
                    recent(times@, now, window as nat) == recent(
                        times@.skip(i as int),
                        now,
                        window as nat,
                    ),
                decreases times@.len() - i,
            {
                let ghost rest = times@.skip(i as int);
                assert(rest[0] == times@[i as int]);
                assert(rest.drop_first() =~= times@.skip(i + 1));
                i = i + 1;
            }
            let ghost rest = times@.skip(i as int);
            proof {
                if i < times@.len() {
                    assert(rest[0] == times@[i as int]);
                }
            }
            assert(recent(rest, now, window as nat) == rest);
            while i < times.len()
                invariant
                    i <= times@.len(),
                    kept@ + times@.skip(i as int) == rest,
                decreases times@.len() - i,
            {
                assert(kept@.push(times@[i as int]) + times@.skip(i + 1) =~= kept@
                    + times@.skip(i as int));
                kept.push(times[i]);
                i = i + 1;
            }
            assert(kept@ =~= rest) by {
                assert(times@.skip(i as int) =~= Seq::<u64>::empty());
                assert(kept@ + Seq::<u64>::empty() =~= kept@);
            }
        } else {
            assert(kept@ =~= Seq::<u64>::empty());
        }
        kept.push(now);
        let n: usize = kept.len();
        assert(kept@ == calls_with(before_calls, k, now, window as nat));
        proof {
            lemma_calls_store(self.calls@, k, kept);
        }
        self.calls.set(key, kept);
        (!(same(mode.as_str(), "block") && n > budget), n)
    }

    /// The calls within the window, as a JSON array.
    pub fn snapshot(&self, env: &Env, now: u64) -> (r: Json)
        ensures
            r@ == JsonV::Arr(call_counts(self@, now, rate_window(env@))),
    {
        let window = Self::window(env);
        let mut out: Vec<Json> = Vec::new();
        let mut i: usize = 0;
        let n: usize = self.calls.len();
        let ghost all = self@;
        while i < n
            invariant
                i <= n,
                n == self.calls@.len(),
                all == calls_of(self.calls@),
                values(out@) == call_counts(all.take(i as int), now, window as nat),
            decreases n - i,
        {
            proof {
                assert(all.take(i + 1).drop_last() =~= all.take(i as int));
                assert(all.take(i + 1).last() == all[i as int]);
            }
            let times = self.calls.value_at(i);
            let mut c: u64 = 0;
            let mut j: usize = 0;
            while j < times.len()
                invariant
                    j <= times@.len(),
                    c <= j,
                    c == count_recent(times@.take(j as int), now, window as nat),
                decreases times@.len() - j,
            {
                assert(times@.take(j + 1).drop_last() =~= times@.take(j as int));
                if !is_older(times[j], now, window) {
                    c = c + 1;
                }
                j = j + 1;
            }
            assert(times@.take(j as int) =~= times@);
            if c > 0 {
                let key = self.calls.key_at(i);
                let mut o = Object::new();
                o.set("tenant", Json::str(key_part(key, 0).as_str()));
                o.set("instance", Json::str(key_part(key, 1).as_str()));
                o.set("tool", Json::str(key_part(key, 2).as_str()));
                o.set("count", Json::num(c));
                let ghost prev = values(out@);
                let v = Json::Object(o);
                proof {
                    lemma_values(out@);
                }
                out.push(v);
                proof {
                    lemma_values(out@);
                    assert(values(out@) =~= prev.push(v@));
                }
            }
            i = i + 1;
        }
        assert(all.take(i as int) =~= all);
        Json::Array(out)
    }
}

/// A part of a key, empty where there is none.
pub open spec fn part(key: Seq<Seq<char>>, i: int) -> Seq<char> {
    if i < key.len() {
        key[i]
    } else {
        Seq::empty()
    }
}

fn key_part(key: &Vec<String>, i: usize) -> (r: String)
    ensures
        r@ == part(texts(key@), i as int),
{
    if i < key.len() {
        key[i].clone()
    } else {
        let s = String::new();
        assert(s@ =~= Seq::<char>::empty());
        s
    }
}

/// The count of a key, as a JSON object.
pub open spec fn call_count(key: Seq<Seq<char>>, n: nat) -> JsonV {
    let o = put(no_members(), "tenant"@, JsonV::Str(part(key, 0)));
    let o = put(o, "instance"@, JsonV::Str(part(key, 1)));
    let o = put(o, "tool"@, JsonV::Str(part(key, 2)));
    JsonV::Obj(put(o, "count"@, JsonV::Num(NumV::Pos(n as u64))))
}

/// The counts of the keys that have calls within the window.
pub open spec fn call_counts(calls: Calls, now: u64, secs: nat) -> Seq<JsonV>
    decreases calls.len(),
{
    if calls.len() == 0 {
        Seq::empty()
    } else {
        let head = call_counts(calls.drop_last(), now, secs);
        let n = count_recent(calls.last().1, now, secs);
        if n > 0 {
            head.push(call_count(calls.last().0, n))
        } else {
            head
        }
    }
}

/// The warning that a call over the budget gives, once, in the mode `warn`.
pub open spec fn rate_alarm(
    env: Vars,
    tenant: Seq<char>,
    instance: Seq<char>,
    tool: Seq<char>,
    count: nat,
) -> Option<Seq<char>> {
    if rate_mode(env) == "warn"@ && count == rate_budget(env) + 1 {
        Some(
            "[sa-mcp] rate warn tenant="@ + tenant + " instance="@ + instance + " tool="@ + tool
                + " count="@ + dec(count),
        )
    } else {
        None
    }
}

/// The warning that a call over the budget gives, once, in the mode `warn`.
pub fn rate_warning(env: &Env, tenant: &str, instance: &str, tool: &str, count: usize) -> (r: Option<
    String,
>)
    ensures
        opt_text(r) == rate_alarm(env@, tenant@, instance@, tool@, count as nat),
{
    let mode = RateLimiter::mode(env);
    if same(mode.as_str(), "warn") && count > 0 && count - 1 == RateLimiter::budget(env) {
        let mut t = cat5("[sa-mcp] rate warn tenant=", tenant, " instance=", instance, " tool=");
        t.append(tool);
        t.append(" count=");
        t.append(dec_u64(count as u64).as_str());
        Some(t)
    } else {
        None
    }
}

/// A call of one tenant, system and tool leaves the counts of every other as they are,
/// as long as not too many keys are in use.
pub proof fn other_counts_stay(
    env: Vars,
    calls: Calls,
    key: Seq<Seq<char>>,
    other: Seq<Seq<char>>,
    now: u64,
)
    requires
        other != key,
        calls.len() <= MAX_RATE_KEYS,
    ensures
        lookup(calls_after(env, calls, key, now), other) == lookup(calls, other),
{
    lemma_store_lookup(calls, key, calls_with(calls, key, now, rate_window(env)), other);
}

/// In the mode `block`, no call is let through that has more than the budget of calls
/// in its window.
pub proof fn no_call_over_the_budget(env: Vars, calls: Calls, key: Seq<Seq<char>>, now: u64)
    requires
        rate_mode(env) == "block"@,
        rate_verdict(env, calls, key, now).0,
    ensures
        lookup(calls_after(env, calls, key, now), key) matches Some(times) && times.len()
            <= rate_budget(env),
{
    reveal_strlit("block");
    reveal_strlit("off");
    assert("block"@.len() == 5 && "off"@.len() == 3);
    lemma_store_lookup(
        pruned(calls, key),
        key,
        calls_with(calls, key, now, rate_window(env)),
        key,
    );
}

proof fn lemma_store_len(calls: Calls, key: Seq<Seq<char>>, times: Seq<u64>)
    ensures
        store(calls, key, times).len() == (if lookup(calls, key) is Some {
            calls.len()
        } else {
            calls.len() + 1
        }),
    decreases calls.len(),
{
    if calls.len() > 0 {
        lemma_store_len(calls.drop_first(), key, times);
    }
}

/// However many callers there are, the keys that calls are kept under stay bounded.
pub proof fn rate_keys_stay_bounded(env: Vars, calls: Calls, key: Seq<Seq<char>>, now: u64)
    requires
        calls.len() <= MAX_RATE_KEYS + 1,
    ensures
        calls_after(env, calls, key, now).len() <= MAX_RATE_KEYS + 1,
{
    lemma_store_len(
        pruned(calls, key),
        key,
        calls_with(calls, key, now, rate_window(env)),
    );
}

/// Calls in the order in which they were made, each with its tenant, system and tool, and
/// its moment. Those that were refused are among them.
pub type History = Seq<(Seq<Seq<char>>, u64)>;

/// What a limiter holds after a history of calls.
pub open spec fn replayed(env: Vars, h: History) -> Calls
    decreases h.len(),
{
    if h.len() == 0 {
        Seq::empty()
    } else {
        calls_after(env, replayed(env, h.drop_last()), h.last().0, h.last().1)
    }
}

/// The keys under which the calls of a history were made.
pub open spec fn callers(h: History) -> Set<Seq<Seq<char>>>
    decreases h.len(),
{
    if h.len() == 0 {
        Set::empty()
    } else {
        callers(h.drop_last()).insert(h.last().0)
    }
}

/// The moments of the calls of a history that were made under a key.
pub open spec fn moments_of(h: History, key: Seq<Seq<char>>) -> Seq<u64>
    decreases h.len(),
{
    if h.len() == 0 {
        Seq::empty()
    } else if h.last().0 == key {
        moments_of(h.drop_last(), key).push(h.last().1)
    } else {
        moments_of(h.drop_last(), key)
    }
}

/// Whether no call of a history comes before an earlier one.
pub open spec fn rising(h: History) -> bool {
    forall|i: int, j: int| 0 <= i <= j < h.len() ==> (#[trigger] h[i]).1 <= (#[trigger] h[j]).1
}

/// Whether moments rise up to now.
pub open spec fn rising_to(times: Seq<u64>, now: u64) -> bool {
    &&& forall|i: int, j: int| 0 <= i <= j < times.len() ==> #[trigger] times[i] <= #[trigger] times[j]
    &&& times.len() > 0 ==> times.last() <= now
}

proof fn lemma_recent_twice(t: Seq<u64>, earlier: u64, now: u64, secs: nat)
    requires
        earlier <= now,
    ensures
        recent(recent(t, earlier, secs), now, secs) == recent(t, now, secs),
    decreases t.len(),
{
    if t.len() > 0 && older(t[0], earlier, secs) {
        lemma_recent_twice(t.drop_first(), earlier, now, secs);
    }
}

proof fn lemma_recent_push(t: Seq<u64>, now: u64, secs: nat)
    ensures
        recent(t, now, secs).push(now) == recent(t.push(now), now, secs),
    decreases t.len(),
{
    let p = t.push(now);
    if t.len() == 0 {
        assert(t.push(now)[0] == now);
    } else if older(t[0], now, secs) {
        lemma_recent_push(t.drop_first(), now, secs);
        assert(p.drop_first() =~= t.drop_first().push(now));
    }
}

proof fn lemma_count_first(t: Seq<u64>, now: u64, secs: nat)
    requires
        t.len() > 0,
    ensures
        count_recent(t, now, secs) == (if older(t[0], now, secs) {
            0nat
        } else {
            1nat
        }) + count_recent(t.drop_first(), now, secs),
    decreases t.len(),
{
    if t.len() == 1 {
        assert(t.drop_last() =~= Seq::<u64>::empty());
        assert(t.drop_first() =~= Seq::<u64>::empty());
        assert(count_recent(t.drop_last(), now, secs) == 0);
    } else {
        lemma_count_first(t.drop_last(), now, secs);
        assert(t.drop_first().drop_last() =~= t.drop_last().drop_first());
    }
}

proof fn lemma_recent_count(t: Seq<u64>, now: u64, secs: nat)
    requires
        rising_to(t, now),
    ensures
        recent(t, now, secs).len() == count_recent(t, now, secs),
    decreases t.len(),
{
    if t.len() > 0 {
        let rest = t.drop_first();
        assert(rest.len() > 0 ==> rest.last() == t.last());
        assert(rising_to(rest, now)) by {
            assert forall|i: int, j: int| 0 <= i <= j < rest.len() implies #[trigger] rest[i] <= #[trigger] rest[j] by {
                assert(rest[i] == t[i + 1] && rest[j] == t[j + 1]);
            }
        }
        lemma_count_first(t, now, secs);
        lemma_recent_count(rest, now, secs);
        if !older(t[0], now, secs) && rest.len() > 0 {
            assert(rest[0] == t[1]);
            assert(t[0] <= t[1] && t[1] <= t[t.len() - 1]);
            assert(!older(rest[0], now, secs));
        }
    }
}

proof fn lemma_moments(h: History, key: Seq<Seq<char>>, now: u64)
    requires
        rising(h),
        h.len() > 0 ==> h.last().1 <= now,
    ensures
        rising_to(moments_of(h, key), now),
    decreases h.len(),
{
    if h.len() > 0 {
        let g = h.drop_last();
        let m = h.last().1;
        if g.len() > 0 {
            assert(g.last() == h[h.len() - 2]);
            assert(h[h.len() - 2].1 <= h[h.len() - 1].1);
        }
        assert(rising(g)) by {
            assert forall|i: int, j: int| 0 <= i <= j < g.len() implies (#[trigger] g[i]).1 <= (
            #[trigger] g[j]).1 by {
                assert(g[i] == h[i] && g[j] == h[j]);
            }
        }
        lemma_moments(g, key, m);
        let t = moments_of(g, key);
        if h.last().0 == key {
            let p = t.push(m);
            assert forall|i: int, j: int| 0 <= i <= j < p.len() implies #[trigger] p[i] <= #[trigger] p[j] by {
                if j < t.len() {
                    assert(t[i] <= t[j]);
                } else if i < t.len() {
                    assert(t[i] <= t[t.len() - 1]);
                }
            }
        }
    }
}

proof fn lemma_replayed(env: Vars, h: History, key: Seq<Seq<char>>)
    requires
        rate_mode(env) != "off"@,
        rising(h),
        callers(h).len() <= MAX_RATE_KEYS + 1,
    ensures
        callers(h).finite(),
        replayed(env, h).len() == callers(h).len(),
        callers(h).contains(key) == (moments_of(h, key).len() > 0),
        lookup(replayed(env, h), key) == (if moments_of(h, key).len() > 0 {
            Some(recent(moments_of(h, key), moments_of(h, key).last(), rate_window(env)))
        } else {
            None
        }),
    decreases h.len(),
{
    if h.len() > 0 {
        let g = h.drop_last();
        let (k, m) = h.last();
        let w = rate_window(env);
        assert(rising(g)) by {
            assert forall|i: int, j: int| 0 <= i <= j < g.len() implies (#[trigger] g[i]).1 <= (
            #[trigger] g[j]).1 by {
                assert(g[i] == h[i] && g[j] == h[j]);
            }
        }
        lemma_callers_finite(g);
        assert(callers(g).len() <= callers(h).len());
        lemma_replayed(env, g, key);
        lemma_replayed(env, g, k);
        let before = replayed(env, g);
        assert(pruned(before, k) == before);
        let t = moments_of(g, k);
        let all = calls_with(before, k, m, w);
        lemma_store_len(before, k, all);
        lemma_store_lookup(before, k, all, key);
        if t.len() > 0 {
            if g.len() > 0 {
                assert(g.last() == h[h.len() - 2]);
                assert(h[h.len() - 2].1 <= h[h.len() - 1].1);
            }
            lemma_moments(g, k, m);
            lemma_recent_twice(t, t.last(), m, w);
        }
        assert(all == recent(t, m, w).push(m));
        lemma_recent_push(t, m, w);
        assert(t.push(m).last() == m);
    }
}

proof fn lemma_callers_finite(h: History)
    ensures
        callers(h).finite(),
    decreases h.len(),
{
    if h.len() > 0 {
        lemma_callers_finite(h.drop_last());
    }
}

/// After any history of calls at rising moments, one more is judged by the calls of its
/// tenant, system and tool that were made at most the window ago: it is given their number,
/// itself and the refused ones among them, and it is refused in the mode `block` where they
/// are more than the budget. In the mode `off` nothing is counted. No more keys may be in
/// use than are kept.
pub proof fn verdicts_count_the_window(env: Vars, h: History, key: Seq<Seq<char>>, now: u64)
    requires
        rising(h),
        h.len() > 0 ==> h.last().1 <= now,
        callers(h).insert(key).len() <= MAX_RATE_KEYS + 1,
    ensures
        rate_mode(env) == "off"@ ==> rate_verdict(env, replayed(env, h), key, now) == (true, 0nat),
        rate_mode(env) != "off"@ ==> {
            let n = count_recent(moments_of(h, key).push(now), now, rate_window(env));
            rate_verdict(env, replayed(env, h), key, now) == (
                !(rate_mode(env) == "block"@ && n > rate_budget(env)),
                n,
            )
        },
{
    if rate_mode(env) != "off"@ {
        let w = rate_window(env);
        let t = moments_of(h, key);
        lemma_callers_finite(h);
        lemma_replayed(env, h, key);
        lemma_moments(h, key, now);
        let before = replayed(env, h);
        assert(pruned(before, key) == before);
        if t.len() > 0 {
            lemma_recent_twice(t, t.last(), now, w);
        }
        assert(calls_with(before, key, now, w) == recent(t, now, w).push(now));
        lemma_recent_count(t, now, w);
        assert(t.push(now).drop_last() =~= t);
    }
}

/// What others call does not matter: where two histories have the same calls under a key,
/// one more call under it is judged alike.
pub proof fn verdicts_ignore_other_callers(
    env: Vars,
    a: History,
    b: History,
    key: Seq<Seq<char>>,
    now: u64,
)
    requires
        rising(a),
        rising(b),
        a.len() > 0 ==> a.last().1 <= now,
        b.len() > 0 ==> b.last().1 <= now,
        callers(a).insert(key).len() <= MAX_RATE_KEYS + 1,
        callers(b).insert(key).len() <= MAX_RATE_KEYS + 1,
        moments_of(a, key) == moments_of(b, key),
    ensures
        rate_verdict(env, replayed(env, a), key, now) == rate_verdict(
            env,
            replayed(env, b),
            key,
            now,
        ),
{
    verdicts_count_the_window(env, a, key, now);
    verdicts_count_the_window(env, b, key, now);
}

/// Outside the mode `block` every call is let through.
pub proof fn only_block_blocks(env: Vars, calls: Calls, key: Seq<Seq<char>>, now: u64)
    requires
        rate_mode(env) != "block"@,
    ensures
        rate_verdict(env, calls, key, now).0,
{
}

/// A token in the header is the one that counts; in its place the first of the query string
/// that is named `token` or `access_token` and is not empty.
pub proof fn header_tokens_go_first(token: Seq<char>, query: Seq<char>)
    requires
        token.len() > 0,
        trimmed(token) == token,
    ensures
        bearer(Some("Bearer "@ + token), query) == Some(token),
        bearer(Some("bearer "@ + token), query) == Some(token),
{
    reveal_strlit("Bearer ");
    reveal_strlit("bearer ");
    let a = "Bearer "@ + token;
    let b = "bearer "@ + token;
    assert(a.take(7) =~= "Bearer "@);
    assert(a.skip(7) =~= token);
    assert(b.take(7) =~= "bearer "@);
    assert(b.skip(7) =~= token);
    assert(b.take(7)[0] != "Bearer "@[0]);
}

/// Without a token in the header, that of the query string counts, wherever it stands behind
/// parts that hold none.
pub proof fn query_tokens_are_found(before: Seq<Seq<char>>, name: Seq<char>, token: Seq<char>, after: Seq<Seq<char>>)
    requires
        name == "token"@ || name == "access_token"@,
        token.len() > 0,
        query_token(before) is None,
    ensures
        query_token(before + seq![name + seq!['='] + token] + after) == Some(token),
    decreases before.len(),
{
    let part = name + seq!['='] + token;
    let all = before + seq![part] + after;
    if before.len() == 0 {
        reveal_strlit("token");
        reveal_strlit("access_token");
        assert("token"@.len() == 5 && "access_token"@.len() == 12);
        assert forall|k: int| 0 <= k < name.len() implies part[k] != '=' by {
            assert(part[k] == name[k]);
        }
        crate::text::lemma_cut_at(part, '=', name.len() as int);
        assert(part.take(name.len() as int) =~= name);
        assert(part.skip(name.len() as int + 1) =~= token);
        assert(all[0] == part);
    } else {
        assert(all[0] == before[0]);
        assert(all.drop_first() =~= before.drop_first() + seq![part] + after);
        query_tokens_are_found(before.drop_first(), name, token, after);
    }
}

/// A query string without such a part holds no token, and neither does a request without
/// header and query.
pub proof fn other_parts_hold_no_token(pieces: Seq<Seq<char>>, query: Seq<char>)
    requires
        forall|i: int|
            0 <= i < pieces.len() ==> (cut(#[trigger] pieces[i], '=') matches Some(kv) ==> kv.0
                != "token"@ && kv.0 != "access_token"@),
    ensures
        query_token(pieces) is None,
        split(query, '&') == pieces ==> bearer(None, query) is None,
    decreases pieces.len(),
{
    if pieces.len() > 0 {
        let t = pieces.drop_first();
        assert(cut(pieces[0], '=') matches Some(kv) ==> kv.0 != "token"@ && kv.0
            != "access_token"@);
        assert forall|i: int| 0 <= i < t.len() implies (cut(#[trigger] t[i], '=') matches Some(kv)
            ==> kv.0 != "token"@ && kv.0 != "access_token"@) by {
            assert(t[i] == pieces[i + 1]);
        }
        other_parts_hold_no_token(t, query);
    }
}

/// Who a token stands for, where no system lists it: with authentication the administrator,
/// if it is theirs, and nobody else; without, whoever calls may use everything.
pub proof fn unlisted_tokens_stand_for_all_or_nobody(token: Seq<char>, m: Tokens, env: Vars)
    requires
        trimmed(token).len() > 0,
        forall|i: int| 0 <= i < m.len() ==> !(#[trigger] m[i]).1.contains(trimmed(token)),
    ensures
        find(env, "MCP_AUTH_TOKEN"@) == Some(trimmed(token)) ==> caller(Some(token), true, m, env)
            == Ok::<TenantV, Seq<char>>(TenantV::Full { id: "admin"@ }),
        find(env, "MCP_AUTH_TOKEN"@) != Some(trimmed(token)) ==> caller(Some(token), true, m, env)
            == Err::<TenantV, Seq<char>>("unknown token"@),
        caller(Some(token), false, m, env) matches Ok(TenantV::Full { .. }),
        caller(None, true, m, env) == Err::<TenantV, Seq<char>>("missing bearer token"@),
        caller(None, false, m, env) == Ok::<TenantV, Seq<char>>(TenantV::Full { id: "local"@ }),
{
    lemma_unlisted(m, trimmed(token));
}

proof fn lemma_unlisted(m: Tokens, token: Seq<char>)
    requires
        forall|i: int| 0 <= i < m.len() ==> !(#[trigger] m[i]).1.contains(token),
    ensures
        listed(m, token).len() == 0,
    decreases m.len(),
{
    if m.len() > 0 {
        let b = m.drop_last();
        assert(!m[m.len() - 1].1.contains(token));
        assert forall|i: int| 0 <= i < b.len() implies !(#[trigger] b[i]).1.contains(token) by {
            assert(b[i] == m[i]);
        }
        lemma_unlisted(b, token);
    }
}

/// Resources are read from the default system by whoever may use it; others read from the
/// first of theirs in order.
pub proof fn resources_come_from_home(t: TenantV, pool_default: Seq<char>, n: Seq<char>)
    ensures
        t.may_use(pool_default) ==> t.home(pool_default) == Some(pool_default),
        t matches TenantV::Restricted { instances, .. } ==> (!instances.contains(pool_default)
            && instances.contains(n) ==> (t.home(pool_default) matches Some(h) && instances.contains(
            h,
        ) && !lex_lt(n, h))),
        t matches TenantV::Restricted { instances, .. } ==> (instances.len() == 0 ==> t.home(
            pool_default,
        ) is None),
{
    if let TenantV::Restricted { instances, .. } = t {
        if !instances.contains(pool_default) && instances.contains(n) {
            lemma_least(instances, n);
            lemma_least_member(instances);
        }
    }
}

proof fn lemma_least(v: Seq<Seq<char>>, n: Seq<char>)
    requires
        v.contains(n),
    ensures
        least(v) matches Some(m) && !lex_lt(n, m),
    decreases v.len(),
{
    let b = v.drop_last();
    let i = choose|i: int| 0 <= i < v.len() && v[i] == n;
    crate::text::lemma_lex_irreflexive(n);
    if i < b.len() {
        assert(b[i] == n);
        lemma_least(b, n);
        let m = least(b)->0;
        if lex_lt(v.last(), m) && lex_lt(n, v.last()) {
            crate::text::lemma_lex_transitive(n, v.last(), m);
        }
    } else if let Some(m) = least(b) {
        if !lex_lt(v.last(), m) {
        }
    }
}

/// A warning is given once, when a call goes over the budget in the mode `warn`.
pub proof fn warnings_come_once(
    env: Vars,
    tenant: Seq<char>,
    instance: Seq<char>,
    tool: Seq<char>,
    count: nat,
)
    ensures
        rate_alarm(env, tenant, instance, tool, count) is Some <==> rate_mode(env) == "warn"@
            && count == rate_budget(env) + 1,
{
}

/// The limit is set by its variables; without them nothing is limited, within a minute, at 120
/// calls.
pub proof fn limits_are_set_by_their_variables(env: Vars, n: nat)
    ensures
        find(env, "SAP_MCP_RATE_LIMIT_MODE"@) == Some("block"@) ==> rate_mode(env) == "block"@,
        find(env, "SAP_MCP_RATE_LIMIT_MODE"@) is None ==> rate_mode(env) == "off"@,
        find(env, "SAP_MCP_RATE_LIMIT_WINDOW"@) == Some(crate::numeral::dec(n)) && n <= u64::MAX
            ==> rate_window(env) == n,
        find(env, "SAP_MCP_RATE_LIMIT_WINDOW"@) is None ==> rate_window(env) == 60,
        find(env, "SAP_MCP_RATE_LIMIT_MAX_CALLS"@) == Some(crate::numeral::dec(n)) && n
            <= usize::MAX ==> rate_budget(env) == n,
        find(env, "SAP_MCP_RATE_LIMIT_MAX_CALLS"@) is None ==> rate_budget(env) == 120,
{
    crate::numeral::naturals_are_read_back(n, u64::MAX as nat);
    crate::numeral::naturals_are_read_back(n, usize::MAX as nat);
    reveal_strlit("block");
    reveal_strlit("off");
    crate::text::lemma_lowercase_same("block"@);
    crate::text::lemma_lowercase_same("off"@);
}

/// The counts that are shown are those of the keys with calls within the window.
pub proof fn shown_counts_are_those_of_the_window(
    a: Calls,
    b: Calls,
    key: Seq<Seq<char>>,
    times: Seq<u64>,
    now: u64,
    secs: nat,
)
    requires
        key.len() == 3,
    ensures
        call_counts(a + b, now, secs) == call_counts(a, now, secs) + call_counts(b, now, secs),
        count_recent(times, now, secs) == 0 ==> call_counts(seq![(key, times)], now, secs).len()
            == 0,
        count_recent(times, now, secs) > 0 ==> call_counts(seq![(key, times)], now, secs).len() == 1
            && call_counts(seq![(key, times)], now, secs)[0].get("tenant"@) == Some(
            JsonV::Str(key[0]),
        ) && call_counts(seq![(key, times)], now, secs)[0].get("instance"@) == Some(
            JsonV::Str(key[1]),
        ) && call_counts(seq![(key, times)], now, secs)[0].get("tool"@) == Some(JsonV::Str(key[2]))
            && call_counts(seq![(key, times)], now, secs)[0].get("count"@) == Some(
            JsonV::Num(NumV::Pos(count_recent(times, now, secs) as u64)),
        ),
    decreases b.len(),
{
    broadcast use crate::strmap::put_is_found;

    lemma_count_names();
    let one = seq![(key, times)];
    assert(one.drop_last() =~= Seq::<(Seq<Seq<char>>, Seq<u64>)>::empty());
    assert(call_counts(one.drop_last(), now, secs) =~= Seq::<JsonV>::empty());
    if b.len() == 0 {
        assert(a + b =~= a);
        assert(call_counts(a, now, secs) + call_counts(b, now, secs) =~= call_counts(a, now, secs));
    } else {
        shown_counts_are_those_of_the_window(a, b.drop_last(), key, times, now, secs);
        assert((a + b).drop_last() =~= a + b.drop_last());
        assert(call_counts(a + b, now, secs) =~= call_counts(a, now, secs) + call_counts(
            b,
            now,
            secs,
        ));
    }
}

proof fn lemma_count_names()
    ensures
        "tenant"@ != "instance"@,
        "tenant"@ != "tool"@,
        "tenant"@ != "count"@,
        "instance"@ != "tool"@,
        "instance"@ != "count"@,
        "tool"@ != "count"@,
{
    reveal_strlit("tenant");
    reveal_strlit("instance");
    reveal_strlit("tool");
    reveal_strlit("count");
    assert("tenant"@.len() == 6);
    assert("instance"@.len() == 8);
    assert("tool"@.len() == 4);
    assert("count"@.len() == 5);
}

/// The moments that count are those not longer ago than the window, each once.
pub proof fn recent_moments_are_counted_each(a: Seq<u64>, b: Seq<u64>, m: u64, now: u64, secs: nat)
    ensures
        count_recent(a + b, now, secs) == count_recent(a, now, secs) + count_recent(b, now, secs),
        m <= now && now - m <= secs * 1_000_000_000 ==> count_recent(seq![m], now, secs) == 1,
        m <= now && now - m > secs * 1_000_000_000 ==> count_recent(seq![m], now, secs) == 0,
    decreases b.len(),
{
    assert(seq![m].drop_last() =~= Seq::<u64>::empty());
    assert(count_recent(Seq::<u64>::empty(), now, secs) == 0);
    if b.len() == 0 {
        assert(a + b =~= a);
    } else {
        recent_moments_are_counted_each(a, b.drop_last(), m, now, secs);
        assert((a + b).drop_last() =~= a + b.drop_last());
    }
}

/// A caller who is known by a token goes by its fingerprint, never by the token.
pub proof fn labels_are_fingerprints(token: Seq<char>, m: Tokens, env: Vars)
    requires
        trimmed(token).len() > 0,
    ensures
        caller(Some(token), false, m, env) matches Ok(t) && t.label() == "t-"@ + fingerprint_of(
            trimmed(token),
            12,
        ),
{
}

} // verus!
