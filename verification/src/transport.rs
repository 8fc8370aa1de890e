//! The ways in which requests come in: who may connect, which sessions there are, and how
//! messages are framed.

use vstd::prelude::*;
use vstd::string::*;
use crate::config::{env_flag, flag, opt_slice, writes_enabled, Env, Vars};
use crate::field_acl::policy_status;
use crate::handler::{Handler, HandlerV};
use crate::json::{json_parse, json_text, lemma_values, no_members, values, Json, JsonV, Number, NumV, Object};
use crate::numeral::{dec, dec_u64};
use crate::pool::described;
use crate::strmap::{each, find, lemma_each_find, lemma_each_put, lemma_each_without, lemma_put_find, lemma_put_len, lemma_put_members, lemma_without_find, lemma_without_members, put, without, StrMap};
use crate::tenant::{bearer, bearer_from, call_counts, caller, elapsed, rate_window, resolve_tenant, tokens_of, Tenant, TenantV, Tokens};
use crate::text::{after_prefix, cat2, cat3, chars_of, contains_char, contains_text, cut, cut_at_char, has_part, lemma_cut_at, lower, lowercase, opt_text, same, split, split_at_char, strip_prefix, text_of, texts, trim, trimmed};

verus! {

/// A text without brackets at its start.
pub open spec fn unbracketed_start(s: Seq<char>) -> Seq<char>
    decreases s.len(),
{
    if s.len() > 0 && (s[0] == '[' || s[0] == ']') {
        unbracketed_start(s.drop_first())
    } else {
        s
    }
}

/// A text without brackets at its end.
pub open spec fn unbracketed_end(s: Seq<char>) -> Seq<char>
    decreases s.len(),
{
    if s.len() > 0 && (s.last() == '[' || s.last() == ']') {
        unbracketed_end(s.drop_last())
    } else {
        s
    }
}

/// Whether a text has the form of a host of the sixth version of the protocol: it has more
/// than one colon.
pub open spec fn has_groups(host: Seq<char>) -> bool {
    match cut(host, ':') {
        Some((_, rest)) => rest.contains(':'),
        None => false,
    }
}

/// Whether a text is empty, or a colon and a port.
pub open spec fn port_or_nothing(s: Seq<char>) -> bool {
    s.len() == 0 || (s[0] == ':' && !s.drop_first().contains(':'))
}

/// The host of the sixth version of the protocol that stands between brackets, alone or
/// before a port.
pub open spec fn bracketed(listen: Seq<char>) -> Option<Seq<char>> {
    match after_prefix(listen, "["@) {
        Some(rest) => match cut(rest, ']') {
            Some((host, end)) => if has_groups(host) && port_or_nothing(end) {
                Some(host)
            } else {
                None
            },
            None => None,
        },
        None => None,
    }
}

fn bracketed_host(listen: &str) -> (r: Option<String>)
    ensures
        opt_text(r) == bracketed(listen@),
{
    let rest = strip_prefix(listen, "[")?;
    let (host, end) = cut_at_char(rest.as_str(), ']')?;
    let groups = match cut_at_char(host.as_str(), ':') {
        Some((_, more)) => contains_char(more.as_str(), ':'),
        None => false,
    };
    if groups && is_port_or_nothing(end.as_str()) {
        Some(host)
    } else {
        None
    }
}

fn is_port_or_nothing(s: &str) -> (r: bool)
    ensures
        r == port_or_nothing(s@),
{
    let v = chars_of(s);
    let n: usize = v.len();
    if n == 0 {
        return true;
    }
    if v[0] != ':' {
        return false;
    }
    let port = text_of(&v, 1, n);
    assert(port@ =~= s@.drop_first());
    !contains_char(port.as_str(), ':')
}

/// The host of an address to listen on: a host of the sixth version of the protocol between
/// brackets; otherwise what stands before the last colon, up to the one before it, without
/// brackets around it; or the address itself where it has no colon.
pub open spec fn listen_host(listen: Seq<char>) -> Seq<char> {
    match bracketed(listen) {
        Some(host) => host,
        None => {
            let p = split(listen, ':');
            unbracketed_end(
                unbracketed_start(
                    if p.len() >= 2 {
                        p[p.len() - 2]
                    } else {
                        listen
                    },
                ),
            )
        },
    }
}

fn host_to_listen_on(listen: &str) -> (r: String)
    ensures
        r@ == listen_host(listen@),
{
    if let Some(host) = bracketed_host(listen) {
        return host;
    }
    let pieces = split_at_char(listen, ':');
    assert(texts(pieces@).len() == pieces@.len());
    let n: usize = pieces.len();
    if n >= 2 {
        strip_brackets(pieces[n - 2].as_str())
    } else {
        strip_brackets(listen)
    }
}

fn strip_brackets(s: &str) -> (r: String)
    ensures
        r@ == unbracketed_end(unbracketed_start(s@)),
{
    let v = chars_of(s);
    let n: usize = v.len();
    let mut i: usize = 0;
    assert(s@.skip(0) =~= s@);
    while i < n && (v[i] == '[' || v[i] == ']')
        invariant
            i <= n,
            n == v@.len(),
            v@ == s@,
            unbracketed_start(s@) == unbracketed_start(s@.skip(i as int)),
        decreases n - i,
    {
        assert(s@.skip(i as int)[0] == s@[i as int]);
        assert(s@.skip(i as int).drop_first() =~= s@.skip(i + 1));
        i = i + 1;
    }
    let ghost t = s@.skip(i as int);
    proof {
        if i < n {
            assert(t[0] == s@[i as int]);
        }
    }
    assert(unbracketed_start(s@) == t);
    let mut j: usize = n;
    assert(t.take(n - i) =~= t);
    while j > i && (v[j - 1] == '[' || v[j - 1] == ']')
        invariant
            i <= j <= n,
            n == v@.len(),
            v@ == s@,
            t == s@.skip(i as int),
            unbracketed_end(t) == unbracketed_end(t.take(j - i)),
        decreases j,
    {
        assert(t.take(j - i).last() == s@[j - 1]);
        assert(t.take(j - i).drop_last() =~= t.take(j - i - 1));
        j = j - 1;
    }
    proof {
        if j > i {
            assert(t.take(j - i).last() == s@[j - 1]);
        }
    }
    let r = text_of(&v, i, j);
    assert(r@ =~= t.take(j - i));
    r
}

/// Whether a text holds nothing but zeros.
pub open spec fn zeros(s: Seq<char>) -> bool {
    forall|i: int| 0 <= i < s.len() ==> #[trigger] s[i] == '0'
}

fn is_zeros(s: &str) -> (r: bool)
    ensures
        r == zeros(s@),
{
    let v = chars_of(s);
    let mut i: usize = 0;
    while i < v.len()
        invariant
            i <= v@.len(),
            v@ == s@,
            forall|k: int| 0 <= k < i ==> #[trigger] s@[k] == '0',
        decreases v@.len() - i,
    {
        if v[i] != '0' {
            assert(s@[i as int] != '0');
            return false;
        }
        i = i + 1;
    }
    true
}

/// Whether a host is the loopback address of the fourth version of the protocol, mapped into
/// the sixth: groups of zeros, or none, then `ffff` and the address.
pub open spec fn mapped_loopback(host: Seq<char>) -> bool {
    let p = split(host, ':');
    &&& p.len() >= 2
    &&& p[p.len() - 1] == "127.0.0.1"@
    &&& lowercase(p[p.len() - 2]) == "ffff"@
    &&& forall|i: int| 0 <= i < p.len() - 2 ==> zeros(#[trigger] p[i])
}

fn is_mapped_loopback(host: &str) -> (r: bool)
    ensures
        r == mapped_loopback(host@),
{
    let pieces = split_at_char(host, ':');
    let ghost p = texts(pieces@);
    let n: usize = pieces.len();
    assert(p.len() == n);
    if n < 2 || !same(pieces[n - 1].as_str(), "127.0.0.1") || !same(
        lower(pieces[n - 2].as_str()).as_str(),
        "ffff",
    ) {
        return false;
    }
    let mut i: usize = 0;
    while i < n - 2
        invariant
            2 <= n == pieces@.len(),
            i <= n - 2,
            p == texts(pieces@),
            p == split(host@, ':'),
            forall|k: int| 0 <= k < i ==> zeros(#[trigger] p[k]),
        decreases n - i,
    {
        if !is_zeros(pieces[i].as_str()) {
            assert(!zeros(p[i as int]));
            return false;
        }
        i = i + 1;
    }
    true
}

/// Whether a host is this machine.
pub open spec fn local_host(host: Seq<char>) -> bool {
    host == "127.0.0.1"@ || host == "localhost"@ || host == "::1"@ || mapped_loopback(host)
}

/// Refuses to listen on an address that is not local, unless the server was told that it
/// may.
pub fn require_local_or_opt_in(env: &Env, listen: &str) -> (r: Result<(), String>)
    ensures
        r is Ok == (local_host(listen_host(listen@)) || flag(env@, "MCP_ALLOW_REMOTE_HTTP"@)),
        r matches Err(e) ==> e@ == "refusing non-local bind '"@ + listen@
            + "': set MCP_ALLOW_REMOTE_HTTP=1 (and put TLS + auth in front)"@,
{
    let host = host_to_listen_on(listen);
    let h: &str = host.as_str();
    let local = same(h, "127.0.0.1") || same(h, "localhost") || same(h, "::1")
        || is_mapped_loopback(h);
    if !local && !env_flag(env, "MCP_ALLOW_REMOTE_HTTP") {
        return Err(
            cat3(
                "refusing non-local bind '",
                listen,
                "': set MCP_ALLOW_REMOTE_HTTP=1 (and put TLS + auth in front)",
            ),
        );
    }
    Ok(())
}

/// A host of the sixth version of the protocol that stands between brackets is taken whole,
/// whatever the port: so its loopback address is local, and so is that of the fourth when it
/// is mapped into the sixth.
pub proof fn bracketed_hosts_are_taken_whole(host: Seq<char>, rest: Seq<char>)
    requires
        !host.contains(']'),
        has_groups(host),
        port_or_nothing(rest),
    ensures
        listen_host(seq!['['] + host + seq![']'] + rest) == host,
        local_host(listen_host(seq!['['] + "::1"@ + seq![']'] + rest)),
        mapped_loopback(host) ==> local_host(listen_host(seq!['['] + host + seq![']'] + rest)),
{
    lemma_bracketed(host, rest);
    reveal_strlit("::1");
    assert("::1"@.len() == 3);
    assert(!"::1"@.contains(']'));
    lemma_cut_at("::1"@, ':', 0);
    assert("::1"@.skip(1)[0] == ':');
    lemma_bracketed("::1"@, rest);
}

proof fn lemma_bracketed(host: Seq<char>, rest: Seq<char>)
    requires
        !host.contains(']'),
        has_groups(host),
        port_or_nothing(rest),
    ensures
        listen_host(seq!['['] + host + seq![']'] + rest) == host,
{
    let t = seq!['['] + host + seq![']'] + rest;
    let u = t.skip(1);
    reveal_strlit("[");
    assert("["@ =~= seq!['[']);
    assert(t.take(1) =~= "["@);
    assert(u =~= host + seq![']'] + rest);
    assert forall|k: int| 0 <= k < host.len() implies u[k] != ']' by {
        assert(u[k] == host[k]);
    }
    lemma_cut_at(u, ']', host.len() as int);
    assert(u.take(host.len() as int) =~= host);
    assert(u.skip(host.len() as int + 1) =~= rest);
}

/// Whether callers have to show a token.
pub fn auth_enabled(env: &Env) -> (r: bool)
    ensures
        r == flag(env@, "MCP_AUTH_ENABLED"@),
{
    env_flag(env, "MCP_AUTH_ENABLED")
}

/// Whether an entry of a list lets an origin in: it is a star, or is not blank and stands in
/// the origin.
pub open spec fn lets_in(piece: Seq<char>, origin: Seq<char>) -> bool {
    trimmed(piece) == "*"@ || (trimmed(piece).len() > 0 && has_part(origin, trimmed(piece)))
}

/// Whether one of the entries of a list lets an origin in.
pub open spec fn origin_listed(pieces: Seq<Seq<char>>, origin: Seq<char>) -> bool {
    exists|i: int| 0 <= i < pieces.len() && lets_in(#[trigger] pieces[i], origin)
}

/// A list whose entries are all blank lets nobody in.
pub proof fn blank_entries_let_nobody_in(pieces: Seq<Seq<char>>, origin: Seq<char>)
    requires
        forall|i: int| 0 <= i < pieces.len() ==> trimmed(#[trigger] pieces[i]).len() == 0,
    ensures
        !origin_listed(pieces, origin),
{
    reveal_strlit("*");
    assert("*"@.len() == 1);
}

/// Whether requests from an origin are let in. Without a list all are. With one, requests
/// without an origin are, local ones are, and those that the list names.
pub open spec fn origin_allowed(env: Vars, origin: Option<Seq<char>>) -> bool {
    match find(env, "MCP_ALLOWED_ORIGINS"@) {
        None => true,
        Some(list) => {
            let o = match origin {
                Some(x) => x,
                None => ""@,
            };
            ||| trimmed(list).len() == 0
            ||| o.len() == 0
            ||| has_part(o, "localhost"@)
            ||| has_part(o, "127.0.0.1"@)
            ||| has_part(o, "[::1]"@)
            ||| origin_listed(split(list, ','), o)
        },
    }
}

/// Whether requests from an origin are let in.
pub fn check_origin(env: &Env, origin: Option<&str>) -> (r: bool)
    ensures
        r == origin_allowed(env@, opt_slice(origin)),
{
    let list: &str = match env.var("MCP_ALLOWED_ORIGINS") {
        Some(v) => v,
        None => {
            return true;
        },
    };
    if trim(list).as_str().is_empty() {
        return true;
    }
    let o: &str = match origin {
        Some(x) => x,
        None => "",
    };
    if o.is_empty() {
        return true;
    }
    if contains_text(o, "localhost") || contains_text(o, "127.0.0.1") || contains_text(o, "[::1]") {
        return true;
    }
    let pieces = split_at_char(list, ',');
    let ghost all = texts(pieces@);
    let mut i: usize = 0;
    while i < pieces.len()
        invariant
            i <= pieces@.len(),
            all == texts(pieces@),
            all == split(list@, ','),
            find(env@, "MCP_ALLOWED_ORIGINS"@) == Some(list@),
            o@ == (match opt_slice(origin) {
                Some(x) => x,
                None => ""@,
            }),
            forall|k: int| 0 <= k < i ==> !lets_in(#[trigger] all[k], o@),
        decreases pieces@.len() - i,
    {
        let a = trim(pieces[i].as_str());
        assert(a@ == trimmed(all[i as int]));
        if same(a.as_str(), "*") || (!a.as_str().is_empty() && contains_text(o, a.as_str())) {
            assert(lets_in(all[i as int], o@));
            return true;
        }
        i = i + 1;
    }
    false
}

/// A session: the version of the protocol, when it began, and whose it is.
pub struct Session {
    pub version: String,
    pub created: u64,
    pub tenant: Tenant,
}

/// A session.
pub struct SessionV {
    pub version: Seq<char>,
    pub created: u64,
    pub tenant: TenantV,
}

/// The sessions, by identifier.
pub type Sessions = Seq<(Seq<char>, SessionV)>;

impl Session {
    /// What the session is.
    pub open spec fn view(&self) -> SessionV {
        SessionV { version: self.version@, created: self.created, tenant: self.tenant@ }
    }
}

/// For how long a session lasts, in nanoseconds: a day.
pub const SESSION_TTL: u64 = 86_400_000_000_000;

/// How many sessions there may be.
pub const MAX_SESSIONS: usize = 2048;

/// For how long a session lasts when there are too many, in nanoseconds: an hour.
pub const CROWDED_TTL: u64 = 3_600_000_000_000;

/// The sessions that are younger than a bound.
pub open spec fn younger(s: Sessions, now: u64, bound: int) -> Sessions
    decreases s.len(),
{
    if s.len() == 0 {
        s
    } else if elapsed(s[0].1.created, now) < bound {
        seq![s[0]] + younger(s.drop_first(), now, bound)
    } else {
        younger(s.drop_first(), now, bound)
    }
}

/// Where the oldest session stands: the first of those that began first.
pub open spec fn oldest(s: Sessions) -> int
    decreases s.len(),
{
    if s.len() <= 1 {
        0
    } else {
        let k = oldest(s.drop_last());
        if s.last().1.created < s[k].1.created {
            s.len() - 1
        } else {
            k
        }
    }
}

/// Sessions of which there are at most `n`: the oldest go until there are no more.
pub open spec fn newest(s: Sessions, n: nat) -> Sessions
    decreases s.len(),
{
    if s.len() <= n {
        s
    } else {
        proof {
            lemma_oldest(s);
        }
        newest(s.remove(oldest(s)), n)
    }
}

/// No session began before the oldest.
pub proof fn lemma_oldest(s: Sessions)
    requires
        s.len() > 0,
    ensures
        0 <= oldest(s) < s.len(),
        forall|i: int|
            0 <= i < s.len() ==> s[oldest(s)].1.created <= (#[trigger] s[i]).1.created,
    decreases s.len(),
{
    if s.len() > 1 {
        let t = s.drop_last();
        lemma_oldest(t);
        assert forall|i: int| 0 <= i < s.len() implies s[oldest(s)].1.created <= (
        #[trigger] s[i]).1.created by {
            if i < t.len() {
                assert(t[i] == s[i]);
            }
        }
    }
}

proof fn lemma_newest(s: Sessions, n: nat)
    ensures
        newest(s, n).len() <= n,
        forall|i: int|
            0 <= i < newest(s, n).len() ==> s.contains(#[trigger] newest(s, n)[i]),
    decreases s.len(),
{
    if s.len() > n {
        lemma_oldest(s);
        let k = oldest(s);
        let t = s.remove(k);
        lemma_newest(t, n);
        assert forall|i: int| 0 <= i < newest(s, n).len() implies s.contains(
            #[trigger] newest(s, n)[i],
        ) by {
            let m = choose|m: int| 0 <= m < t.len() && t[m] == newest(t, n)[i];
            assert(s[if m < k {
                m
            } else {
                m + 1
            }] == t[m]);
        }
    } else {
        assert forall|i: int| 0 <= i < s.len() implies s.contains(#[trigger] s[i]) by {}
    }
}

/// Where sessions have to go for want of room, the oldest do: none that goes began after
/// one that stays.
pub proof fn the_oldest_make_room(s: Sessions, n: nat, i: int, j: int)
    requires
        0 <= i < s.len(),
        !newest(s, n).contains(s[i]),
        0 <= j < newest(s, n).len(),
    ensures
        s[i].1.created <= newest(s, n)[j].1.created,
    decreases s.len(),
{
    if s.len() > n {
        lemma_oldest(s);
        let k = oldest(s);
        let t = s.remove(k);
        if i == k {
            lemma_newest(s, n);
            let m = choose|m: int| 0 <= m < s.len() && s[m] == newest(s, n)[j];
            assert(s[k].1.created <= s[m].1.created);
        } else {
            let m = if i < k {
                i
            } else {
                i - 1
            };
            assert(t[m] == s[i]);
            the_oldest_make_room(t, n, m, j);
        }
    } else {
        assert(s.contains(s[i]));
    }
}

/// The sessions that last on when a new one begins: those younger than a day; where there
/// are still too many, those of the last hour; and of the others among these, the newest for
/// which there is room beside the new one.
pub open spec fn lasting(s: Sessions, id: Seq<char>, now: u64) -> Sessions {
    let a = younger(s, now, SESSION_TTL as int);
    if a.len() >= MAX_SESSIONS {
        newest(without(younger(a, now, CROWDED_TTL + 1), id), (MAX_SESSIONS - 1) as nat)
    } else {
        a
    }
}

/// The sessions after a new one began.
pub open spec fn session_opened(s: Sessions, id: Seq<char>, v: SessionV) -> Sessions {
    put(lasting(s, id, v.created), id, v)
}

/// The identifiers that have a channel for events.
pub type Channels = Seq<(Seq<char>, ())>;

/// The tenants of connections that have a channel only.
pub type Bindings = Seq<(Seq<char>, TenantV)>;

/// Whether a channel is that of a session, or bound to a caller.
pub open spec fn owned(id: Seq<char>, s: Sessions, b: Bindings) -> bool {
    find(s, id) is Some || find(b, id) is Some
}

/// The channels that are those of a session or bound to a caller.
pub open spec fn attended(c: Channels, s: Sessions, b: Bindings) -> Channels
    decreases c.len(),
{
    if c.len() == 0 {
        c
    } else if owned(c[0].0, s, b) {
        seq![c[0]] + attended(c.drop_first(), s, b)
    } else {
        attended(c.drop_first(), s, b)
    }
}

/// The sessions, the channels for events, and whose the channels without a session are.
pub struct Hub {
    sessions: StrMap<Session>,
    channels: StrMap<()>,
    bindings: StrMap<Tenant>,
}

/// The sessions, the channels for events, and whose the channels without a session are.
#[verifier::ext_equal]
pub struct HubV {
    pub sessions: Sessions,
    pub channels: Channels,
    pub bindings: Bindings,
}

/// What sessions are.
pub open spec fn sessions_of(m: Seq<(Seq<char>, Session)>) -> Sessions {
    each(m, |s: Session| s@)
}

/// What bindings are.
pub open spec fn bindings_of(m: Seq<(Seq<char>, Tenant)>) -> Bindings {
    each(m, |t: Tenant| t@)
}

/// The hub after a session began. A channel whose session is gone is dropped, unless it is
/// bound to a caller, and one for the session is opened.
pub open spec fn hub_opened(h: HubV, id: Seq<char>, v: SessionV) -> HubV {
    let s = session_opened(h.sessions, id, v);
    HubV { sessions: s, channels: put(attended(h.channels, s, h.bindings), id, ()), ..h }
}

/// The hub after a channel without a session was opened.
pub open spec fn hub_attached(h: HubV, id: Seq<char>, t: TenantV) -> HubV {
    HubV { channels: put(h.channels, id, ()), bindings: put(h.bindings, id, t), ..h }
}

/// The hub after everything under an identifier was closed.
pub open spec fn hub_closed(h: HubV, id: Seq<char>) -> HubV {
    HubV {
        sessions: without(h.sessions, id),
        channels: without(h.channels, id),
        bindings: without(h.bindings, id),
    }
}

impl Hub {
    /// What the hub holds.
    pub closed spec fn view(&self) -> HubV {
        HubV {
            sessions: sessions_of(self.sessions@),
            channels: self.channels@,
            bindings: bindings_of(self.bindings@),
        }
    }

    /// An empty hub.
    pub fn new() -> (r: Hub)
        ensures
            (r@ == HubV {
                sessions: Seq::empty(),
                channels: Seq::empty(),
                bindings: Seq::empty(),
            }),
    {
        let r = Hub { sessions: StrMap::new(), channels: StrMap::new(), bindings: StrMap::new() };
        assert(r@.sessions =~= Seq::<(Seq<char>, SessionV)>::empty());
        assert(r@.bindings =~= Seq::<(Seq<char>, TenantV)>::empty());
        r
    }

    fn drop_older(&mut self, now: u64, bound: u64)
        ensures
            (final(self)@ == HubV {
                sessions: younger(old(self)@.sessions, now, bound as int),
                ..old(self)@
            }),
    {
        let ghost start = self@.sessions;
        let ghost b = bound as int;
        let mut i: usize = 0;
        assert(start.take(0) + younger(start.skip(0), now, b) =~= younger(start, now, b)) by {
            assert(start.skip(0) =~= start);
        }
        while i < self.sessions.len()
            invariant
                b == bound as int,
                i <= self.sessions@.len(),
                self@.sessions.take(i as int) + younger(self@.sessions.skip(i as int), now, b)
                    == younger(start, now, b),
                self@.channels == old(self)@.channels,
                self@.bindings == old(self)@.bindings,
            decreases self.sessions@.len() - i,
        {
            let ghost m = self@.sessions;
            let ghost rest = m.skip(i as int);
            assert(rest[0] == m[i as int]);
            assert(rest.drop_first() =~= m.skip(i + 1));
            let at = self.sessions.value_at(i).created;
            let e: u64 = if now >= at {
                now - at
            } else {
                0
            };
            if e < bound {
                assert(m.take(i as int) + (seq![m[i as int]] + younger(m.skip(i + 1), now, b))
                    =~= m.take(i + 1) + younger(m.skip(i + 1), now, b));
                i = i + 1;
            } else {
                self.sessions.remove_at(i);
                assert(self@.sessions =~= m.remove(i as int));
                assert(self@.sessions.take(i as int) =~= m.take(i as int));
                assert(self@.sessions.skip(i as int) =~= m.skip(i + 1));
            }
        }
        let ghost none = Seq::<(Seq<char>, SessionV)>::empty();
        assert(self@.sessions.take(i as int) =~= self@.sessions);
        assert(self@.sessions.skip(i as int) =~= none);
        assert(younger(self@.sessions.skip(i as int), now, b) =~= none);
        assert(self@.sessions + none =~= self@.sessions);
    }

    fn drop_orphans(&mut self)
        ensures
            (final(self)@ == HubV {
                channels: attended(
                    old(self)@.channels,
                    old(self)@.sessions,
                    old(self)@.bindings,
                ),
                ..old(self)@
            }),
    {
        let ghost start = self@.channels;
        let ghost s = self@.sessions;
        let ghost b = self@.bindings;
        let mut i: usize = 0;
        assert(start.take(0) + attended(start.skip(0), s, b) =~= attended(start, s, b)) by {
            assert(start.skip(0) =~= start);
        }
        while i < self.channels.len()
            invariant
                i <= self.channels@.len(),
                self@.sessions == s,
                self@.bindings == b,
                s == sessions_of(self.sessions@),
                b == bindings_of(self.bindings@),
                self@.channels == self.channels@,
                self@.channels.take(i as int) + attended(self@.channels.skip(i as int), s, b)
                    == attended(start, s, b),
                self@.sessions == old(self)@.sessions,
                self@.bindings == old(self)@.bindings,
            decreases self.channels@.len() - i,
        {
            let ghost m = self@.channels;
            let ghost rest = m.skip(i as int);
            assert(rest[0] == m[i as int]);
            assert(rest.drop_first() =~= m.skip(i + 1));
            proof {
                lemma_each_find(self.sessions@, |s: Session| s@, m[i as int].0);
                lemma_each_find(self.bindings@, |t: Tenant| t@, m[i as int].0);
            }
            let id = self.channels.key_at(i).as_str();
            if self.sessions.has(id) || self.bindings.has(id) {
                assert(m.take(i as int) + (seq![m[i as int]] + attended(m.skip(i + 1), s, b))
                    =~= m.take(i + 1) + attended(m.skip(i + 1), s, b));
                i = i + 1;
            } else {
                self.channels.remove_at(i);
                assert(self@.channels.take(i as int) =~= m.take(i as int));
                assert(self@.channels.skip(i as int) =~= m.skip(i + 1));
            }
        }
        let ghost none = Seq::<(Seq<char>, ())>::empty();
        assert(self@.channels.take(i as int) =~= self@.channels);
        assert(self@.channels.skip(i as int) =~= none);
        assert(attended(self@.channels.skip(i as int), s, b) =~= none);
        assert(self@.channels + none =~= self@.channels);
    }

    /// Drops the oldest sessions until there are at most `n`.
    fn make_room(&mut self, n: usize)
        ensures
            (final(self)@ == HubV { sessions: newest(old(self)@.sessions, n as nat), ..old(self)@ }),
    {
        let ghost start = self@.sessions;
        while self.sessions.len() > n
            invariant
                newest(self@.sessions, n as nat) == newest(start, n as nat),
                self@.channels == old(self)@.channels,
                self@.bindings == old(self)@.bindings,
            decreases self.sessions@.len(),
        {
            let ghost m = self@.sessions;
            let mut k: usize = 0;
            let mut i: usize = 1;
            while i < self.sessions.len()
                invariant
                    m == sessions_of(self.sessions@),
                    1 <= i <= m.len(),
                    0 <= k < i,
                    k == oldest(m.take(i as int)),
                decreases m.len() - i,
            {
                assert(m.take(i + 1).drop_last() =~= m.take(i as int));
                if self.sessions.value_at(i).created < self.sessions.value_at(k).created {
                    k = i;
                }
                i = i + 1;
            }
            assert(m.take(i as int) =~= m);
            self.sessions.remove_at(k);
            assert(self@.sessions =~= m.remove(k as int));
        }
    }

    /// A session begins, bound to a caller. There are never too many.
    pub fn insert_session(&mut self, id: &str, version: &str, tenant: Tenant, now: u64)
        ensures
            (final(self)@ == hub_opened(
                old(self)@,
                id@,
                SessionV { version: version@, created: now, tenant: tenant@ },
            )),
            final(self)@.sessions.len() <= MAX_SESSIONS,
    {
        proof {
            let v = SessionV { version: version@, created: now, tenant: tenant@ };
            sessions_stay_bounded(self@, id@, v);
        }
        self.drop_older(now, SESSION_TTL);
        assert(self.sessions@.len() == self@.sessions.len());
        if self.sessions.len() >= MAX_SESSIONS {
            self.drop_older(now, CROWDED_TTL + 1);
            proof {
                lemma_each_without(self.sessions@, |s: Session| s@, id@);
            }
            self.sessions.remove(id);
            self.make_room(MAX_SESSIONS - 1);
        }
        let s = Session { version: version.to_owned(), created: now, tenant };
        proof {
            lemma_each_put(self.sessions@, |s: Session| s@, id@, s);
        }
        self.sessions.insert(id.to_owned(), s);
        self.drop_orphans();
        self.channels.insert(id.to_owned(), ());
    }

    /// A channel without a session is opened, bound to a caller.
    pub fn attach(&mut self, id: &str, tenant: Tenant)
        ensures
            final(self)@ == hub_attached(old(self)@, id@, tenant@),
    {
        proof {
            lemma_each_put(self.bindings@, |t: Tenant| t@, id@, tenant);
        }
        self.channels.insert(id.to_owned(), ());
        self.bindings.insert(id.to_owned(), tenant);
    }

    /// Everything under an identifier is closed.
    pub fn close(&mut self, id: &str)
        ensures
            final(self)@ == hub_closed(old(self)@, id@),
            find(final(self)@.sessions, id@) is None,
            find(final(self)@.channels, id@) is None,
            find(final(self)@.bindings, id@) is None,
    {
        self.sessions.ordered();
        self.channels.ordered();
        self.bindings.ordered();
        proof {
            lemma_each_without(self.sessions@, |s: Session| s@, id@);
            lemma_each_without(self.bindings@, |t: Tenant| t@, id@);
        }
        self.sessions.remove(id);
        self.channels.remove(id);
        self.bindings.remove(id);
        proof {
            closed_sessions_are_gone(old(self)@, id@);
        }
    }

    /// Whose session it is.
    pub fn session_tenant(&self, id: &str) -> (r: Option<Tenant>)
        ensures
            (match r {
                Some(t) => find(self@.sessions, id@) matches Some(s) && s.tenant == t@,
                None => find(self@.sessions, id@) is None,
            }),
    {
        proof {
            lemma_each_find(self.sessions@, |s: Session| s@, id@);
        }
        match self.sessions.get(id) {
            Some(s) => Some(s.tenant.copy()),
            None => None,
        }
    }

    /// Whether there is a channel.
    pub fn has_channel(&self, id: &str) -> (r: bool)
        ensures
            r == (find(self@.channels, id@) is Some),
    {
        self.channels.has(id)
    }

    /// Whose the channel without a session is.
    pub fn bound_tenant(&self, id: &str) -> (r: Option<Tenant>)
        ensures
            (match r {
                Some(t) => find(self@.bindings, id@) == Some(t@),
                None => find(self@.bindings, id@) is None,
            }),
    {
        proof {
            lemma_each_find(self.bindings@, |t: Tenant| t@, id@);
        }
        match self.bindings.get(id) {
            Some(t) => Some(t.copy()),
            None => None,
        }
    }

    /// How many sessions there are.
    pub fn session_count(&self) -> (r: usize)
        ensures
            r == self@.sessions.len(),
    {
        self.sessions.len()
    }
}

/// A session that began is there, with its caller and a channel.
pub proof fn opened_sessions_are_there(h: HubV, id: Seq<char>, v: SessionV)
    ensures
        find(hub_opened(h, id, v).sessions, id) == Some(v),
        find(hub_opened(h, id, v).channels, id) is Some,
{
    let s = lasting(h.sessions, id, v.created);
    lemma_put_find(s, id, v, id);
    lemma_put_find(attended(h.channels, put(s, id, v), h.bindings), id, (), id);
}

/// A session that was closed is gone.
pub proof fn closed_sessions_are_gone(h: HubV, id: Seq<char>)
    requires
        crate::strmap::sorted_keys(h.sessions),
        crate::strmap::sorted_keys(h.channels),
        crate::strmap::sorted_keys(h.bindings),
    ensures
        find(hub_closed(h, id).sessions, id) is None,
        find(hub_closed(h, id).channels, id) is None,
        find(hub_closed(h, id).bindings, id) is None,
{
    lemma_without_find(h.sessions, id, id);
    lemma_without_find(h.channels, id, id);
    lemma_without_find(h.bindings, id, id);
}

proof fn lemma_younger(s: Sessions, now: u64, bound: int)
    ensures
        forall|i: int|
            0 <= i < younger(s, now, bound).len() ==> elapsed(
                (#[trigger] younger(s, now, bound)[i]).1.created,
                now,
            ) < bound,
        forall|i: int|
            0 <= i < younger(s, now, bound).len() ==> s.contains(
                #[trigger] younger(s, now, bound)[i],
            ),
    decreases s.len(),
{
    if s.len() > 0 {
        let rest = s.drop_first();
        lemma_younger(rest, now, bound);
        let y = younger(s, now, bound);
        let t = younger(rest, now, bound);
        assert forall|i: int| 0 <= i < y.len() implies s.contains(#[trigger] y[i]) && elapsed(
            y[i].1.created,
            now,
        ) < bound by {
            let k = if elapsed(s[0].1.created, now) < bound {
                i - 1
            } else {
                i
            };
            if k < 0 {
                assert(s[0] == y[i]);
            } else {
                assert(t[k] == y[i]);
                let m = choose|m: int| 0 <= m < rest.len() && rest[m] == t[k];
                assert(s[m + 1] == y[i]);
            }
        }
    }
}

/// No session outlives its day when another begins.
pub proof fn old_sessions_are_dropped(h: HubV, id: Seq<char>, v: SessionV, i: int)
    requires
        0 <= i < hub_opened(h, id, v).sessions.len(),
    ensures
        elapsed(hub_opened(h, id, v).sessions[i].1.created, v.created) < SESSION_TTL,
{
    let now = v.created;
    let a = younger(h.sessions, now, SESSION_TTL as int);
    let s = lasting(h.sessions, id, now);
    lemma_younger(h.sessions, now, SESSION_TTL as int);
    lemma_younger(a, now, CROWDED_TTL + 1);
    let b = younger(a, now, CROWDED_TTL + 1);
    let o = without(b, id);
    lemma_newest(o, (MAX_SESSIONS - 1) as nat);
    lemma_put_members(s, id, v, i);
    if put(s, id, v)[i] != (id, v) {
        let m = choose|m: int| 0 <= m < s.len() && s[m] == put(s, id, v)[i];
        if a.len() >= MAX_SESSIONS {
            let w = choose|w: int| 0 <= w < o.len() && o[w] == s[m];
            lemma_without_members(b, id, w);
            let q = choose|q: int| 0 <= q < b.len() && b[q] == s[m];
            assert(elapsed(b[q].1.created, now) < CROWDED_TTL + 1);
        } else {
            assert(elapsed(a[m].1.created, now) < SESSION_TTL);
        }
    }
}

proof fn lemma_attended(c: Channels, s: Sessions, b: Bindings)
    ensures
        forall|i: int|
            0 <= i < attended(c, s, b).len() ==> owned((#[trigger] attended(c, s, b)[i]).0, s, b),
    decreases c.len(),
{
    if c.len() > 0 {
        let t = attended(c.drop_first(), s, b);
        lemma_attended(c.drop_first(), s, b);
        let a = attended(c, s, b);
        assert forall|i: int| 0 <= i < a.len() implies owned((#[trigger] a[i]).0, s, b) by {
            if owned(c[0].0, s, b) {
                if i > 0 {
                    assert(a[i] == t[i - 1]);
                }
            } else {
                assert(a[i] == t[i]);
            }
        }
    }
}

/// When a session begins, every channel that stays is that of a session, or bound to a
/// caller.
pub proof fn channels_are_owned(h: HubV, id: Seq<char>, v: SessionV, i: int)
    requires
        0 <= i < hub_opened(h, id, v).channels.len(),
    ensures
        owned(hub_opened(h, id, v).channels[i].0, hub_opened(h, id, v).sessions, h.bindings),
{
    let s = session_opened(h.sessions, id, v);
    let c = attended(h.channels, s, h.bindings);
    lemma_attended(h.channels, s, h.bindings);
    lemma_put_find(lasting(h.sessions, id, v.created), id, v, id);
    lemma_put_members(c, id, (), i);
    if put(c, id, ())[i] != (id, ()) {
        let m = choose|m: int| 0 <= m < c.len() && c[m] == put(c, id, ())[i];
        assert(owned(c[m].0, s, h.bindings));
    }
}

proof fn lemma_attended_find(c: Channels, s: Sessions, b: Bindings, id: Seq<char>)
    requires
        find(c, id) is Some,
        owned(id, s, b),
    ensures
        find(attended(c, s, b), id) is Some,
    decreases c.len(),
{
    if c.len() > 0 {
        let a = attended(c, s, b);
        if c[0].0 != id {
            lemma_attended_find(c.drop_first(), s, b, id);
            if owned(c[0].0, s, b) {
                assert(a.drop_first() =~= attended(c.drop_first(), s, b));
            }
        }
    }
}

/// A channel that is bound to a caller stays when a session begins.
pub proof fn bound_channels_stay(h: HubV, id: Seq<char>, v: SessionV, other: Seq<char>)
    requires
        find(h.channels, other) is Some,
        find(h.bindings, other) is Some,
    ensures
        find(hub_opened(h, id, v).channels, other) is Some,
        find(hub_opened(h, id, v).bindings, other) == find(h.bindings, other),
{
    let s = session_opened(h.sessions, id, v);
    lemma_attended_find(h.channels, s, h.bindings, other);
    lemma_put_find(attended(h.channels, s, h.bindings), id, (), other);
}

/// However many begin, there are never too many sessions.
pub proof fn sessions_stay_bounded(h: HubV, id: Seq<char>, v: SessionV)
    ensures
        hub_opened(h, id, v).sessions.len() <= MAX_SESSIONS,
{
    let now = v.created;
    let a = younger(h.sessions, now, SESSION_TTL as int);
    lemma_newest(without(younger(a, now, CROWDED_TTL + 1), id), (MAX_SESSIONS - 1) as nat);
    lemma_put_len(lasting(h.sessions, id, now), id, v);
}

/// What a connection shows of itself.
pub struct Credentials {
    pub origin: Option<String>,
    pub authorization: Option<String>,
    pub query: String,
}

/// What a connection shows of itself.
pub struct CredentialsV {
    pub origin: Option<Seq<char>>,
    pub authorization: Option<Seq<char>>,
    pub query: Seq<char>,
}

impl Credentials {
    /// What it shows.
    pub open spec fn view(&self) -> CredentialsV {
        CredentialsV {
            origin: opt_text(self.origin),
            authorization: opt_text(self.authorization),
            query: self.query@,
        }
    }
}

/// Who connects.
pub open spec fn connecting(env: Vars, c: CredentialsV, tokens: Tokens) -> Result<
    TenantV,
    Seq<char>,
> {
    caller(bearer(c.authorization, c.query), flag(env, "MCP_AUTH_ENABLED"@), tokens, env)
}

fn as_slice(o: &Option<String>) -> (r: Option<&str>)
    ensures
        opt_slice(r) == opt_text(*o),
{
    match o {
        Some(s) => Some(s.as_str()),
        None => None,
    }
}

/// Who connects: the token is that of the authorization header, or of the query.
pub fn resolve_connection(env: &Env, c: &Credentials, tokens: &StrMap<Vec<String>>) -> (r: Result<
    Tenant,
    String,
>)
    ensures
        (match r {
            Ok(t) => connecting(env@, c@, tokens_of(tokens@)) == Ok::<TenantV, Seq<char>>(t@),
            Err(e) => connecting(env@, c@, tokens_of(tokens@)) == Err::<TenantV, Seq<char>>(e@),
        }),
{
    let token = bearer_from(as_slice(&c.authorization), c.query.as_str());
    resolve_tenant(as_slice(&token), auth_enabled(env), tokens, env)
}

/// What is done with a connection.
pub enum Admission {
    /// It is refused, with a status and a text.
    Refused(u16, String),
    /// It begins a session.
    Begins(Tenant),
    /// It is served.
    Served(Tenant),
}

/// What is done with a connection.
pub enum AdmissionV {
    Refused(u16, Seq<char>),
    Begins(TenantV),
    Served(TenantV),
}

impl Admission {
    /// What is done.
    pub open spec fn view(&self) -> AdmissionV {
        match self {
            Admission::Refused(s, t) => AdmissionV::Refused(*s, t@),
            Admission::Begins(t) => AdmissionV::Begins(t@),
            Admission::Served(t) => AdmissionV::Served(t@),
        }
    }
}

/// What is done with a message that is posted: `initialize` begins a session for whoever
/// shows a token; within a session the caller is the one who began it; without one, the
/// caller is whoever shows a token.
pub open spec fn posted(
    h: HubV,
    env: Vars,
    c: CredentialsV,
    tokens: Tokens,
    method: Seq<char>,
    session: Option<Seq<char>>,
) -> AdmissionV {
    if !origin_allowed(env, c.origin) {
        AdmissionV::Refused(403, "origin not allowed"@)
    } else if method == "initialize"@ {
        match connecting(env, c, tokens) {
            Ok(t) => AdmissionV::Begins(t),
            Err(e) => AdmissionV::Refused(401, e),
        }
    } else {
        match session {
            Some(id) => match find(h.sessions, id) {
                Some(s) => AdmissionV::Served(s.tenant),
                None => AdmissionV::Refused(400, "unknown session"@),
            },
            None => match connecting(env, c, tokens) {
                Ok(t) => AdmissionV::Served(t),
                Err(e) => AdmissionV::Refused(401, e),
            },
        }
    }
}

/// What is done with a connection for the events of a session.
pub open spec fn listened(h: HubV, env: Vars, c: CredentialsV, session: Option<Seq<char>>) -> Option<
    (u16, Seq<char>),
> {
    let id = match session {
        Some(s) => s,
        None => ""@,
    };
    if !origin_allowed(env, c.origin) {
        Some((403, "origin not allowed"@))
    } else if find(h.sessions, id) is None || find(h.channels, id) is None {
        Some((400, "unknown session, POST initialize first"@))
    } else {
        None
    }
}

/// What is done with a message for a channel without a session: the caller is the one who
/// opened the channel, or, where that is not known, whoever shows a token.
pub open spec fn messaged(
    h: HubV,
    env: Vars,
    c: CredentialsV,
    tokens: Tokens,
    id: Seq<char>,
) -> AdmissionV {
    if find(h.channels, id) is None {
        AdmissionV::Refused(400, "unknown session, GET /sse first"@)
    } else {
        match find(h.bindings, id) {
            Some(t) => AdmissionV::Served(t),
            None => match connecting(env, c, tokens) {
                Ok(t) => AdmissionV::Served(t),
                Err(_) => AdmissionV::Refused(401, "unknown token"@),
            },
        }
    }
}

impl Hub {
    /// What is done with a message that is posted.
    pub fn mcp_post(
        &self,
        env: &Env,
        c: &Credentials,
        tokens: &StrMap<Vec<String>>,
        method: &str,
        session: Option<&str>,
    ) -> (r: Admission)
        ensures
            r@ == posted(self@, env@, c@, tokens_of(tokens@), method@, opt_slice(session)),
    {
        if !check_origin(env, as_slice(&c.origin)) {
            return Admission::Refused(403, "origin not allowed".to_owned());
        }
        if same(method, "initialize") {
            return match resolve_connection(env, c, tokens) {
                Ok(t) => Admission::Begins(t),
                Err(e) => Admission::Refused(401, e),
            };
        }
        match session {
            Some(id) => match self.session_tenant(id) {
                Some(t) => Admission::Served(t),
                None => Admission::Refused(400, "unknown session".to_owned()),
            },
            None => match resolve_connection(env, c, tokens) {
                Ok(t) => Admission::Served(t),
                Err(e) => Admission::Refused(401, e),
            },
        }
    }

    /// Why a connection for the events of a session is refused, if it is.
    pub fn mcp_get(&self, env: &Env, c: &Credentials, session: Option<&str>) -> (r: Option<
        (u16, String),
    >)
        ensures
            (match r {
                Some(p) => listened(self@, env@, c@, opt_slice(session)) == Some((p.0, p.1@)),
                None => listened(self@, env@, c@, opt_slice(session)) is None,
            }),
    {
        if !check_origin(env, as_slice(&c.origin)) {
            return Some((403, "origin not allowed".to_owned()));
        }
        let id: &str = match session {
            Some(s) => s,
            None => "",
        };
        if self.session_tenant(id).is_none() || !self.has_channel(id) {
            return Some((400, "unknown session, POST initialize first".to_owned()));
        }
        None
    }

    /// What is done with a message for a channel without a session.
    pub fn legacy_message(
        &self,
        env: &Env,
        c: &Credentials,
        tokens: &StrMap<Vec<String>>,
        id: &str,
    ) -> (r: Admission)
        ensures
            r@ == messaged(self@, env@, c@, tokens_of(tokens@), id@),
    {
        if !self.has_channel(id) {
            return Admission::Refused(400, "unknown session, GET /sse first".to_owned());
        }
        if let Some(t) = self.bound_tenant(id) {
            return Admission::Served(t);
        }
        match resolve_connection(env, c, tokens) {
            Ok(t) => Admission::Served(t),
            Err(_) => Admission::Refused(401, "unknown token".to_owned()),
        }
    }
}

/// Within a session, the token that a message shows changes nothing: the caller is the one
/// who began the session.
pub proof fn sessions_keep_their_caller(
    h: HubV,
    env: Vars,
    c1: CredentialsV,
    c2: CredentialsV,
    tokens: Tokens,
    method: Seq<char>,
    id: Seq<char>,
)
    requires
        method != "initialize"@,
        c1.origin == c2.origin,
    ensures
        posted(h, env, c1, tokens, method, Some(id)) == posted(
            h,
            env,
            c2,
            tokens,
            method,
            Some(id),
        ),
{
}

/// The answer to a request without one: to `initialize` sent as a notification.
pub open spec fn empty_response() -> JsonV {
    let o = put(no_members(), "jsonrpc"@, JsonV::Str("2.0"@));
    let o = put(o, "id"@, JsonV::Null);
    JsonV::Obj(put(o, "result"@, JsonV::Obj(no_members())))
}

/// The response to `initialize`, where the request asked for none.
pub fn response_or_empty(resp: Option<Json>) -> (r: Json)
    ensures
        r@ == (match resp {
            Some(v) => v@,
            None => empty_response(),
        }),
{
    match resp {
        Some(v) => v,
        None => {
            let mut o = Object::new();
            o.set("jsonrpc", Json::str("2.0"));
            o.set("id", Json::Null);
            o.set("result", Json::Object(Object::new()));
            Json::Object(o)
        },
    }
}

/// What the server says of its health. The systems and the calls are shown to callers who
/// are known only.
pub open spec fn health_of(h: HandlerV, env: Vars, t: Option<TenantV>, now: u64) -> JsonV {
    let n = h.pool.configs.len();
    let o = put(
        no_members(),
        "status"@,
        JsonV::Str(
            if n > 0 {
                "ok"@
            } else {
                "degraded"@
            },
        ),
    );
    let o = put(o, "version"@, JsonV::Str(h.version));
    let o = put(o, "instance_count"@, JsonV::Num(NumV::Pos(n as u64)));
    let o = put(o, "writes_enabled"@, JsonV::Bool(flag(env, "SAP_MCP_ENABLE_WRITES"@)));
    let o = put(o, "field_acl"@, policy_status(h.acl));
    JsonV::Obj(
        match t {
            Some(x) => {
                let o = put(o, "instances"@, described(h.pool, x));
                put(o, "rate"@, JsonV::Arr(call_counts(h.limiter, now, rate_window(env))))
            },
            None => o,
        },
    )
}

proof fn lemma_health_lacks(h: HandlerV, env: Vars, now: u64, k: Seq<char>)
    requires
        k != "status"@,
        k != "version"@,
        k != "instance_count"@,
        k != "writes_enabled"@,
        k != "field_acl"@,
    ensures
        health_of(h, env, None, now).get(k) is None,
{
    let n = h.pool.configs.len();
    let status = JsonV::Str(
        if n > 0 {
            "ok"@
        } else {
            "degraded"@
        },
    );
    let version = JsonV::Str(h.version);
    let count = JsonV::Num(NumV::Pos(n as u64));
    let enabled = JsonV::Bool(flag(env, "SAP_MCP_ENABLE_WRITES"@));
    let a = put(no_members(), "status"@, status);
    let b = put(a, "version"@, version);
    let c = put(b, "instance_count"@, count);
    let d = put(c, "writes_enabled"@, enabled);
    lemma_put_find(no_members(), "status"@, status, k);
    lemma_put_find(a, "version"@, version, k);
    lemma_put_find(b, "instance_count"@, count, k);
    lemma_put_find(c, "writes_enabled"@, enabled, k);
    lemma_put_find(d, "field_acl"@, policy_status(h.acl), k);
}

/// Of the systems and the calls, the health says nothing to a caller who is not known.
pub proof fn strangers_see_no_systems(h: HandlerV, env: Vars, now: u64)
    ensures
        health_of(h, env, None, now).get("instances"@) is None,
        health_of(h, env, None, now).get("rate"@) is None,
{
    reveal_strlit("instances");
    reveal_strlit("rate");
    reveal_strlit("status");
    reveal_strlit("version");
    reveal_strlit("instance_count");
    reveal_strlit("writes_enabled");
    reveal_strlit("field_acl");
    assert("instances"@.len() == 9 && "rate"@.len() == 4 && "status"@.len() == 6);
    assert("version"@.len() == 7 && "instance_count"@.len() == 14);
    assert("writes_enabled"@.len() == 14 && "field_acl"@.len() == 9);
    assert("instances"@[0] == 'i' && "field_acl"@[0] == 'f');
    lemma_health_lacks(h, env, now, "instances"@);
    lemma_health_lacks(h, env, now, "rate"@);
}

/// What the server says of its health.
pub fn health(h: &Handler, env: &Env, tenant: &Option<Tenant>, now: u64) -> (r: Json)
    ensures
        r@ == health_of(
            h@,
            env@,
            match tenant {
                Some(t) => Some(t@),
                None => None,
            },
            now,
        ),
{
    let names = h.pool.instance_names();
    let n: usize = names.len();
    assert(texts(names@).len() == names@.len());
    let mut o = Object::new();
    o.set(
        "status",
        Json::str(
            if n > 0 {
                "ok"
            } else {
                "degraded"
            },
        ),
    );
    o.set("version", Json::str(h.version.as_str()));
    o.set("instance_count", Json::num(n as u64));
    o.set("writes_enabled", Json::Bool(writes_enabled(env)));
    o.set("field_acl", h.acl.status());
    if let Some(t) = tenant {
        o.set("instances", h.pool.describe_for(t));
        o.set("rate", h.limiter.snapshot(env, now));
    }
    Json::Object(o)
}

/// The lines of the metrics that say how often each operation was called for.
pub open spec fn op_lines(m: Seq<(Seq<char>, u64)>) -> Seq<char>
    decreases m.len(),
{
    if m.len() == 0 {
        Seq::empty()
    } else {
        op_lines(m.drop_last()) + "samcp_tool_calls_total{op=\""@ + m.last().0 + "\"} "@ + dec(
            m.last().1 as nat,
        ) + "\n"@
    }
}

/// The metrics, in the text format of Prometheus.
pub open spec fn metrics_of(m: Seq<(Seq<char>, u64)>, sessions: nat) -> Seq<char> {
    "# HELP samcp_tool_calls_total MCP tool calls by op\n# TYPE samcp_tool_calls_total counter\n"@
        + op_lines(m)
        + "# HELP samcp_sessions_active Active MCP sessions\n# TYPE samcp_sessions_active gauge\n"@
        + "samcp_sessions_active "@ + dec(sessions) + "\n"@
}

/// The metrics, in the text format of Prometheus.
pub fn metrics(h: &Handler, sessions: usize) -> (r: String)
    ensures
        r@ == metrics_of(h@.metrics, sessions as nat),
{
    let mut lines = String::new();
    assert(lines@ =~= Seq::<char>::empty());
    let n: usize = h.metrics.len();
    let ghost m = h.metrics@;
    let mut i: usize = 0;
    while i < n
        invariant
            i <= n,
            m == h.metrics@,
            n == m.len(),
            lines@ == op_lines(m.take(i as int)),
        decreases n - i,
    {
        assert(m.take(i + 1).drop_last() =~= m.take(i as int));
        lines.append("samcp_tool_calls_total{op=\"");
        lines.append(h.metrics.key_at(i).as_str());
        lines.append("\"} ");
        lines.append(dec_u64(*h.metrics.value_at(i)).as_str());
        lines.append("\n");
        i = i + 1;
    }
    assert(m.take(i as int) =~= m);
    let mut out = cat3(
        "# HELP samcp_tool_calls_total MCP tool calls by op\n# TYPE samcp_tool_calls_total counter\n",
        lines.as_str(),
        "# HELP samcp_sessions_active Active MCP sessions\n# TYPE samcp_sessions_active gauge\n",
    );
    out.append("samcp_sessions_active ");
    out.append(dec_u64(sessions as u64).as_str());
    out.append("\n");
    out
}

/// An operation of an address, for the description of the interface.
pub open spec fn api_summary(text: Seq<char>) -> JsonV {
    JsonV::Obj(put(no_members(), "summary"@, JsonV::Str(text)))
}

fn api_json(text: &str) -> (r: Json)
    ensures
        r@ == api_summary(text@),
{
    let mut o = Object::new();
    o.set("summary", Json::str(text));
    Json::Object(o)
}

/// The description of the interface.
pub open spec fn openapi_of(version: Seq<char>) -> JsonV {
    let m = put(no_members(), "post"@, api_summary("Streamable HTTP JSON-RPC"@));
    let m = put(m, "get"@, api_summary("SSE stream"@));
    let m = put(m, "delete"@, api_summary("Terminate session"@));
    let s = put(no_members(), "get"@, api_summary("Legacy SSE"@));
    let g = put(no_members(), "post"@, api_summary("Legacy SSE messages"@));
    let e = put(no_members(), "get"@, api_summary("Health check"@));
    let p = put(no_members(), "/mcp"@, JsonV::Obj(m));
    let p = put(p, "/sse"@, JsonV::Obj(s));
    let p = put(p, "/messages"@, JsonV::Obj(g));
    let p = put(p, "/health"@, JsonV::Obj(e));
    let i = put(no_members(), "title"@, JsonV::Str("sa-mcp"@));
    let i = put(i, "version"@, JsonV::Str(version));
    let o = put(no_members(), "openapi"@, JsonV::Str("3.0.0"@));
    let o = put(o, "info"@, JsonV::Obj(i));
    JsonV::Obj(put(o, "paths"@, JsonV::Obj(p)))
}

/// The description of the interface.
pub fn openapi(version: &str) -> (r: Json)
    ensures
        r@ == openapi_of(version@),
{
    let mut m = Object::new();
    m.set("post", api_json("Streamable HTTP JSON-RPC"));
    m.set("get", api_json("SSE stream"));
    m.set("delete", api_json("Terminate session"));
    let mut s = Object::new();
    s.set("get", api_json("Legacy SSE"));
    let mut g = Object::new();
    g.set("post", api_json("Legacy SSE messages"));
    let mut e = Object::new();
    e.set("get", api_json("Health check"));
    let mut p = Object::new();
    p.set("/mcp", Json::Object(m));
    p.set("/sse", Json::Object(s));
    p.set("/messages", Json::Object(g));
    p.set("/health", Json::Object(e));
    let mut i = Object::new();
    i.set("title", Json::str("sa-mcp"));
    i.set("version", Json::str(version));
    let mut o = Object::new();
    o.set("openapi", Json::str("3.0.0"));
    o.set("info", Json::Object(i));
    o.set("paths", Json::Object(p));
    Json::Object(o)
}

/// What a message that is no JSON is answered.
pub open spec fn parse_error(e: Seq<char>) -> JsonV {
    let x = put(no_members(), "code"@, JsonV::Num(NumV::Neg((-32700) as i64)));
    let x = put(x, "message"@, JsonV::Str("parse error: "@ + e));
    let o = put(no_members(), "jsonrpc"@, JsonV::Str("2.0"@));
    let o = put(o, "id"@, JsonV::Null);
    JsonV::Obj(put(o, "error"@, JsonV::Obj(x)))
}

/// What a message that is no JSON is answered.
pub fn parse_error_json(e: &str) -> (r: Json)
    ensures
        r@ == parse_error(e@),
{
    let mut x = Object::new();
    x.set("code", Json::Number(Number::NegInt(-32700)));
    x.set("message", Json::Str(cat2("parse error: ", e)));
    let mut o = Object::new();
    o.set("jsonrpc", Json::str("2.0"));
    o.set("id", Json::Null);
    o.set("error", Json::Object(x));
    Json::Object(o)
}

/// A message that came in.
pub enum Incoming {
    /// Nothing to do.
    Nothing,
    /// It is answered at once, with a text.
    Answer(String),
    /// A request.
    Request(Json),
    /// Requests, which are answered together.
    Batch(Vec<Json>),
}

/// A message that came in.
pub enum IncomingV {
    Nothing,
    Answer(Seq<char>),
    Request(JsonV),
    Batch(Seq<JsonV>),
}

impl Incoming {
    /// What came in.
    pub open spec fn view(&self) -> IncomingV {
        match self {
            Incoming::Nothing => IncomingV::Nothing,
            Incoming::Answer(t) => IncomingV::Answer(t@),
            Incoming::Request(v) => IncomingV::Request(v@),
            Incoming::Batch(a) => IncomingV::Batch(values(a@)),
        }
    }
}

/// What a text came to, read as JSON.
pub open spec fn message(parsed: Result<JsonV, Seq<char>>, batches: bool) -> IncomingV {
    match parsed {
        Ok(v) => match v {
            JsonV::Arr(a) => if batches {
                IncomingV::Batch(a)
            } else {
                IncomingV::Request(v)
            },
            _ => IncomingV::Request(v),
        },
        Err(e) => IncomingV::Answer(json_text(parse_error(e))),
    }
}

/// What a text comes to, given what reading it as JSON came to.
pub fn sort_message(parsed: Result<Json, String>, batches: bool) -> (r: Incoming)
    ensures
        r@ == message(
            match parsed {
                Ok(v) => Ok(v@),
                Err(e) => Err(e@),
            },
            batches,
        ),
{
    match parsed {
        Ok(Json::Array(a)) => if batches {
            Incoming::Batch(a)
        } else {
            Incoming::Request(Json::Array(a))
        },
        Ok(v) => Incoming::Request(v),
        Err(e) => Incoming::Answer(parse_error_json(e.as_str()).to_text()),
    }
}

/// A line that came in on the standard input. Blank lines are passed over; an array is a
/// batch.
pub fn read_line(line: &str) -> (r: Incoming)
    ensures
        r@ == (if trimmed(line@).len() == 0 {
            IncomingV::Nothing
        } else {
            message(json_parse(trimmed(line@)), true)
        }),
{
    let t = trim(line);
    if t.as_str().is_empty() {
        return Incoming::Nothing;
    }
    sort_message(Json::parse(t.as_str()), true)
}

/// A text that came in on a socket.
pub fn read_text_frame(text: &str) -> (r: Incoming)
    ensures
        r@ == message(json_parse(text@), false),
{
    sort_message(Json::parse(text), false)
}

/// Bytes that came in on a socket, as a text where they are one. What is no request is
/// passed over.
pub fn read_binary_frame(text: Option<&str>) -> (r: Incoming)
    ensures
        r@ == (match opt_slice(text) {
            Some(t) => match json_parse(t) {
                Ok(v) => IncomingV::Request(v),
                Err(_) => IncomingV::Nothing,
            },
            None => IncomingV::Nothing,
        }),
{
    match text {
        Some(t) => match Json::parse(t) {
            Ok(v) => Incoming::Request(v),
            Err(_) => Incoming::Nothing,
        },
        None => Incoming::Nothing,
    }
}

/// The line that answers a request, or the requests of a batch.
pub fn response_line(v: &Json) -> (r: String)
    ensures
        r@ == json_text(v@) + "\n"@,
{
    cat2(v.to_text().as_str(), "\n")
}

/// The line that answers a batch; none where no request of it is answered.
pub fn batch_line(responses: Vec<Json>) -> (r: Option<String>)
    ensures
        opt_text(r) == (if values(responses@).len() == 0 {
            None
        } else {
            Some(json_text(JsonV::Arr(values(responses@))) + "\n"@)
        }),
{
    proof {
        lemma_values(responses@);
    }
    if responses.len() == 0 {
        None
    } else {
        Some(response_line(&Json::Array(responses)))
    }
}

/// The query of an address: what stands behind the first question mark.
pub fn query_of(uri: &str) -> (r: String)
    ensures
        r@ == (match cut(uri@, '?') {
            Some(p) => p.1,
            None => ""@,
        }),
{
    match cut_at_char(uri, '?') {
        Some((_, q)) => q,
        None => "".to_owned(),
    }
}

/// Without a list, or with a blank one, every page may send requests; with one, those without
/// an origin, those of the own machine and those in whose origin an entry stands. A star lets
/// everyone in.
pub proof fn origins_are_let_in_by_the_list(env: Vars, list: Seq<char>, origin: Seq<char>, i: int)
    ensures
        find(env, "MCP_ALLOWED_ORIGINS"@) is None ==> origin_allowed(env, Some(origin)),
        origin_allowed(env, None),
        find(env, "MCP_ALLOWED_ORIGINS"@) == Some(list) && trimmed(list).len() == 0
            ==> origin_allowed(env, Some(origin)),
        has_part(origin, "localhost"@) || has_part(origin, "127.0.0.1"@) || has_part(
            origin,
            "[::1]"@,
        ) ==> origin_allowed(env, Some(origin)),
        find(env, "MCP_ALLOWED_ORIGINS"@) == Some(list) && 0 <= i < split(list, ',').len() && (
        trimmed(split(list, ',')[i]) == "*"@ || (trimmed(split(list, ',')[i]).len() > 0 && has_part(
            origin,
            trimmed(split(list, ',')[i]),
        ))) ==> origin_allowed(env, Some(origin)),
{
    reveal_strlit("");
    assert(""@.len() == 0);
    if find(env, "MCP_ALLOWED_ORIGINS"@) == Some(list) && 0 <= i < split(list, ',').len() {
        let p = split(list, ',');
        assert(p[i] == split(list, ',')[i]);
        if lets_in(p[i], origin) {
            assert(origin_listed(p, origin));
        }
    }
}

/// Any other origin is not let in.
pub proof fn other_origins_are_not_let_in(env: Vars, list: Seq<char>, origin: Seq<char>)
    requires
        find(env, "MCP_ALLOWED_ORIGINS"@) == Some(list),
        trimmed(list).len() > 0,
        origin.len() > 0,
        !has_part(origin, "localhost"@),
        !has_part(origin, "127.0.0.1"@),
        !has_part(origin, "[::1]"@),
        forall|i: int|
            0 <= i < split(list, ',').len() ==> trimmed(#[trigger] split(list, ',')[i]) != "*"@ && (
            trimmed(split(list, ',')[i]).len() == 0 || !has_part(
                origin,
                trimmed(split(list, ',')[i]),
            )),
    ensures
        !origin_allowed(env, Some(origin)),
{
}

/// A request is served for whom its session was opened, or for whom its token stands; one
/// that begins a session is for whom the token stands.
pub proof fn posts_are_served_by_session_or_token(
    h: HubV,
    env: Vars,
    c: CredentialsV,
    tokens: Tokens,
    method: Seq<char>,
    id: Seq<char>,
    s: SessionV,
    t: TenantV,
    e: Seq<char>,
)
    requires
        origin_allowed(env, c.origin),
    ensures
        method != "initialize"@ && find(h.sessions, id) == Some(s) ==> posted(
            h,
            env,
            c,
            tokens,
            method,
            Some(id),
        ) == AdmissionV::Served(s.tenant),
        method != "initialize"@ && find(h.sessions, id) is None ==> posted(
            h,
            env,
            c,
            tokens,
            method,
            Some(id),
        ) == AdmissionV::Refused(400, "unknown session"@),
        caller(bearer(c.authorization, c.query), flag(env, "MCP_AUTH_ENABLED"@), tokens, env)
            == Ok::<TenantV, Seq<char>>(t) ==> posted(
            h,
            env,
            c,
            tokens,
            "initialize"@,
            Some(id),
        ) == AdmissionV::Begins(t) && posted(h, env, c, tokens, "initialize"@, None)
            == AdmissionV::Begins(t) && (method != "initialize"@ ==> posted(
            h,
            env,
            c,
            tokens,
            method,
            None,
        ) == AdmissionV::Served(t)),
        caller(bearer(c.authorization, c.query), flag(env, "MCP_AUTH_ENABLED"@), tokens, env)
            == Err::<TenantV, Seq<char>>(e) ==> posted(h, env, c, tokens, "initialize"@, Some(id))
            == AdmissionV::Refused(401, e) && posted(h, env, c, tokens, "initialize"@, None)
            == AdmissionV::Refused(401, e) && posted(h, env, c, tokens, method, None)
            == AdmissionV::Refused(401, e),
{
}

/// A page whose origin is not let in is refused whatever it asks.
pub proof fn wrong_origins_are_refused(
    h: HubV,
    env: Vars,
    c: CredentialsV,
    tokens: Tokens,
    method: Seq<char>,
    session: Option<Seq<char>>,
)
    requires
        !origin_allowed(env, c.origin),
    ensures
        posted(h, env, c, tokens, method, session) matches AdmissionV::Refused(status, _) && status
            == 403,
        listened(h, env, c, session) matches Some(r) && r.0 == 403,
{
}

/// A client may listen to a session that began and still has a channel, and to no other.
pub proof fn listeners_need_a_session(h: HubV, env: Vars, c: CredentialsV, id: Seq<char>)
    requires
        origin_allowed(env, c.origin),
    ensures
        listened(h, env, c, Some(id)) is None <==> find(h.sessions, id) is Some && find(
            h.channels,
            id,
        ) is Some,
        listened(h, env, c, Some(id)) matches Some(r) ==> r.0 == 400,
{
}

/// A message over a channel is served for whom the channel is bound to, or for whom its token
/// stands; without a channel it is refused.
pub proof fn messages_need_a_channel(
    h: HubV,
    env: Vars,
    c: CredentialsV,
    tokens: Tokens,
    id: Seq<char>,
    t: TenantV,
)
    ensures
        find(h.channels, id) is None ==> (messaged(h, env, c, tokens, id) matches AdmissionV::Refused(
            status,
            _,
        ) && status == 400),
        find(h.channels, id) is Some && find(h.bindings, id) == Some(t) ==> messaged(
            h,
            env,
            c,
            tokens,
            id,
        ) == AdmissionV::Served(t),
        find(h.channels, id) is Some && find(h.bindings, id) is None && caller(
            bearer(c.authorization, c.query),
            flag(env, "MCP_AUTH_ENABLED"@),
            tokens,
            env,
        ) == Ok::<TenantV, Seq<char>>(t) ==> messaged(h, env, c, tokens, id) == AdmissionV::Served(
            t,
        ),
        find(h.channels, id) is Some && find(h.bindings, id) is None && caller(
            bearer(c.authorization, c.query),
            flag(env, "MCP_AUTH_ENABLED"@),
            tokens,
            env,
        ) is Err ==> (messaged(h, env, c, tokens, id) matches AdmissionV::Refused(status, _)
            && status == 401),
{
}

proof fn lemma_young_stay(s: Sessions, now: u64, bound: int, k: Seq<char>)
    ensures
        younger(s, now, bound).len() <= s.len(),
        find(s, k) matches Some(v) ==> (elapsed(v.created, now) < bound ==> find(
            younger(s, now, bound),
            k,
        ) == Some(v)),
    decreases s.len(),
{
    if s.len() > 0 {
        let rest = s.drop_first();
        lemma_young_stay(rest, now, bound, k);
        let y = younger(s, now, bound);
        if elapsed(s[0].1.created, now) < bound {
            assert(y.drop_first() =~= younger(rest, now, bound));
            assert(y[0] == s[0]);
        }
    }
}

proof fn lemma_attended_stay(c: Channels, s: Sessions, b: Bindings, k: Seq<char>)
    requires
        owned(k, s, b),
    ensures
        find(attended(c, s, b), k) == find(c, k),
    decreases c.len(),
{
    if c.len() > 0 {
        let rest = c.drop_first();
        lemma_attended_stay(rest, s, b, k);
        let a = attended(c, s, b);
        if owned(c[0].0, s, b) {
            assert(a.drop_first() =~= attended(rest, s, b));
            assert(a[0] == c[0]);
        }
    }
}

/// While there is room, a session that began within the day stays, with its caller and its
/// channel, when another begins.
pub proof fn young_sessions_stay(h: HubV, id: Seq<char>, v: SessionV, k: Seq<char>, x: SessionV)
    requires
        k != id,
        find(h.sessions, k) == Some(x),
        x.created <= v.created,
        v.created - x.created < 86_400_000_000_000,
        h.sessions.len() < 2048,
    ensures
        find(hub_opened(h, id, v).sessions, k) == Some(x),
        find(hub_opened(h, id, v).channels, k) == find(h.channels, k),
        hub_opened(h, id, v).bindings == h.bindings,
{
    broadcast use crate::strmap::put_is_found;

    lemma_young_stay(h.sessions, v.created, SESSION_TTL as int, k);
    let s = session_opened(h.sessions, id, v);
    lemma_attended_stay(h.channels, s, h.bindings, k);
}

/// A channel that is attached is there and bound to its caller; the others stay as they are.
pub proof fn attached_channels_are_bound(h: HubV, id: Seq<char>, t: TenantV, k: Seq<char>)
    requires
        k != id,
    ensures
        find(hub_attached(h, id, t).channels, id) is Some,
        find(hub_attached(h, id, t).bindings, id) == Some(t),
        find(hub_attached(h, id, t).channels, k) == find(h.channels, k),
        find(hub_attached(h, id, t).bindings, k) == find(h.bindings, k),
        hub_attached(h, id, t).sessions == h.sessions,
{
    broadcast use crate::strmap::put_is_found;

}

/// Closing a session leaves the others.
pub proof fn other_sessions_stay_open(h: HubV, id: Seq<char>, k: Seq<char>)
    requires
        k != id,
        crate::strmap::sorted_keys(h.sessions),
        crate::strmap::sorted_keys(h.channels),
        crate::strmap::sorted_keys(h.bindings),
    ensures
        find(hub_closed(h, id).sessions, k) == find(h.sessions, k),
        find(hub_closed(h, id).channels, k) == find(h.channels, k),
        find(hub_closed(h, id).bindings, k) == find(h.bindings, k),
{
    lemma_without_find(h.sessions, id, k);
    lemma_without_find(h.channels, id, k);
    lemma_without_find(h.bindings, id, k);
}

proof fn lemma_health_names()
    ensures
        "status"@ != "version"@,
        "status"@ != "instance_count"@,
        "status"@ != "writes_enabled"@,
        "status"@ != "field_acl"@,
        "status"@ != "instances"@,
        "status"@ != "rate"@,
        "version"@ != "instance_count"@,
        "version"@ != "writes_enabled"@,
        "version"@ != "field_acl"@,
        "version"@ != "instances"@,
        "version"@ != "rate"@,
        "instance_count"@ != "writes_enabled"@,
        "instance_count"@ != "field_acl"@,
        "instance_count"@ != "instances"@,
        "instance_count"@ != "rate"@,
        "writes_enabled"@ != "field_acl"@,
        "writes_enabled"@ != "instances"@,
        "writes_enabled"@ != "rate"@,
        "field_acl"@ != "instances"@,
        "field_acl"@ != "rate"@,
        "instances"@ != "rate"@,
{
    reveal_strlit("status");
    reveal_strlit("version");
    reveal_strlit("instance_count");
    reveal_strlit("writes_enabled");
    reveal_strlit("field_acl");
    reveal_strlit("instances");
    reveal_strlit("rate");
    assert("status"@.len() == 6);
    assert("version"@.len() == 7);
    assert("instance_count"@.len() == 14);
    assert("writes_enabled"@.len() == 14);
    assert("field_acl"@.len() == 9);
    assert("instances"@.len() == 9);
    assert("rate"@.len() == 4);
    assert("instance_count"@[0] != "writes_enabled"@[0]);
    assert("field_acl"@[0] != "instances"@[0]);
}

proof fn lemma_policy_names()
    ensures
        "enabled"@ != "source"@,
        "enabled"@ != "error"@,
        "source"@ != "error"@,
{
    reveal_strlit("enabled");
    reveal_strlit("source");
    reveal_strlit("error");
    assert("enabled"@.len() == 7);
    assert("source"@.len() == 6);
    assert("error"@.len() == 5);
}

/// The state of the server: whether there are systems, how many, whether writes are enabled
/// and which rules hide fields; to a caller who is known also the systems and the calls.
pub proof fn health_tells_the_state(h: HandlerV, env: Vars, t: TenantV, now: u64)
    requires
        h.pool.configs.len() <= u64::MAX,
    ensures
        forall|who: Option<TenantV>|
            ({
                let v = #[trigger] health_of(h, env, who, now);
                &&& h.pool.configs.len() > 0 ==> v.get("status"@) == Some(JsonV::Str("ok"@))
                &&& h.pool.configs.len() == 0 ==> v.get("status"@) == Some(
                    JsonV::Str("degraded"@),
                )
                &&& v.get("version"@) == Some(JsonV::Str(h.version))
                &&& v.get("instance_count"@) matches Some(JsonV::Num(NumV::Pos(n))) && n
                    == h.pool.configs.len()
                &&& v.get("writes_enabled"@) == Some(
                    JsonV::Bool(flag(env, "SAP_MCP_ENABLE_WRITES"@)),
                )
                &&& v.get("field_acl"@) matches Some(a) && a.get("enabled"@) == Some(
                    JsonV::Bool(h.acl.rules.len() > 0),
                ) && a.get("source"@) == Some(JsonV::Str(h.acl.source))
            }),
        health_of(h, env, Some(t), now).get("instances"@) == Some(described(h.pool, t)),
        health_of(h, env, Some(t), now).get("rate"@) == Some(
            JsonV::Arr(call_counts(h.limiter, now, rate_window(env))),
        ),
{
    broadcast use crate::strmap::put_is_found;

    lemma_health_names();
    lemma_policy_names();
}

/// The counts are shown line by line, in their order.
pub proof fn metrics_show_every_operation(a: Seq<(Seq<char>, u64)>, b: Seq<(Seq<char>, u64)>, op: Seq<char>, n: u64)
    ensures
        op_lines(a + b) == op_lines(a) + op_lines(b),
        op_lines(seq![(op, n)]) == "samcp_tool_calls_total{op=\""@ + op + "\"} "@ + dec(n as nat)
            + "\n"@,
    decreases b.len(),
{
    let one = seq![(op, n)];
    assert(one.drop_last() =~= Seq::<(Seq<char>, u64)>::empty());
    assert(op_lines(one.drop_last()) =~= Seq::<char>::empty());
    assert(op_lines(one) =~= "samcp_tool_calls_total{op=\""@ + op + "\"} "@ + dec(n as nat)
        + "\n"@);
    if b.len() == 0 {
        assert(a + b =~= a);
        assert(op_lines(a) + op_lines(b) =~= op_lines(a));
    } else {
        metrics_show_every_operation(a, b.drop_last(), op, n);
        assert((a + b).drop_last() =~= a + b.drop_last());
        assert(op_lines(a + b) =~= op_lines(a) + op_lines(b));
    }
}

/// The metrics hold the lines of the operations, and end with the number of sessions.
pub proof fn metrics_hold_lines_and_sessions(m: Seq<(Seq<char>, u64)>, sessions: nat)
    ensures
        exists|before: Seq<char>, between: Seq<char>|
            metrics_of(m, sessions) == #[trigger] (before + op_lines(m) + between)
                + "samcp_sessions_active "@ + dec(sessions) + "\n"@,
{
    let before =
        "# HELP samcp_tool_calls_total MCP tool calls by op\n# TYPE samcp_tool_calls_total counter\n"@;
    let between =
        "# HELP samcp_sessions_active Active MCP sessions\n# TYPE samcp_sessions_active gauge\n"@;
    assert(metrics_of(m, sessions) =~= (before + op_lines(m) + between) + "samcp_sessions_active "@
        + dec(sessions) + "\n"@);
}

/// A text that is JSON is a request; a list of them is a batch where batches are taken; and a
/// text that is not JSON is answered with what is wrong with it.
pub proof fn messages_are_requests(v: JsonV, a: Seq<JsonV>, e: Seq<char>, batches: bool)
    ensures
        !(v is Arr) ==> message(Ok(v), batches) == IncomingV::Request(v),
        message(Ok(JsonV::Arr(a)), true) == IncomingV::Batch(a),
        message(Ok(JsonV::Arr(a)), false) == IncomingV::Request(JsonV::Arr(a)),
        exists|o: JsonV|
            message(Err(e), batches) == IncomingV::Answer(#[trigger] json_text(o)) && o.get(
                "jsonrpc"@,
            ) == Some(JsonV::Str("2.0"@)) && o.get("id"@) == Some(JsonV::Null) && o.get("result"@)
                is None && (o.get("error"@) matches Some(x) && x.get("code"@) == Some(
                JsonV::Num(NumV::Neg((-32700) as i64)),
            ) && x.get("message"@) == Some(JsonV::Str("parse error: "@ + e))),
{
    broadcast use crate::strmap::put_is_found;

    lemma_rpc_names();
    let o = parse_error(e);
    assert(message(Err(e), batches) == IncomingV::Answer(json_text(o)));
}

proof fn lemma_rpc_names()
    ensures
        "jsonrpc"@ != "id"@,
        "jsonrpc"@ != "result"@,
        "jsonrpc"@ != "error"@,
        "jsonrpc"@ != "code"@,
        "jsonrpc"@ != "message"@,
        "id"@ != "result"@,
        "id"@ != "error"@,
        "id"@ != "code"@,
        "id"@ != "message"@,
        "result"@ != "error"@,
        "result"@ != "code"@,
        "result"@ != "message"@,
        "error"@ != "code"@,
        "error"@ != "message"@,
        "code"@ != "message"@,
{
    reveal_strlit("jsonrpc");
    reveal_strlit("id");
    reveal_strlit("result");
    reveal_strlit("error");
    reveal_strlit("code");
    reveal_strlit("message");
    assert("jsonrpc"@.len() == 7);
    assert("id"@.len() == 2);
    assert("result"@.len() == 6);
    assert("error"@.len() == 5);
    assert("code"@.len() == 4);
    assert("message"@.len() == 7);
    assert("jsonrpc"@[0] != "message"@[0]);
}

/// A notice is answered over HTTP with an empty result.
pub proof fn notices_get_an_empty_response()
    ensures
        empty_response().get("jsonrpc"@) == Some(JsonV::Str("2.0"@)),
        empty_response().get("id"@) == Some(JsonV::Null),
        empty_response().get("result"@) == Some(JsonV::Obj(Seq::empty())),
{
    broadcast use crate::strmap::put_is_found;

    lemma_rpc_names();
}

proof fn lemma_api_names()
    ensures
        "openapi"@ != "info"@,
        "openapi"@ != "paths"@,
        "openapi"@ != "title"@,
        "openapi"@ != "version"@,
        "openapi"@ != "/mcp"@,
        "openapi"@ != "/sse"@,
        "openapi"@ != "/messages"@,
        "openapi"@ != "/health"@,
        "openapi"@ != "post"@,
        "openapi"@ != "get"@,
        "openapi"@ != "delete"@,
        "info"@ != "paths"@,
        "info"@ != "title"@,
        "info"@ != "version"@,
        "info"@ != "/mcp"@,
        "info"@ != "/sse"@,
        "info"@ != "/messages"@,
        "info"@ != "/health"@,
        "info"@ != "post"@,
        "info"@ != "get"@,
        "info"@ != "delete"@,
        "paths"@ != "title"@,
        "paths"@ != "version"@,
        "paths"@ != "/mcp"@,
        "paths"@ != "/sse"@,
        "paths"@ != "/messages"@,
        "paths"@ != "/health"@,
        "paths"@ != "post"@,
        "paths"@ != "get"@,
        "paths"@ != "delete"@,
        "title"@ != "version"@,
        "title"@ != "/mcp"@,
        "title"@ != "/sse"@,
        "title"@ != "/messages"@,
        "title"@ != "/health"@,
        "title"@ != "post"@,
        "title"@ != "get"@,
        "title"@ != "delete"@,
        "version"@ != "/mcp"@,
        "version"@ != "/sse"@,
        "version"@ != "/messages"@,
        "version"@ != "/health"@,
        "version"@ != "post"@,
        "version"@ != "get"@,
        "version"@ != "delete"@,
        "/mcp"@ != "/sse"@,
        "/mcp"@ != "/messages"@,
        "/mcp"@ != "/health"@,
        "/mcp"@ != "post"@,
        "/mcp"@ != "get"@,
        "/mcp"@ != "delete"@,
        "/sse"@ != "/messages"@,
        "/sse"@ != "/health"@,
        "/sse"@ != "post"@,
        "/sse"@ != "get"@,
        "/sse"@ != "delete"@,
        "/messages"@ != "/health"@,
        "/messages"@ != "post"@,
        "/messages"@ != "get"@,
        "/messages"@ != "delete"@,
        "/health"@ != "post"@,
        "/health"@ != "get"@,
        "/health"@ != "delete"@,
        "post"@ != "get"@,
        "post"@ != "delete"@,
        "get"@ != "delete"@,
{
    reveal_strlit("openapi");
    reveal_strlit("info");
    reveal_strlit("paths");
    reveal_strlit("title");
    reveal_strlit("version");
    reveal_strlit("/mcp");
    reveal_strlit("/sse");
    reveal_strlit("/messages");
    reveal_strlit("/health");
    reveal_strlit("post");
    reveal_strlit("get");
    reveal_strlit("delete");
    assert("openapi"@.len() == 7);
    assert("info"@.len() == 4);
    assert("paths"@.len() == 5);
    assert("title"@.len() == 5);
    assert("version"@.len() == 7);
    assert("/mcp"@.len() == 4);
    assert("/sse"@.len() == 4);
    assert("/messages"@.len() == 9);
    assert("/health"@.len() == 7);
    assert("post"@.len() == 4);
    assert("get"@.len() == 3);
    assert("delete"@.len() == 6);
    assert("openapi"@[0] != "version"@[0]);
    assert("openapi"@[0] != "/health"@[0]);
    assert("info"@[0] != "/mcp"@[0]);
    assert("info"@[0] != "/sse"@[0]);
    assert("info"@[0] != "post"@[0]);
    assert("paths"@[0] != "title"@[0]);
    assert("version"@[0] != "/health"@[0]);
    assert("/mcp"@[1] != "/sse"@[1]);
    assert("/mcp"@[0] != "post"@[0]);
    assert("/sse"@[0] != "post"@[0]);
}

/// The description of the interface names the version of the server and every way in.
pub proof fn interfaces_name_every_way(version: Seq<char>)
    ensures
        openapi_of(version).get("openapi"@) == Some(JsonV::Str("3.0.0"@)),
        openapi_of(version).get("info"@) matches Some(i) && i.get("title"@) == Some(
            JsonV::Str("sa-mcp"@),
        ) && i.get("version"@) == Some(JsonV::Str(version)),
        openapi_of(version).get("paths"@) matches Some(p) && (p.get("/mcp"@) matches Some(m) && m.get(
            "post"@,
        ) is Some && m.get("get"@) is Some && m.get("delete"@) is Some) && (p.get(
            "/sse"@,
        ) matches Some(m) && m.get("get"@) is Some) && (p.get("/messages"@) matches Some(m)
            && m.get("post"@) is Some) && (p.get("/health"@) matches Some(m) && m.get("get"@)
            is Some),
{
    broadcast use crate::strmap::put_is_found;

    lemma_api_names();
}

/// The host of an address is what stands before the port.
pub proof fn hosts_stand_before_the_port(host: Seq<char>, port: Seq<char>)
    requires
        host.len() > 0,
        host[0] != '[',
        host[0] != ']',
        host.last() != '[',
        host.last() != ']',
        !host.contains(':'),
        !port.contains(':'),
    ensures
        listen_host(host + seq![':'] + port) == host,
{
    let l = host + seq![':'] + port;
    reveal_strlit("[");
    assert("["@.len() == 1 && "["@[0] == '[');
    if crate::text::has_prefix(l, "["@) {
        assert(l.take(1)[0] == l[0]);
    }
    let parts = seq![host, port];
    crate::text::joined_pieces_come_back(parts, ':');
    assert(parts.drop_last() =~= seq![host]);
    assert(seq![host].drop_last() =~= Seq::<Seq<char>>::empty());
    assert(crate::text::joined(seq![host], seq![':']) =~= host);
    assert(crate::text::joined(parts, seq![':']) =~= l);
}

/// The own machine goes by three names.
pub proof fn three_names_are_local()
    ensures
        local_host("127.0.0.1"@),
        local_host("localhost"@),
        local_host("::1"@),
{
}

/// A host that is none of them, and no loopback address in the longer form, is another machine.
pub proof fn other_hosts_are_not_local(host: Seq<char>)
    requires
        host != "127.0.0.1"@,
        host != "localhost"@,
        !host.contains(':'),
    ensures
        !local_host(host),
{
    reveal_strlit("::1");
    assert("::1"@[0] == ':');
    if host == "::1"@ {
        assert(host.contains(host[0]));
    }
    assert forall|i: int| 0 <= i < host.len() implies host[i] != ':' by {
        assert(host.contains(host[i]));
    }
    crate::text::lemma_split_none(host, ':');
}

/// The loopback address in its longer form is the own machine, whatever zeros stand before it.
pub proof fn mapped_loopback_is_local(z: Seq<Seq<char>>)
    requires
        forall|i: int| 0 <= i < z.len() ==> zeros(#[trigger] z[i]),
    ensures
        local_host(crate::text::joined(z + seq!["ffff"@, "127.0.0.1"@], seq![':'])),
{
    let p = z + seq!["ffff"@, "127.0.0.1"@];
    reveal_strlit("ffff");
    reveal_strlit("127.0.0.1");
    assert forall|i: int| 0 <= i < p.len() implies !(#[trigger] p[i]).contains(':') by {
        if i < z.len() {
            assert(p[i] == z[i]);
            assert(zeros(z[i]));
        }
        if p[i].contains(':') {
            let k = choose|k: int| 0 <= k < p[i].len() && p[i][k] == ':';
            assert(p[i][k] == ':');
        }
    }
    crate::text::joined_pieces_come_back(p, ':');
    crate::text::lemma_lowercase_same("ffff"@);
    assert forall|i: int| 0 <= i < p.len() - 2 implies zeros(#[trigger] p[i]) by {
        assert(p[i] == z[i]);
    }
}

/// An address of several groups that ends otherwise, or holds anything but zeros before its
/// end, is not in that form.
pub proof fn other_groups_are_not_loopback(p: Seq<Seq<char>>, i: int)
    requires
        p.len() >= 2,
        forall|k: int| 0 <= k < p.len() ==> !(#[trigger] p[k]).contains(':'),
        p.last() != "127.0.0.1"@ || (0 <= i < p.len() - 2 && !zeros(p[i])),
    ensures
        !mapped_loopback(crate::text::joined(p, seq![':'])),
{
    crate::text::joined_pieces_come_back(p, ':');
}

/// A port may be left out behind brackets.
pub proof fn ports_may_be_left_out(host: Seq<char>, port: Seq<char>)
    requires
        !host.contains(']'),
        has_groups(host),
        !port.contains(':'),
    ensures
        listen_host(seq!['['] + host + seq![']']) == host,
        listen_host(seq!['['] + host + seq![']'] + (seq![':'] + port)) == host,
{
    let none = Seq::<char>::empty();
    lemma_bracketed(host, none);
    assert(seq!['['] + host + seq![']'] + none =~= seq!['['] + host + seq![']']);
    let rest = seq![':'] + port;
    assert(rest.drop_first() =~= port);
    lemma_bracketed(host, rest);
}

/// Brackets around a name are taken away.
pub proof fn brackets_around_names_are_taken_away(host: Seq<char>, port: Seq<char>)
    requires
        host.len() > 0,
        !host.contains('['),
        !host.contains(']'),
        !host.contains(':'),
        !port.contains(':'),
    ensures
        listen_host(seq!['['] + host + seq![']'] + seq![':'] + port) == host,
{
    let inner = seq!['['] + host + seq![']'];
    let l = inner + seq![':'] + port;
    reveal_strlit("[");
    assert("["@ =~= seq!['[']);
    assert(l.take(1) =~= seq!['[']);
    let rest = host + seq![']'] + seq![':'] + port;
    assert(l.skip(1) =~= rest);
    assert forall|i: int| 0 <= i < host.len() implies rest[i] != ']' by {
        assert(rest[i] == host[i]);
        assert(host.contains(host[i]));
    }
    lemma_cut_at(rest, ']', host.len() as int);
    assert(rest.take(host.len() as int) =~= host);
    crate::text::cuts_are_at_the_first(host, ':');
    if let Some((a, b)) = cut(host, ':') {
        assert(host[a.len() as int] == ':');
        assert(host.contains(host[a.len() as int]));
    }
    assert(!inner.contains(':')) by {
        if inner.contains(':') {
            let k = choose|k: int| 0 <= k < inner.len() && inner[k] == ':';
            assert(1 <= k <= host.len());
            assert(host[k - 1] == ':');
        }
    }
    let parts = seq![inner, port];
    crate::text::joined_pieces_come_back(parts, ':');
    assert(parts.drop_last() =~= seq![inner]);
    assert(crate::text::joined(seq![inner], seq![':']) =~= inner);
    assert(crate::text::joined(parts, seq![':']) =~= l);
    let open = host + seq![']'];
    assert(inner.drop_first() =~= open);
    assert(open[0] == host[0]);
    assert(host.contains(host[0]));
    assert(unbracketed_start(open) == open);
    assert(unbracketed_start(inner) == open);
    assert(open.drop_last() =~= host);
    assert(host.contains(host.last()));
    assert(unbracketed_end(host) == host);
}

} // verus!
