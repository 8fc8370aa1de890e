//! Approvals of writes: tokens, the store that keeps them, and the lines of the audit
//! log.

use vstd::prelude::*;
use vstd::string::*;
use crate::codec::{fingerprint, fingerprint_of, hex_digits, lemma_marked_hex, marked_hex};
use crate::json::{alike, alike_values_have_one_form, canon, json_eq, json_text, lemma_json_eq_reflexive, no_members, ordered, Json, JsonV, Object};
use crate::strmap::{each, find, lemma_each_find, lemma_each_put, lemma_each_without, lemma_find_none, lemma_put_find, lemma_without_find, lemma_without_sorted, put, sorted_keys, without, StrMap};
use crate::text::cat2;

verus! {

/// For how many seconds an approval holds.
pub const APPROVAL_TTL_SECS: u64 = 600;

/// What every approval token begins with.
pub const TOKEN_PREFIX: &'static str = "sap-write:";

/// The canonical text of a JSON value: members in order, whole floating-point numbers
/// as whole numbers.
pub fn canonical_json(v: &Json) -> (r: String)
    ensures
        r@ == json_text(canon(v@)),
        ordered(v@),
{
    v.canonical().to_text()
}

/// The token that approves a write.
pub open spec fn token_of(payload: JsonV) -> Seq<char> {
    TOKEN_PREFIX@ + fingerprint_of(json_text(canon(payload)), 32)
}

/// The token that approves a write: it depends on the canonical text of the write. It is
/// `sap-write:` and 32 lower-case hexadecimal digits.
pub fn build_approval_token(payload: &Json) -> (r: String)
    ensures
        r@ == token_of(payload@),
        marked_hex(r@, "sap-write:"@, 32),
        ordered(payload@),
{
    let c = canonical_json(payload);
    let h = fingerprint(c.as_str(), 32);
    proof {
        lemma_marked_hex(TOKEN_PREFIX@, h@);
    }
    cat2(TOKEN_PREFIX, h.as_str())
}

/// Writes that differ in no more than the order of members and in how whole numbers are
/// written (`3` or `3.0`), at any depth, have the same token.
pub proof fn alike_writes_share_a_token(a: JsonV, b: JsonV)
    requires
        ordered(a),
        ordered(b),
        alike(a, b),
    ensures
        token_of(a) == token_of(b),
{
    alike_values_have_one_form(a, b);
}

/// The part of a token's digest that stands in the audit log: 16 lower-case hexadecimal
/// digits.
pub fn token_digest(token: &str) -> (r: String)
    ensures
        r@ == fingerprint_of(token@, 16),
        r@.len() == 16,
        hex_digits(r@),
{
    fingerprint(token, 16)
}

/// An approved write and the moment at which the approval ends.
pub struct Approval {
    payload: Json,
    expires_at: u128,
}

/// An approved write and the moment, in nanoseconds, at which the approval ends.
pub type ApprovalV = (JsonV, int);

/// The approvals, by token.
pub type Approvals = Seq<(Seq<char>, ApprovalV)>;

impl Approval {
    /// What was approved, and until when.
    pub closed spec fn view(&self) -> ApprovalV {
        (self.payload@, self.expires_at as int)
    }
}

/// The approvals that have not ended.
pub open spec fn live(s: Approvals, now: u64) -> Approvals
    decreases s.len(),
{
    if s.len() == 0 {
        s
    } else if s[0].1.1 > now {
        seq![s[0]] + live(s.drop_first(), now)
    } else {
        live(s.drop_first(), now)
    }
}

/// Whether a write is approved under a token.
pub open spec fn approved(s: Approvals, token: Seq<char>, payload: JsonV, now: u64) -> bool {
    match find(live(s, now), token) {
        Some(a) => json_eq(a.0, payload),
        None => false,
    }
}

/// The approvals with one more.
pub open spec fn registered(
    s: Approvals,
    ttl_secs: nat,
    token: Seq<char>,
    payload: JsonV,
    now: u64,
) -> Approvals {
    put(live(s, now), token, (payload, now + ttl_secs * 1_000_000_000))
}

/// The approvals after one was used up, where the write is approved.
pub open spec fn used_up(s: Approvals, token: Seq<char>, payload: JsonV, now: u64) -> Approvals {
    if approved(s, token, payload, now) {
        without(live(s, now), token)
    } else {
        live(s, now)
    }
}

/// The approvals that were given and not used up.
pub struct ApprovalStore {
    entries: StrMap<Approval>,
    ttl_secs: u64,
}

impl ApprovalStore {
    /// The approvals.
    pub closed spec fn view(&self) -> Approvals {
        each(self.entries@, |a: Approval| a@)
    }

    /// For how many seconds an approval holds.
    pub closed spec fn ttl(&self) -> nat {
        self.ttl_secs as nat
    }

    /// A store without approvals.
    pub fn new(ttl_secs: u64) -> (r: ApprovalStore)
        ensures
            r@ == Seq::<(Seq<char>, ApprovalV)>::empty(),
            r.ttl() == ttl_secs,
    {
        let r = ApprovalStore { entries: StrMap::new(), ttl_secs };
        assert(r@ =~= Seq::<(Seq<char>, ApprovalV)>::empty());
        r
    }

    /// The tokens strictly increase.
    pub fn ordered(&self)
        ensures
            sorted_keys(self@),
    {
        self.entries.ordered();
        assert forall|i: int, j: int| 0 <= i < j < self@.len() implies crate::text::lex_lt(
            #[trigger] self@[i].0,
            #[trigger] self@[j].0,
        ) by {
            assert(self@[i].0 == self.entries@[i].0 && self@[j].0 == self.entries@[j].0);
        }
    }

    /// Drops the approvals that have ended.
    fn sweep(&mut self, now: u64)
        ensures
            final(self)@ == live(old(self)@, now),
            final(self).ttl() == old(self).ttl(),
    {
        let ghost start = self@;
        let mut i: usize = 0;
        assert(start.take(0) + live(start.skip(0), now) =~= live(start, now)) by {
            assert(start.skip(0) =~= start);
        }
        while i < self.entries.len()
            invariant
                i <= self.entries@.len(),
                self@.take(i as int) + live(self@.skip(i as int), now) == live(start, now),
                self.ttl() == old(self).ttl(),
            decreases self.entries@.len() - i,
        {
            let ghost m = self@;
            let ghost rest = m.skip(i as int);
            assert(rest[0] == m[i as int]);
            assert(rest.drop_first() =~= m.skip(i + 1));
            if self.entries.value_at(i).expires_at > now as u128 {
                assert(m.take(i as int) + (seq![m[i as int]] + live(m.skip(i + 1), now)) =~= m.take(
                    i + 1,
                ) + live(m.skip(i + 1), now));
                i = i + 1;
            } else {
                self.entries.remove_at(i);
                assert(self@ =~= m.remove(i as int));
                assert(self@.take(i as int) =~= m.take(i as int));
                assert(self@.skip(i as int) =~= m.skip(i + 1));
            }
        }
        assert(self@.take(i as int) =~= self@);
        assert(self@.skip(i as int) =~= Seq::<(Seq<char>, ApprovalV)>::empty());
        assert(live(self@.skip(i as int), now) =~= Seq::<(Seq<char>, ApprovalV)>::empty());
        assert(self@.take(i as int) + live(self@.skip(i as int), now) =~= self@);
    }

    /// Approves a write under a token.
    pub fn register(&mut self, token: String, payload: Json, now: u64)
        ensures
            final(self)@ == registered(old(self)@, old(self).ttl(), token@, payload@, now),
            final(self).ttl() == old(self).ttl(),
    {
        self.sweep(now);
        let expires_at: u128 = now as u128 + (self.ttl_secs as u128) * 1_000_000_000;
        let a = Approval { payload, expires_at };
        proof {
            lemma_each_put(self.entries@, |a: Approval| a@, token@, a);
        }
        self.entries.insert(token, a);
    }

    /// Whether a write is approved under a token. The approval stays.
    pub fn is_valid(&mut self, token: &str, payload: &Json, now: u64) -> (r: bool)
        ensures
            r == approved(old(self)@, token@, payload@, now),
            final(self)@ == live(old(self)@, now),
            final(self).ttl() == old(self).ttl(),
    {
        self.sweep(now);
        proof {
            lemma_each_find(self.entries@, |a: Approval| a@, token@);
        }
        match self.entries.get(token) {
            Some(a) => a.payload.equals(payload),
            None => false,
        }
    }

    /// Uses an approval up: true once, where the write is approved under the token.
    pub fn consume(&mut self, token: &str, payload: &Json, now: u64) -> (r: bool)
        ensures
            r == approved(old(self)@, token@, payload@, now),
            final(self)@ == used_up(old(self)@, token@, payload@, now),
            final(self).ttl() == old(self).ttl(),
    {
        if self.is_valid(token, payload, now) {
            proof {
                lemma_each_without(self.entries@, |a: Approval| a@, token@);
            }
            self.entries.remove(token);
            true
        } else {
            false
        }
    }
}

/// What has not ended is found as before, what has ended is not.
pub proof fn lemma_live_find(s: Approvals, now: u64, k: Seq<char>)
    requires
        sorted_keys(s),
    ensures
        find(live(s, now), k) == (match find(s, k) {
            Some(a) => if a.1 > now {
                Some(a)
            } else {
                None
            },
            None => None,
        }),
    decreases s.len(),
{
    if s.len() > 0 {
        let t = s.drop_first();
        assert forall|i: int, j: int| 0 <= i < j < t.len() implies crate::text::lex_lt(
            #[trigger] t[i].0,
            #[trigger] t[j].0,
        ) by {
            assert(t[i] == s[i + 1] && t[j] == s[j + 1]);
        }
        lemma_live_find(t, now, k);
        if s[0].1.1 > now {
            assert(live(s, now).drop_first() =~= live(t, now));
        } else if s[0].0 == k {
            assert forall|j: int| 0 <= j < t.len() implies (#[trigger] t[j]).0 != k by {
                assert(t[j] == s[j + 1]);
                assert(crate::text::lex_lt(s[0].0, s[j + 1].0));
                crate::text::lemma_lex_irreflexive(k);
            }
            lemma_find_none(t, k);
        }
    }
}

/// Dropping what has ended keeps the order.
pub proof fn lemma_live_sorted(s: Approvals, now: u64)
    requires
        sorted_keys(s),
    ensures
        sorted_keys(live(s, now)),
    decreases s.len(),
{
    if s.len() > 0 {
        let t = s.drop_first();
        assert forall|i: int, j: int| 0 <= i < j < t.len() implies crate::text::lex_lt(
            #[trigger] t[i].0,
            #[trigger] t[j].0,
        ) by {
            assert(t[i] == s[i + 1] && t[j] == s[j + 1]);
        }
        lemma_live_sorted(t, now);
        let q = live(s, now);
        let l = live(t, now);
        if s[0].1.1 > now {
            assert forall|i: int, j: int| 0 <= i < j < q.len() implies crate::text::lex_lt(
                #[trigger] q[i].0,
                #[trigger] q[j].0,
            ) by {
                assert(q[j] == l[j - 1]);
                if i > 0 {
                    assert(q[i] == l[i - 1]);
                } else {
                    lemma_live_member(t, now, j - 1);
                    let m = choose|m: int| 0 <= m < t.len() && #[trigger] t[m] == l[j - 1];
                    assert(t[m] == s[m + 1]);
                }
            }
        }
    }
}

proof fn lemma_live_member(s: Approvals, now: u64, i: int)
    requires
        0 <= i < live(s, now).len(),
    ensures
        exists|m: int| 0 <= m < s.len() && #[trigger] s[m] == live(s, now)[i],
    decreases s.len(),
{
    let t = s.drop_first();
    let l = live(t, now);
    if s[0].1.1 > now {
        if i == 0 {
            assert(s[0] == live(s, now)[0]);
        } else {
            lemma_live_member(t, now, i - 1);
            let m = choose|m: int| 0 <= m < t.len() && #[trigger] t[m] == l[i - 1];
            assert(s[m + 1] == t[m]);
        }
    } else {
        lemma_live_member(t, now, i);
        let m = choose|m: int| 0 <= m < t.len() && #[trigger] t[m] == l[i];
        assert(s[m + 1] == t[m]);
    }
}

/// A write that was approved can be executed until the approval ends, and not from
/// then on.
pub proof fn approval_holds_until_it_ends(
    s: Approvals,
    ttl_secs: nat,
    token: Seq<char>,
    payload: JsonV,
    at: u64,
    now: u64,
)
    requires
        sorted_keys(s),
    ensures
        approved(registered(s, ttl_secs, token, payload, at), token, payload, now) == (now < at
            + ttl_secs * 1_000_000_000),
{
    let l = live(s, at);
    let a = (payload, at + ttl_secs * 1_000_000_000);
    lemma_live_sorted(s, at);
    crate::strmap::lemma_put_sorted(l, token, a);
    lemma_put_find(l, token, a, token);
    lemma_live_find(put(l, token, a), now, token);
    lemma_json_eq_reflexive(payload);
}

/// An approval can be used once: after that, nothing is approved under its token
/// until something is approved under it anew.
pub proof fn approval_is_single_use(
    s: Approvals,
    token: Seq<char>,
    payload: JsonV,
    now: u64,
    other: JsonV,
    later: u64,
)
    requires
        sorted_keys(s),
        approved(s, token, payload, now),
    ensures
        !approved(used_up(s, token, payload, now), token, other, later),
{
    let l = live(s, now);
    lemma_live_sorted(s, now);
    lemma_without_find(l, token, token);
    lemma_without_sorted(l, token);
    lemma_live_find(without(l, token), later, token);
}

/// Using one approval up leaves every other as it is.
pub proof fn other_approvals_stay(
    s: Approvals,
    token: Seq<char>,
    payload: JsonV,
    now: u64,
    other_token: Seq<char>,
    other: JsonV,
)
    requires
        sorted_keys(s),
        other_token != token,
    ensures
        approved(used_up(s, token, payload, now), other_token, other, now) == approved(
            s,
            other_token,
            other,
            now,
        ),
{
    let l = live(s, now);
    lemma_live_sorted(s, now);
    lemma_live_find(s, now, other_token);
    lemma_live_find(l, now, other_token);
    lemma_without_find(l, token, other_token);
    lemma_without_sorted(l, token);
    lemma_live_find(without(l, token), now, other_token);
}

/// A write for which nothing was registered is not approved.
pub proof fn nothing_is_approved_unasked(
    s: Approvals,
    token: Seq<char>,
    payload: JsonV,
    now: u64,
)
    requires
        sorted_keys(s),
        find(s, token) is None,
    ensures
        !approved(s, token, payload, now),
{
    lemma_live_find(s, now, token);
}

/// An event of the audit log.
pub struct AuditEvent {
    pub event: String,
    pub actor: String,
    pub instance: String,
    pub model: String,
    pub operation: String,
    pub token: String,
    pub ok: bool,
    pub detail: String,
}

/// An event of the audit log.
pub struct AuditV {
    pub event: Seq<char>,
    pub actor: Seq<char>,
    pub instance: Seq<char>,
    pub model: Seq<char>,
    pub operation: Seq<char>,
    pub token: Seq<char>,
    pub ok: bool,
    pub detail: Seq<char>,
}

/// The JSON object of an audit line. Of the token only a digest is written.
pub open spec fn audit_object(ts: Seq<char>, e: AuditV) -> JsonV {
    let o = put(no_members(), "ts"@, JsonV::Str(ts));
    let o = put(o, "event"@, JsonV::Str(e.event));
    let o = put(o, "actor"@, JsonV::Str(e.actor));
    let o = put(o, "instance"@, JsonV::Str(e.instance));
    let o = put(o, "model"@, JsonV::Str(e.model));
    let o = put(o, "operation"@, JsonV::Str(e.operation));
    let o = put(o, "token_digest"@, JsonV::Str(fingerprint_of(e.token, 16)));
    let o = put(o, "ok"@, JsonV::Bool(e.ok));
    JsonV::Obj(put(o, "detail"@, JsonV::Str(e.detail)))
}

impl AuditEvent {
    /// What happened.
    pub open spec fn view(&self) -> AuditV {
        AuditV {
            event: self.event@,
            actor: self.actor@,
            instance: self.instance@,
            model: self.model@,
            operation: self.operation@,
            token: self.token@,
            ok: self.ok,
            detail: self.detail@,
        }
    }

    /// The line of the audit log, for an event at the time `ts`.
    pub fn line(&self, ts: &str) -> (r: String)
        ensures
            r@ == json_text(audit_object(ts@, self@)) + "\n"@,
    {
        let mut o = Object::new();
        o.set("ts", Json::str(ts));
        o.set("event", Json::str(self.event.as_str()));
        o.set("actor", Json::str(self.actor.as_str()));
        o.set("instance", Json::str(self.instance.as_str()));
        o.set("model", Json::str(self.model.as_str()));
        o.set("operation", Json::str(self.operation.as_str()));
        o.set("token_digest", Json::str(token_digest(self.token.as_str()).as_str()));
        o.set("ok", Json::Bool(self.ok));
        o.set("detail", Json::str(self.detail.as_str()));
        cat2(Json::Object(o).to_text().as_str(), "\n")
    }
}

proof fn lemma_audit_names()
    ensures
        "ts"@ != "event"@,
        "ts"@ != "actor"@,
        "ts"@ != "instance"@,
        "ts"@ != "model"@,
        "ts"@ != "operation"@,
        "ts"@ != "token_digest"@,
        "ts"@ != "ok"@,
        "ts"@ != "detail"@,
        "event"@ != "actor"@,
        "event"@ != "instance"@,
        "event"@ != "model"@,
        "event"@ != "operation"@,
        "event"@ != "token_digest"@,
        "event"@ != "ok"@,
        "event"@ != "detail"@,
        "actor"@ != "instance"@,
        "actor"@ != "model"@,
        "actor"@ != "operation"@,
        "actor"@ != "token_digest"@,
        "actor"@ != "ok"@,
        "actor"@ != "detail"@,
        "instance"@ != "model"@,
        "instance"@ != "operation"@,
        "instance"@ != "token_digest"@,
        "instance"@ != "ok"@,
        "instance"@ != "detail"@,
        "model"@ != "operation"@,
        "model"@ != "token_digest"@,
        "model"@ != "ok"@,
        "model"@ != "detail"@,
        "operation"@ != "token_digest"@,
        "operation"@ != "ok"@,
        "operation"@ != "detail"@,
        "token_digest"@ != "ok"@,
        "token_digest"@ != "detail"@,
        "ok"@ != "detail"@,
{
    reveal_strlit("ts");
    reveal_strlit("event");
    reveal_strlit("actor");
    reveal_strlit("instance");
    reveal_strlit("model");
    reveal_strlit("operation");
    reveal_strlit("token_digest");
    reveal_strlit("ok");
    reveal_strlit("detail");
    assert("ts"@.len() == 2);
    assert("event"@.len() == 5);
    assert("actor"@.len() == 5);
    assert("instance"@.len() == 8);
    assert("model"@.len() == 5);
    assert("operation"@.len() == 9);
    assert("token_digest"@.len() == 12);
    assert("ok"@.len() == 2);
    assert("detail"@.len() == 6);
    assert("ts"@[0] != "ok"@[0]);
    assert("event"@[0] != "actor"@[0]);
    assert("event"@[0] != "model"@[0]);
    assert("actor"@[0] != "model"@[0]);
}

/// A line of the audit log says what happened, to whom, where and how it ended; of the token
/// it holds a digest only.
pub proof fn audit_lines_say_what_happened(ts: Seq<char>, e: AuditV)
    ensures
        ({
            let o = audit_object(ts, e);
            &&& o.get("ts"@) == Some(JsonV::Str(ts))
            &&& o.get("event"@) == Some(JsonV::Str(e.event))
            &&& o.get("actor"@) == Some(JsonV::Str(e.actor))
            &&& o.get("instance"@) == Some(JsonV::Str(e.instance))
            &&& o.get("model"@) == Some(JsonV::Str(e.model))
            &&& o.get("operation"@) == Some(JsonV::Str(e.operation))
            &&& o.get("token_digest"@) == Some(JsonV::Str(fingerprint_of(e.token, 16)))
            &&& o.get("ok"@) == Some(JsonV::Bool(e.ok))
            &&& o.get("detail"@) == Some(JsonV::Str(e.detail))
            &&& o.get("token"@) is None
        }),
{
    broadcast use crate::strmap::put_is_found;

    lemma_audit_names();
    reveal_strlit("token");
    reveal_strlit("event");
    reveal_strlit("actor");
    reveal_strlit("model");
    reveal_strlit("token_digest");
    reveal_strlit("ts");
    reveal_strlit("instance");
    reveal_strlit("operation");
    reveal_strlit("ok");
    reveal_strlit("detail");
    assert("token"@[0] == 't' && "event"@[0] == 'e' && "actor"@[0] == 'a' && "model"@[0] == 'm');
    assert("token"@.len() == 5 && "token_digest"@.len() == 12 && "ts"@.len() == 2);
}

/// What is approved under a token is the write that was approved, and no other.
pub proof fn only_the_approved_write_is_approved(
    s: Approvals,
    ttl_secs: nat,
    token: Seq<char>,
    payload: JsonV,
    at: u64,
    now: u64,
    other: JsonV,
)
    requires
        sorted_keys(s),
        !json_eq(payload, other),
    ensures
        !approved(registered(s, ttl_secs, token, payload, at), token, other, now),
{
    lemma_live_sorted(s, at);
    let l = live(s, at);
    let r = registered(s, ttl_secs, token, payload, at);
    crate::strmap::lemma_put_sorted(l, token, (payload, at + ttl_secs * 1_000_000_000));
    lemma_put_find(l, token, (payload, at + ttl_secs * 1_000_000_000), token);
    lemma_live_find(r, now, token);
}

/// A token begins with `sap-write:`, and is made of the write alone.
pub proof fn tokens_are_made_of_the_write(payload: JsonV)
    ensures
        token_of(payload) == "sap-write:"@ + fingerprint_of(json_text(canon(payload)), 32),
{
}

} // verus!
