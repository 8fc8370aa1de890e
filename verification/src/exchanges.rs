//! What is sent to a SAP system for a call, and what its answers come to.

use vstd::prelude::*;
use vstd::string::*;
use crate::config::odata_name;
use crate::edmx::{edmx_outcome, xml_events, EdmxV};
use crate::json::{json_parse, JsonV, NumV};
use crate::numeral::dec_int;
use crate::odata::{basic_auth, normalized, odata_message, url_of, Pairs};
use crate::sap_client::{answered, backoff, begun, given, job_of, next_of, query_params, replied, token_came, tried, write_begun, write_request, write_sent, CallV, ClientV, ExchangeV, HttpReplyV, JobV, OutcomeV, ProgressV, PurposeV, QueryV, TokenReplyV};
use crate::strmap::put_is_found;
use crate::text::{lowercase, trimmed};

verus! {

proof fn lemma_auth_names()
    ensures
        "basic"@ != "bearer"@,
        "basic"@ != "oauth2"@,
        "bearer"@ != "oauth2"@,
{
    reveal_strlit("basic");
    reveal_strlit("bearer");
    reveal_strlit("oauth2");
    assert("basic"@.len() == 5);
    assert("bearer"@.len() == 6);
    assert("oauth2"@.len() == 6);
    assert("bearer"@[0] != "oauth2"@[0]);
}

/// A request goes out as it was asked for: with its method, its address, its body and every
/// one of its headers, and for JSON.
pub proof fn requests_go_out_as_asked(cl: ClientV, ex: ExchangeV, now: u64, i: int)
    requires
        tried(cl, ex, now) is Send,
    ensures
        tried(cl, ex, now) matches ProgressV::Send { request, next } && next == ex && request.method
            == ex.request.method && request.url == ex.request.url && request.body
            == ex.request.body && request.headers.contains(("Accept"@, "application/json"@)) && (0
            <= i < ex.request.headers.len() ==> request.headers.contains(ex.request.headers[i])),
{
    if let ProgressV::Send { request, .. } = tried(cl, ex, now) {
        assert(request.headers[0] == ("Accept"@, "application/json"@));
        let n = request.headers.len() - ex.request.headers.len();
        if 0 <= i < ex.request.headers.len() {
            assert(request.headers[n + i] == ex.request.headers[i]);
        }
    }
}

/// A request carries the authorization of its system: name and password, the token of the
/// settings, or the access token that is still good, by the kind of authentication.
pub proof fn requests_carry_their_authorization(cl: ClientV, ex: ExchangeV, now: u64, t: Seq<char>)
    ensures
        basic_auth(cl.cfg) matches Some(b) ==> (tried(cl, ex, now) matches ProgressV::Send {
            request,
            ..
        } && request.headers.contains(("Authorization"@, b))),
        lowercase(cl.cfg.auth_type) == "bearer"@ && cl.cfg.token == Some(t) && trimmed(t).len() > 0
            ==> (tried(cl, ex, now) matches ProgressV::Send { request, .. }
            && request.headers.contains(("Authorization"@, "Bearer "@ + t))),
        lowercase(cl.cfg.auth_type) == "oauth2"@ && cl.oauth_now(now) == Some(t) ==> (tried(
            cl,
            ex,
            now,
        ) matches ProgressV::Send { request, .. } && request.headers.contains(
            ("Authorization"@, "Bearer "@ + t),
        )),
        lowercase(cl.cfg.auth_type) == "oauth2"@ && cl.oauth_now(now) is None ==> tried(cl, ex, now) is FetchToken,
        lowercase(cl.cfg.auth_type) != "oauth2"@ ==> tried(cl, ex, now) is Send,
{
    lemma_auth_names();
    if let ProgressV::Send { request, .. } = tried(cl, ex, now) {
        if request.headers.len() > ex.request.headers.len() + 1 {
            let h = request.headers[1];
            assert(request.headers.contains(h));
        }
    }
}

/// An access token is asked for at the address of the settings, with the client's identifier
/// and secret, and the scope where there is one.
pub proof fn access_tokens_are_asked_for(cl: ClientV, ex: ExchangeV, now: u64)
    ensures
        tried(cl, ex, now) matches ProgressV::FetchToken { url, form, next } ==> next == ex && (
        cl.cfg.oauth_token_url matches Some(u) ==> url == u) && form.contains(
            ("grant_type"@, "client_credentials"@),
        ) && (cl.cfg.oauth_client_id matches Some(c) ==> form.contains(("client_id"@, c))) && (
        cl.cfg.oauth_client_secret matches Some(s) ==> form.contains(("client_secret"@, s))) && (
        cl.cfg.oauth_scope matches Some(s) ==> form.contains(("scope"@, s))),
{
    if let ProgressV::FetchToken { form, .. } = tried(cl, ex, now) {
        assert(form.contains(form[0]));
        assert(form.contains(form[1]));
        assert(form.contains(form[2]));
        if form.len() > 3 {
            assert(form.contains(form[3]));
        }
    }
}

/// An access token that came is used from then on, and the request that waited for it goes
/// out with it. It is used for a minute less than it is good for, and for at least a minute.
pub proof fn access_tokens_are_used(
    cl: ClientV,
    ex: ExchangeV,
    status: u16,
    words: Seq<char>,
    text: Seq<char>,
    v: JsonV,
    t: Seq<char>,
    now: u64,
    later: u64,
)
    requires
        200 <= status <= 299,
        json_parse(text) == Ok::<JsonV, Seq<char>>(v),
        v.get("access_token"@) == Some(JsonV::Str(t)),
        now <= later,
    ensures
        ({
            let r = token_came(
                cl,
                ex,
                TokenReplyV::Answer { status, status_text: words, text: Some(text) },
                now,
            );
            &&& r.1 matches ProgressV::Send { request, next } && next == ex && request.method
                == ex.request.method && request.url == ex.request.url && request.body
                == ex.request.body && request.headers.contains(("Authorization"@, "Bearer "@ + t))
            &&& r.0.cfg == cl.cfg && r.0.csrf == cl.csrf
            &&& later < now + 60_000_000_000 ==> r.0.oauth_now(later) == Some(t)
            &&& v.get("expires_in"@) matches Some(JsonV::Num(NumV::Pos(n))) ==> (n >= 120 ==> (
            r.0.oauth_now(later) == Some(t) <==> later < now + (n - 60) * 1_000_000_000)
                && (later >= now + (n - 60) * 1_000_000_000 ==> r.0.oauth_now(later) is None))
            &&& v.get("expires_in"@) is None ==> (later < now + 3_540_000_000_000 ==> r.0.oauth_now(
                later,
            ) == Some(t)) && (later >= now + 3_540_000_000_000 ==> r.0.oauth_now(later) is None)
        }),
{
    let r = token_came(
        cl,
        ex,
        TokenReplyV::Answer { status, status_text: words, text: Some(text) },
        now,
    );
    if let ProgressV::Send { request, .. } = r.1 {
        assert(request.headers[1] == ("Authorization"@, "Bearer "@ + t));
    }
}

/// Where no access token comes, the call fails, and nothing is kept.
pub proof fn refused_access_ends_the_call(
    cl: ClientV,
    ex: ExchangeV,
    status: u16,
    words: Seq<char>,
    text: Option<Seq<char>>,
    now: u64,
)
    requires
        !(200 <= status <= 299),
        !(ex.purpose is Health),
    ensures
        token_came(cl, ex, TokenReplyV::Answer { status, status_text: words, text }, now) == (
            cl,
            ProgressV::Done(OutcomeV::Failed("oauth token http "@ + words)),
        ),
        token_came(cl, ex, TokenReplyV::Unreachable, now) == (
            cl,
            ProgressV::Done(OutcomeV::Failed("oauth token request"@)),
        ),
{
}

/// Whether the pairs of a query name an option exactly once, with a value.
pub open spec fn option_is(p: Pairs, name: Seq<char>, value: Seq<char>) -> bool {
    &&& p.contains((name, value))
    &&& forall|i: int| 0 <= i < p.len() && (#[trigger] p[i]).0 == name ==> p[i].1 == value
}

/// Whether the pairs of a query do not name an option.
pub open spec fn option_absent(p: Pairs, name: Seq<char>) -> bool {
    forall|i: int| 0 <= i < p.len() ==> (#[trigger] p[i]).0 != name
}

proof fn lemma_option_names()
    ensures
        "$filter"@ != "$select"@,
        "$filter"@ != "$expand"@,
        "$filter"@ != "$orderby"@,
        "$filter"@ != "$top"@,
        "$filter"@ != "$skip"@,
        "$filter"@ != "$count"@,
        "$filter"@ != "$inlinecount"@,
        "$select"@ != "$expand"@,
        "$select"@ != "$orderby"@,
        "$select"@ != "$top"@,
        "$select"@ != "$skip"@,
        "$select"@ != "$count"@,
        "$select"@ != "$inlinecount"@,
        "$expand"@ != "$orderby"@,
        "$expand"@ != "$top"@,
        "$expand"@ != "$skip"@,
        "$expand"@ != "$count"@,
        "$expand"@ != "$inlinecount"@,
        "$orderby"@ != "$top"@,
        "$orderby"@ != "$skip"@,
        "$orderby"@ != "$count"@,
        "$orderby"@ != "$inlinecount"@,
        "$top"@ != "$skip"@,
        "$top"@ != "$count"@,
        "$top"@ != "$inlinecount"@,
        "$skip"@ != "$count"@,
        "$skip"@ != "$inlinecount"@,
        "$count"@ != "$inlinecount"@,
{
    reveal_strlit("$filter");
    reveal_strlit("$select");
    reveal_strlit("$expand");
    reveal_strlit("$orderby");
    reveal_strlit("$top");
    reveal_strlit("$skip");
    reveal_strlit("$count");
    reveal_strlit("$inlinecount");
    assert("$filter"@.len() == 7);
    assert("$select"@.len() == 7);
    assert("$expand"@.len() == 7);
    assert("$orderby"@.len() == 8);
    assert("$top"@.len() == 4);
    assert("$skip"@.len() == 5);
    assert("$count"@.len() == 6);
    assert("$inlinecount"@.len() == 12);
    assert("$filter"@[1] != "$select"@[1]);
    assert("$filter"@[1] != "$expand"@[1]);
    assert("$select"@[1] != "$expand"@[1]);
}

/// A query asks for what it was told to: each option with its value, where it was given, and
/// not at all where it was not; always for a page size; for an offset where there is one; and
/// for the total in the way of the version.
pub proof fn queries_ask_for_what_was_given(v4: bool, q: QueryV)
    ensures
        ({
            let p = query_params(v4, q);
            &&& q.filter matches Some(x) ==> option_is(p, "$filter"@, x)
            &&& q.filter is None ==> option_absent(p, "$filter"@)
            &&& q.select matches Some(x) ==> option_is(p, "$select"@, x)
            &&& q.select is None ==> option_absent(p, "$select"@)
            &&& q.expand matches Some(x) ==> option_is(p, "$expand"@, x)
            &&& q.expand is None ==> option_absent(p, "$expand"@)
            &&& q.orderby matches Some(x) ==> option_is(p, "$orderby"@, x)
            &&& q.orderby is None ==> option_absent(p, "$orderby"@)
            &&& option_is(p, "$top"@, dec_int(q.top as int))
            &&& q.skip > 0 ==> option_is(p, "$skip"@, dec_int(q.skip as int))
            &&& q.skip <= 0 ==> option_absent(p, "$skip"@)
            &&& q.count && v4 ==> option_is(p, "$count"@, "true"@)
            &&& q.count && !v4 ==> option_is(p, "$inlinecount"@, "allpages"@)
            &&& !q.count || !v4 ==> option_absent(p, "$count"@)
            &&& !q.count || v4 ==> option_absent(p, "$inlinecount"@)
        }),
{
    lemma_option_names();
    let f = given("$filter"@, q.filter);
    let s = given("$select"@, q.select);
    let e = given("$expand"@, q.expand);
    let o = given("$orderby"@, q.orderby);
    let t = seq![("$top"@, dec_int(q.top as int))];
    let k = if q.skip > 0 {
        seq![("$skip"@, dec_int(q.skip as int))]
    } else {
        Seq::empty()
    };
    let c = if q.count {
        if v4 {
            seq![("$count"@, "true"@)]
        } else {
            seq![("$inlinecount"@, "allpages"@)]
        }
    } else {
        Seq::empty()
    };
    lemma_one("$filter"@, q.filter);
    lemma_one("$select"@, q.select);
    lemma_one("$expand"@, q.expand);
    lemma_one("$orderby"@, q.orderby);
    lemma_one("$top"@, Some(dec_int(q.top as int)));
    lemma_one("$skip"@, Some(dec_int(q.skip as int)));
    lemma_one("$skip"@, None);
    lemma_one("$count"@, Some("true"@));
    lemma_one("$inlinecount"@, Some("allpages"@));
    lemma_sum(f, s);
    lemma_sum(f + s, e);
    lemma_sum(f + s + e, o);
    lemma_sum(f + s + e + o, t);
    lemma_sum(f + s + e + o + t, k);
    lemma_sum(f + s + e + o + t + k, c);
}

proof fn lemma_one(name: Seq<char>, value: Option<Seq<char>>)
    ensures
        value matches Some(v) ==> option_is(given(name, value), name, v) && given(name, value)
            == seq![(name, v)],
        value is None ==> given(name, value) == Seq::<(Seq<char>, Seq<char>)>::empty(),
        forall|n: Seq<char>| n != name || value is None ==> #[trigger] option_absent(
            given(name, value),
            n,
        ),
{
    if let Some(v) = value {
        let p = given(name, value);
        assert(p[0] == (name, v));
        assert(p.contains(p[0]));
    }
}

proof fn lemma_sum(a: Pairs, b: Pairs)
    ensures
        forall|n: Seq<char>| #[trigger]
            option_absent(a + b, n) <==> option_absent(a, n) && option_absent(b, n),
        forall|n: Seq<char>, v: Seq<char>|
            option_is(a, n, v) && option_absent(b, n) ==> #[trigger] option_is(a + b, n, v),
        forall|n: Seq<char>, v: Seq<char>|
            option_absent(a, n) && option_is(b, n, v) ==> #[trigger] option_is(a + b, n, v),
{
    let s = a + b;
    assert forall|n: Seq<char>| #[trigger]
        option_absent(s, n) <==> option_absent(a, n) && option_absent(b, n) by {
        if option_absent(s, n) {
            assert forall|i: int| 0 <= i < a.len() implies (#[trigger] a[i]).0 != n by {
                assert(s[i] == a[i]);
            }
            assert forall|i: int| 0 <= i < b.len() implies (#[trigger] b[i]).0 != n by {
                assert(s[a.len() + i] == b[i]);
            }
        }
    }
    assert forall|n: Seq<char>, v: Seq<char>| option_is(a, n, v) && option_absent(b, n) implies #[trigger] option_is(
        s,
        n,
        v,
    ) by {
        let i = choose|i: int| 0 <= i < a.len() && a[i] == (n, v);
        assert(s[i] == (n, v));
        assert forall|k: int| 0 <= k < s.len() && (#[trigger] s[k]).0 == n implies s[k].1 == v by {
            if k < a.len() {
                assert(a[k] == s[k]);
            } else {
                assert(b[k - a.len()] == s[k]);
            }
        }
    }
    assert forall|n: Seq<char>, v: Seq<char>| option_absent(a, n) && option_is(b, n, v) implies #[trigger] option_is(
        s,
        n,
        v,
    ) by {
        let i = choose|i: int| 0 <= i < b.len() && b[i] == (n, v);
        assert(s[a.len() + i] == (n, v));
        assert forall|k: int| 0 <= k < s.len() && (#[trigger] s[k]).0 == n implies s[k].1 == v by {
            if k < a.len() {
                assert(a[k] == s[k]);
            } else {
                assert(b[k - a.len()] == s[k]);
            }
        }
    }
}

/// A read goes, by GET and without a body, to the entity set below the address of its
/// service, or to the entity of its key there, with the query that it asks for.
pub proof fn reads_go_to_their_entity(
    cl: ClientV,
    q: QueryV,
    root: Seq<char>,
    key: Seq<char>,
    now: u64,
)
    requires
        odata_name(q.entity_set),
        cl.cfg.root(q.service) == Ok::<Seq<char>, Seq<char>>(root),
        q.key_segment is None || (q.key_segment == Some(key) && vstd::utf8::encode_utf8(key).len()
            <= 1024 && !key.contains('\n') && !key.contains('\r')),
    ensures
        next_of(begun(cl, CallV::Query(q), now)) matches Some(ex) && ex.purpose is Query
            && ex.request.method == "GET"@ && ex.request.body is None && ex.attempt == 0 && ex.max
            == cl.cfg.max_retries && (q.key_segment is None ==> ex.request.url == url_of(
            cl.cfg,
            root + seq!['/'] + q.entity_set,
            query_params(cl.cfg.v4(), q),
        )) && (q.key_segment is Some ==> ex.request.url == url_of(
            cl.cfg,
            root + seq!['/'] + q.entity_set + seq!['('] + key + seq![')'],
            query_params(cl.cfg.v4(), q),
        )),
{
    lemma_marks();
}

proof fn lemma_marks()
    ensures
        "/"@ == seq!['/'],
        "("@ == seq!['('],
        ")"@ == seq![')'],
{
    reveal_strlit("/");
    reveal_strlit("(");
    reveal_strlit(")");
    assert("/"@ =~= seq!['/']);
    assert("("@ =~= seq!['(']);
    assert(")"@ =~= seq![')']);
}

/// Metadata is asked for at `$metadata` below the address of its service, as XML.
pub proof fn metadata_is_asked_for_below_the_service(
    cl: ClientV,
    service: Option<Seq<char>>,
    root: Seq<char>,
    now: u64,
)
    requires
        cl.cfg.root(service) == Ok::<Seq<char>, Seq<char>>(root),
    ensures
        next_of(begun(cl, CallV::Metadata { service }, now)) matches Some(ex) && ex.purpose is Metadata
            && ex.request.method == "GET"@ && ex.request.body is None && ex.request.url == url_of(
            cl.cfg,
            root + "/$metadata"@,
            Seq::empty(),
        ) && ex.request.headers.contains(("Accept"@, "application/xml"@)) && ex.max
            == cl.cfg.max_retries,
{
    let h = seq![("Accept"@, "application/xml"@)];
    assert(h[0] == ("Accept"@, "application/xml"@));
    assert(h.contains(h[0]));
}

/// A new entity is posted to its set with its body; a change goes to the entity of its key
/// with its body, by MERGE in the second version and by PATCH in the fourth; an end goes to the
/// entity of its key by DELETE. A change or an end is for the version that is named, or for any.
pub proof fn writes_become_requests(
    cl: ClientV,
    service: Option<Seq<char>>,
    root: Seq<char>,
    set: Seq<char>,
    key: Seq<char>,
    body: JsonV,
    etag: Option<Seq<char>>,
    now: u64,
)
    requires
        odata_name(set),
        cl.cfg.root(service) == Ok::<Seq<char>, Seq<char>>(root),
    ensures
        ({
            let at_set = url_of(cl.cfg, root + seq!['/'] + set, Seq::empty());
            let at_key = url_of(
                cl.cfg,
                root + seq!['/'] + set + seq!['('] + key + seq![')'],
                Seq::empty(),
            );
            let c = next_of(begun(cl, CallV::Create { service, entity_set: set, body }, now));
            let u = next_of(
                begun(
                    cl,
                    CallV::Update { service, entity_set: set, key_segment: key, body, etag },
                    now,
                ),
            );
            let d = next_of(
                begun(cl, CallV::Delete { service, entity_set: set, key_segment: key, etag }, now),
            );
            let version = match etag {
                Some(e) => e,
                None => "*"@,
            };
            &&& c is Some && (job_of(c->0) matches Some(j) && j.method == "POST"@ && j.url == at_set
                && j.body == Some(body) && j.if_match is None && j.keeps_answer && j.root == root)
            &&& u is Some && (job_of(u->0) matches Some(j) && j.method == (if cl.cfg.v4() {
                "PATCH"@
            } else {
                "MERGE"@
            }) && j.url == at_key && j.body == Some(body) && j.if_match == Some(version) && j.root
                == root)
            &&& d is Some && (job_of(d->0) matches Some(j) && j.method == "DELETE"@ && j.url
                == at_key && j.body is None && j.if_match == Some(version) && j.root == root)
        }),
{
    lemma_marks();
}

/// A write is sent with its method, address and body, for the version that it names, and with
/// the token for writes.
pub proof fn writes_are_sent_whole(cl: ClientV, job: JobV, refreshed: bool, csrf: Seq<char>, now: u64)
    ensures
        write_request(job, csrf).method == job.method,
        write_request(job, csrf).url == job.url,
        write_request(job, csrf).body == job.body,
        job.if_match matches Some(e) ==> write_request(job, csrf).headers.contains(
            ("If-Match"@, e),
        ),
        csrf.len() > 0 ==> write_request(job, csrf).headers.contains(("X-CSRF-Token"@, csrf)),
        next_of(write_sent(cl, job, refreshed, csrf, now)) matches Some(ex) && ex.request
            == write_request(job, csrf) && ex.purpose == (PurposeV::Write { job, refreshed })
            && ex.max == 0,
        cl.csrf_now(now) matches Some(t) ==> write_begun(cl, job, refreshed, now) == write_sent(
            cl,
            job,
            refreshed,
            t,
            now,
        ),
        cl.csrf_now(now) is None && cl.cfg.v4() ==> write_begun(cl, job, refreshed, now)
            == write_sent(cl, job, refreshed, Seq::empty(), now),
        cl.csrf_now(now) is None && !cl.cfg.v4() ==> (next_of(write_begun(cl, job, refreshed, now)) matches Some(
            ex,
        ) && ex.purpose == (PurposeV::Csrf { job, refreshed }) && ex.request.method == "GET"@
            && ex.request.url == url_of(cl.cfg, job.root, Seq::empty()) && ex.request.body is None
            && ex.request.headers.contains(("X-CSRF-Token"@, "Fetch"@))),
{
    reveal_strlit("");
    assert(""@ =~= Seq::<char>::empty());
    let h = write_request(job, csrf).headers;
    if h.len() > 0 {
        assert(h.contains(h[0]));
        assert(h.contains(h[h.len() - 1]));
    }
    let f = seq![("X-CSRF-Token"@, "Fetch"@)];
    assert(f.contains(f[0]));
}

/// The token for writes that an answer brings is kept, for twenty minutes, and the write that
/// waited for it is sent with it.
pub proof fn write_tokens_are_kept(
    cl: ClientV,
    job: JobV,
    refreshed: bool,
    status: u16,
    text: Seq<char>,
    t: Seq<char>,
    now: u64,
    later: u64,
)
    requires
        t.len() > 0,
        now <= later,
    ensures
        ({
            let r = answered(cl, PurposeV::Csrf { job, refreshed }, status, text, Some(t), now);
            &&& r.1 == write_sent(r.0, job, refreshed, t, now)
            &&& r.0.cfg == cl.cfg && r.0.oauth == cl.oauth
            &&& later - now < 1_200_000_000_000 ==> r.0.csrf_now(later) == Some(t)
            &&& later - now >= 1_200_000_000_000 ==> r.0.csrf_now(later) is None
        }),
{
}

/// What an answer to a read comes to: the records of its JSON where it succeeded, and the
/// error that it reports where it did not.
pub proof fn read_answers_come_to_their_records(
    cl: ClientV,
    status: u16,
    text: Seq<char>,
    csrf: Option<Seq<char>>,
    v: JsonV,
    m: Seq<char>,
    now: u64,
)
    ensures
        200 <= status <= 299 && json_parse(text) == Ok::<JsonV, Seq<char>>(v) ==> answered(
            cl,
            PurposeV::Query,
            status,
            text,
            csrf,
            now,
        ) == (cl, ProgressV::Done(OutcomeV::Value(normalized(v)))),
        200 <= status <= 299 && json_parse(text) is Err ==> answered(
            cl,
            PurposeV::Query,
            status,
            text,
            csrf,
            now,
        ) == (cl, ProgressV::Done(OutcomeV::Value(normalized(JsonV::Str(text))))),
        !(200 <= status <= 299) && odata_message(text) == Some(m) ==> answered(
            cl,
            PurposeV::Query,
            status,
            text,
            csrf,
            now,
        ) == (cl, ProgressV::Done(OutcomeV::Failed(m))),
{
}

/// What an answer to a request for metadata comes to.
pub proof fn metadata_answers_come_to_their_document(
    cl: ClientV,
    status: u16,
    text: Seq<char>,
    csrf: Option<Seq<char>>,
    m: Seq<char>,
    now: u64,
)
    ensures
        200 <= status <= 299 ==> (edmx_outcome(EdmxV::start(), xml_events(text)) matches Ok(v)
            ==> answered(cl, PurposeV::Metadata, status, text, csrf, now) == (
            cl,
            ProgressV::Done(OutcomeV::Value(v)),
        )),
        200 <= status <= 299 ==> (edmx_outcome(EdmxV::start(), xml_events(text)) matches Err(e)
            ==> answered(cl, PurposeV::Metadata, status, text, csrf, now) == (
            cl,
            ProgressV::Done(OutcomeV::Failed(e)),
        )),
        !(200 <= status <= 299) && odata_message(text) == Some(m) ==> answered(
            cl,
            PurposeV::Metadata,
            status,
            text,
            csrf,
            now,
        ) == (cl, ProgressV::Done(OutcomeV::Failed(m))),
{
}

/// What an answer to a write comes to: the entity that was created, an acknowledgement, or the
/// error that it reports. Of answers only a refusal of the token leads to another request.
pub proof fn write_answers_come_to_their_result(
    cl: ClientV,
    job: JobV,
    refreshed: bool,
    status: u16,
    text: Seq<char>,
    csrf: Option<Seq<char>>,
    v: JsonV,
    m: Seq<char>,
    now: u64,
)
    ensures
        200 <= status <= 299 && job.keeps_answer && json_parse(text) == Ok::<JsonV, Seq<char>>(v)
            ==> answered(cl, PurposeV::Write { job, refreshed }, status, text, csrf, now) == (
            cl,
            ProgressV::Done(OutcomeV::Value(v)),
        ),
        200 <= status <= 299 && (!job.keeps_answer || json_parse(text) is Err) ==> (answered(
            cl,
            PurposeV::Write { job, refreshed },
            status,
            text,
            csrf,
            now,
        ).1 matches ProgressV::Done(OutcomeV::Value(a)) && a.get("success"@) == Some(
            JsonV::Bool(true),
        )),
        !(200 <= status <= 299) && (status != 403 || refreshed || cl.cfg.v4()) && odata_message(
            text,
        ) == Some(m) ==> answered(
            cl,
            PurposeV::Write { job, refreshed },
            status,
            text,
            csrf,
            now,
        ) == (cl, ProgressV::Done(OutcomeV::Failed(m))),
        status == 403 && !refreshed && !cl.cfg.v4() ==> answered(
            cl,
            PurposeV::Write { job, refreshed },
            status,
            text,
            csrf,
            now,
        ) == (
            ClientV { csrf: None, ..cl },
            write_begun(ClientV { csrf: None, ..cl }, job, true, now),
        ),
{
    broadcast use put_is_found;

}

/// A read is tried again where no answer came, or one that says that the system is too busy or
/// in trouble, as often as the settings allow, each time after a longer wait; any other answer
/// is the last.
pub proof fn troubled_reads_are_tried_again(
    cl: ClientV,
    ex: ExchangeV,
    status: u16,
    text: Seq<char>,
    csrf: Option<Seq<char>>,
    e: Seq<char>,
    now: u64,
)
    ensures
        ({
            let again = ProgressV::Sleep {
                ms: backoff((ex.attempt + 1) as u32),
                next: ExchangeV { attempt: (ex.attempt + 1) as u32, ..ex },
            };
            let a = HttpReplyV::Answer { status, text, csrf };
            &&& ex.attempt < ex.max ==> replied(cl, ex, HttpReplyV::Unreachable(e), now) == (
                cl,
                again,
            )
            &&& ex.attempt < ex.max && (status == 429 || 500 <= status <= 599) ==> replied(
                cl,
                ex,
                a,
                now,
            ) == (cl, again)
            &&& ex.attempt >= ex.max || !(status == 429 || 500 <= status <= 599) ==> replied(
                cl,
                ex,
                a,
                now,
            ) == answered(cl, ex.purpose, status, text, csrf, now)
            &&& ex.attempt >= ex.max && !(ex.purpose is Health) ==> replied(
                cl,
                ex,
                HttpReplyV::Unreachable(e),
                now,
            ) == (cl, ProgressV::Done(OutcomeV::Failed("http error: "@ + e)))
        }),
{
}

/// The waits grow: half a second before the second try, twice as long before each further
/// one, and sixteen seconds at most.
pub proof fn waits_grow(n: u32)
    requires
        n > 0,
    ensures
        backoff(1) == 500,
        n < 6 ==> backoff((n + 1) as u32) == 2 * backoff(n),
        n >= 6 ==> backoff(n) == 16000,
{
    vstd::arithmetic::power2::lemma2_to64();
    if n < 6 {
        vstd::arithmetic::power2::lemma_pow2_adds(n as nat, 1);
    }
}

/// A system is in reach if it answers with anything but a server's error or that there is
/// nothing.
pub proof fn answers_show_reach(
    cl: ClientV,
    status: u16,
    text: Seq<char>,
    csrf: Option<Seq<char>>,
    now: u64,
)
    ensures
        answered(cl, PurposeV::Health, status, text, csrf, now).1 == ProgressV::Done(
            OutcomeV::Value(JsonV::Bool(200 <= status <= 499 && status != 404)),
        ),
{
}

/// A call on an entity set whose name is none, or of a service that there is not, sends
/// nothing.
pub proof fn wrong_addresses_send_nothing(
    cl: ClientV,
    service: Option<Seq<char>>,
    set: Seq<char>,
    key: Seq<char>,
    body: JsonV,
    etag: Option<Seq<char>>,
    q: QueryV,
    now: u64,
)
    requires
        q.service == service,
        q.entity_set == set,
        !odata_name(set) || cl.cfg.root(service) is Err,
    ensures
        begun(cl, CallV::Query(q), now) is Done,
        begun(cl, CallV::Create { service, entity_set: set, body }, now) is Done,
        begun(cl, CallV::Update { service, entity_set: set, key_segment: key, body, etag }, now) is Done,
        begun(cl, CallV::Delete { service, entity_set: set, key_segment: key, etag }, now) is Done,
        cl.cfg.root(service) is Err ==> begun(cl, CallV::Metadata { service }, now) is Done,
{
}

} // verus!
