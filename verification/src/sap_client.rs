//! The client of one SAP system: which requests a call comes to, and what is made of
//! their answers.
//!
//! A call is an exchange. `SapClient::begin` starts it, and every answer is handed to
//! `on_token`, `on_reply` or `on_wake`; each says what has to be done next, until the
//! exchange is done. Reads are tried again when the system is busy or cannot be
//! reached. Writes never are: a write may have been carried out though its answer was
//! lost. Only where the system refuses the token that protects writes, which it does
//! before it carries anything out, is a new token fetched and the write sent once more.

use vstd::prelude::*;
use vstd::string::*;
use vstd::arithmetic::power2::{lemma2_to64, pow2};
use vstd::utf8::encode_utf8;
use crate::config::{byte_len, odata_name, opt_slice, valid_odata_name, ConfigV, SapInstanceConfig};
use crate::edmx::{edmx_outcome, parse_edmx, xml_events, EdmxV};
use crate::json::{json_parse, no_members, Json, JsonV, Object};
use crate::numeral::{dec_i64, dec_int};
use crate::odata::{basic_auth, basic_header, copy_pairs, no_pairs, normalize_collection, normalized, odata_error, odata_message, pairs_of, push_pair, url_of, url_with_params, Pairs};
use crate::strmap::put;
use crate::tenant::elapsed;
use crate::text::{cat2, cat3, contains_char, lower, lowercase, opt_text, same, trim, trimmed};

verus! {

/// What a system is asked for.
pub enum ClientCall {
    /// The metadata of a service.
    Metadata { service: Option<String> },
    /// Entities, or one entity where a key is given.
    Query(QueryCall),
    /// A new entity.
    Create { service: Option<String>, entity_set: String, body: Json },
    /// A change of an entity.
    Update {
        service: Option<String>,
        entity_set: String,
        key_segment: String,
        body: Json,
        etag: Option<String>,
    },
    /// The end of an entity.
    Delete {
        service: Option<String>,
        entity_set: String,
        key_segment: String,
        etag: Option<String>,
    },
    /// Whether the system answers.
    Health,
}

/// Which entities are asked for.
pub struct QueryCall {
    pub service: Option<String>,
    pub entity_set: String,
    pub key_segment: Option<String>,
    pub filter: Option<String>,
    pub select: Option<String>,
    pub expand: Option<String>,
    pub orderby: Option<String>,
    pub top: i64,
    pub skip: i64,
    pub count: bool,
}

/// Which entities are asked for.
pub struct QueryV {
    pub service: Option<Seq<char>>,
    pub entity_set: Seq<char>,
    pub key_segment: Option<Seq<char>>,
    pub filter: Option<Seq<char>>,
    pub select: Option<Seq<char>>,
    pub expand: Option<Seq<char>>,
    pub orderby: Option<Seq<char>>,
    pub top: i64,
    pub skip: i64,
    pub count: bool,
}

/// What a system is asked for.
pub enum CallV {
    Metadata { service: Option<Seq<char>> },
    Query(QueryV),
    Create { service: Option<Seq<char>>, entity_set: Seq<char>, body: JsonV },
    Update {
        service: Option<Seq<char>>,
        entity_set: Seq<char>,
        key_segment: Seq<char>,
        body: JsonV,
        etag: Option<Seq<char>>,
    },
    Delete {
        service: Option<Seq<char>>,
        entity_set: Seq<char>,
        key_segment: Seq<char>,
        etag: Option<Seq<char>>,
    },
    Health,
}

impl QueryCall {
    /// What is asked for.
    pub open spec fn view(&self) -> QueryV {
        QueryV {
            service: opt_text(self.service),
            entity_set: self.entity_set@,
            key_segment: opt_text(self.key_segment),
            filter: opt_text(self.filter),
            select: opt_text(self.select),
            expand: opt_text(self.expand),
            orderby: opt_text(self.orderby),
            top: self.top,
            skip: self.skip,
            count: self.count,
        }
    }
}

impl ClientCall {
    /// What is asked for.
    pub open spec fn view(&self) -> CallV {
        match self {
            ClientCall::Metadata { service } => CallV::Metadata { service: opt_text(*service) },
            ClientCall::Query(q) => CallV::Query(q@),
            ClientCall::Create { service, entity_set, body } => CallV::Create {
                service: opt_text(*service),
                entity_set: entity_set@,
                body: body@,
            },
            ClientCall::Update { service, entity_set, key_segment, body, etag } => CallV::Update {
                service: opt_text(*service),
                entity_set: entity_set@,
                key_segment: key_segment@,
                body: body@,
                etag: opt_text(*etag),
            },
            ClientCall::Delete { service, entity_set, key_segment, etag } => CallV::Delete {
                service: opt_text(*service),
                entity_set: entity_set@,
                key_segment: key_segment@,
                etag: opt_text(*etag),
            },
            ClientCall::Health => CallV::Health,
        }
    }
}

/// A request.
pub struct HttpRequest {
    pub method: String,
    pub url: String,
    pub headers: Vec<(String, String)>,
    pub body: Option<Json>,
}

/// A request.
#[verifier::ext_equal]
pub struct HttpV {
    pub method: Seq<char>,
    pub url: Seq<char>,
    pub headers: Pairs,
    pub body: Option<JsonV>,
}

/// What an optional value is.
pub open spec fn opt_value(o: Option<Json>) -> Option<JsonV> {
    match o {
        Some(v) => Some(v@),
        None => None,
    }
}

fn copy_value(o: &Option<Json>) -> (r: Option<Json>)
    ensures
        opt_value(r) == opt_value(*o),
{
    match o {
        Some(v) => Some(v.copy()),
        None => None,
    }
}

impl HttpRequest {
    /// What the request is.
    pub open spec fn view(&self) -> HttpV {
        HttpV {
            method: self.method@,
            url: self.url@,
            headers: pairs_of(self.headers@),
            body: opt_value(self.body),
        }
    }
}

/// A write that is under way.
pub struct WriteJob {
    /// The address of the service.
    pub root: String,
    pub method: String,
    pub url: String,
    pub body: Option<Json>,
    /// The version of the entity that the write is for.
    pub if_match: Option<String>,
    /// Whether the answer is what the call returns.
    pub keeps_answer: bool,
}

/// A write that is under way.
#[verifier::ext_equal]
pub struct JobV {
    pub root: Seq<char>,
    pub method: Seq<char>,
    pub url: Seq<char>,
    pub body: Option<JsonV>,
    pub if_match: Option<Seq<char>>,
    pub keeps_answer: bool,
}

impl WriteJob {
    /// What the write is.
    pub open spec fn view(&self) -> JobV {
        JobV {
            root: self.root@,
            method: self.method@,
            url: self.url@,
            body: opt_value(self.body),
            if_match: opt_text(self.if_match),
            keeps_answer: self.keeps_answer,
        }
    }
}

/// What a request is for.
pub enum Purpose {
    Metadata,
    Query,
    Health,
    /// To fetch the token that protects a write.
    Csrf { job: WriteJob, refreshed: bool },
    /// To write. A write whose token was refreshed is not sent again.
    Write { job: WriteJob, refreshed: bool },
}

/// What a request is for.
pub enum PurposeV {
    Metadata,
    Query,
    Health,
    Csrf { job: JobV, refreshed: bool },
    Write { job: JobV, refreshed: bool },
}

impl Purpose {
    /// What the request is for.
    pub open spec fn view(&self) -> PurposeV {
        match self {
            Purpose::Metadata => PurposeV::Metadata,
            Purpose::Query => PurposeV::Query,
            Purpose::Health => PurposeV::Health,
            Purpose::Csrf { job, refreshed } => PurposeV::Csrf { job: job@, refreshed: *refreshed },
            Purpose::Write { job, refreshed } => PurposeV::Write {
                job: job@,
                refreshed: *refreshed,
            },
        }
    }
}

/// A request that is being tried.
pub struct Exchange {
    purpose: Purpose,
    request: HttpRequest,
    attempt: u32,
    max: u32,
}

/// A request that is being tried: for the `attempt`th time again, of at most `max`.
pub struct ExchangeV {
    pub purpose: PurposeV,
    pub request: HttpV,
    pub attempt: u32,
    pub max: u32,
}

impl Exchange {
    /// What is being tried.
    pub closed spec fn view(&self) -> ExchangeV {
        ExchangeV {
            purpose: self.purpose@,
            request: self.request@,
            attempt: self.attempt,
            max: self.max,
        }
    }
}

/// What a call comes to.
pub enum Outcome {
    /// It succeeded.
    Value(Json),
    /// It failed.
    Failed(String),
    /// It failed, and the answer cannot be cut to a message.
    Fault,
}

/// What a call comes to.
pub enum OutcomeV {
    Value(JsonV),
    Failed(Seq<char>),
    Fault,
}

impl Outcome {
    /// What the call came to.
    pub open spec fn view(&self) -> OutcomeV {
        match self {
            Outcome::Value(v) => OutcomeV::Value(v@),
            Outcome::Failed(e) => OutcomeV::Failed(e@),
            Outcome::Fault => OutcomeV::Fault,
        }
    }
}

/// What has to be done next.
pub enum Progress {
    /// Post a form to fetch an access token, and hand the answer to `on_token`.
    FetchToken { url: String, form: Vec<(String, String)>, next: Exchange },
    /// Send a request, and hand the answer to `on_reply`.
    Send { request: HttpRequest, next: Exchange },
    /// Wait for milliseconds, and call `on_wake`.
    Sleep { ms: u64, next: Exchange },
    /// Nothing.
    Done(Outcome),
}

/// What has to be done next.
pub enum ProgressV {
    FetchToken { url: Seq<char>, form: Pairs, next: ExchangeV },
    Send { request: HttpV, next: ExchangeV },
    Sleep { ms: int, next: ExchangeV },
    Done(OutcomeV),
}

impl Progress {
    /// What has to be done.
    pub open spec fn view(&self) -> ProgressV {
        match self {
            Progress::FetchToken { url, form, next } => ProgressV::FetchToken {
                url: url@,
                form: pairs_of(form@),
                next: next@,
            },
            Progress::Send { request, next } => ProgressV::Send { request: request@, next: next@ },
            Progress::Sleep { ms, next } => ProgressV::Sleep { ms: *ms as int, next: next@ },
            Progress::Done(o) => ProgressV::Done(o@),
        }
    }
}

/// The answer to a request for an access token.
pub enum TokenReply {
    /// No answer came.
    Unreachable,
    /// An answer came: its status as a number and in words, and its text if it has one.
    Answer { status: u16, status_text: String, text: Option<String> },
}

/// The answer to a request for an access token.
pub enum TokenReplyV {
    Unreachable,
    Answer { status: u16, status_text: Seq<char>, text: Option<Seq<char>> },
}

impl TokenReply {
    /// What the answer is.
    pub open spec fn view(&self) -> TokenReplyV {
        match self {
            TokenReply::Unreachable => TokenReplyV::Unreachable,
            TokenReply::Answer { status, status_text, text } => TokenReplyV::Answer {
                status: *status,
                status_text: status_text@,
                text: opt_text(*text),
            },
        }
    }
}

/// The answer to a request.
pub enum HttpReply {
    /// No answer came.
    Unreachable(String),
    /// An answer came: its status, its text, and the token for writes in its headers.
    Answer { status: u16, text: String, csrf: Option<String> },
}

/// The answer to a request.
pub enum HttpReplyV {
    Unreachable(Seq<char>),
    Answer { status: u16, text: Seq<char>, csrf: Option<Seq<char>> },
}

impl HttpReply {
    /// What the answer is.
    pub open spec fn view(&self) -> HttpReplyV {
        match self {
            HttpReply::Unreachable(e) => HttpReplyV::Unreachable(e@),
            HttpReply::Answer { status, text, csrf } => HttpReplyV::Answer {
                status: *status,
                text: text@,
                csrf: opt_text(*csrf),
            },
        }
    }
}

/// Whether a status means success.
pub open spec fn succeeded(status: u16) -> bool {
    200 <= status <= 299
}

/// Whether an answer says that a read may be tried again: there was none, or the system
/// was too busy or in trouble.
pub open spec fn passing(reply: HttpReplyV) -> bool {
    match reply {
        HttpReplyV::Unreachable(_) => true,
        HttpReplyV::Answer { status, .. } => status == 429 || 500 <= status <= 599,
    }
}

/// How long to wait before the `n`th time again, in milliseconds: twice as long each
/// time, up to the sixth.
pub open spec fn backoff(n: u32) -> int {
    250 * pow2(
        if n < 6 {
            n as nat
        } else {
            6
        },
    ) as int
}

fn backoff_ms(n: u32) -> (r: u64)
    ensures
        r == backoff(n),
{
    proof {
        lemma2_to64();
    }
    match n {
        0 => 250,
        1 => 500,
        2 => 1000,
        3 => 2000,
        4 => 4000,
        5 => 8000,
        _ => 16000,
    }
}

/// The settings of a system and the tokens that were fetched for it.
pub struct SapClient {
    cfg: SapInstanceConfig,
    csrf: Option<(String, u64)>,
    oauth: Option<(String, u128)>,
}

/// The settings of a system; the token for writes, with the moment at which it was
/// fetched; and the access token, with the moment at which it ends. Moments are in
/// nanoseconds.
#[verifier::ext_equal]
pub struct ClientV {
    pub cfg: ConfigV,
    pub csrf: Option<(Seq<char>, u64)>,
    pub oauth: Option<(Seq<char>, int)>,
}

impl ClientV {
    /// The token for writes, while it is good.
    pub open spec fn csrf_now(self, now: u64) -> Option<Seq<char>> {
        match self.csrf {
            Some(t) => if elapsed(t.1, now) < 1_200_000_000_000 {
                Some(t.0)
            } else {
                None
            },
            None => None,
        }
    }

    /// The access token, while it is good.
    pub open spec fn oauth_now(self, now: u64) -> Option<Seq<char>> {
        match self.oauth {
            Some(t) => if now < t.1 {
                Some(t.0)
            } else {
                None
            },
            None => None,
        }
    }
}

/// A text, or the empty one.
pub open spec fn or_empty(o: Option<Seq<char>>) -> Seq<char> {
    match o {
        Some(s) => s,
        None => ""@,
    }
}

fn text_or_empty(o: &Option<String>) -> (r: String)
    ensures
        r@ == or_empty(opt_text(*o)),
{
    match o {
        Some(s) => s.clone(),
        None => "".to_owned(),
    }
}

/// A request as it is sent: what the answer may be, the authorization, and the headers
/// of the request.
pub open spec fn authorized(request: HttpV, authorization: Option<Seq<char>>) -> HttpV {
    HttpV {
        headers: seq![("Accept"@, "application/json"@)] + (match authorization {
            Some(a) => seq![("Authorization"@, a)],
            None => Seq::empty(),
        }) + request.headers,
        ..request
    }
}

fn authorize(request: &HttpRequest, authorization: Option<String>) -> (r: HttpRequest)
    ensures
        r@ == authorized(request@, opt_text(authorization)),
{
    let mut headers = no_pairs();
    push_pair(&mut headers, "Accept", "application/json");
    if let Some(a) = &authorization {
        push_pair(&mut headers, "Authorization", a.as_str());
    }
    let mut more = copy_pairs(&request.headers);
    let ghost a = pairs_of(headers@);
    let ghost b = pairs_of(more@);
    headers.append(&mut more);
    assert(pairs_of(headers@) =~= a + b);
    let r = HttpRequest {
        method: request.method.clone(),
        url: request.url.clone(),
        headers,
        body: copy_value(&request.body),
    };
    assert(r@ =~= authorized(request@, opt_text(authorization)));
    r
}

/// The authorization by an access token.
pub open spec fn bearer_auth(token: Option<Seq<char>>) -> Option<Seq<char>> {
    match token {
        Some(t) => Some("Bearer "@ + t),
        None => None,
    }
}

/// The token of the settings, unless it is blank.
pub open spec fn own_token(cfg: ConfigV) -> Option<Seq<char>> {
    match cfg.token {
        Some(t) => if trimmed(t).len() > 0 {
            Some(t)
        } else {
            None
        },
        None => None,
    }
}

/// The form by which an access token is fetched.
pub open spec fn token_form(cfg: ConfigV) -> Pairs {
    let form = seq![
        ("grant_type"@, "client_credentials"@),
        ("client_id"@, or_empty(cfg.oauth_client_id)),
        ("client_secret"@, or_empty(cfg.oauth_client_secret)),
    ];
    match cfg.oauth_scope {
        Some(s) => form.push(("scope"@, s)),
        None => form,
    }
}

/// What has to be done to try a request: send it, or fetch an access token first.
pub open spec fn tried(cl: ClientV, ex: ExchangeV, now: u64) -> ProgressV {
    let auth = lowercase(cl.cfg.auth_type);
    match basic_auth(cl.cfg) {
        Some(b) => ProgressV::Send { request: authorized(ex.request, Some(b)), next: ex },
        None => if auth == "bearer"@ {
            ProgressV::Send {
                request: authorized(ex.request, bearer_auth(own_token(cl.cfg))),
                next: ex,
            }
        } else if auth == "oauth2"@ {
            match cl.oauth_now(now) {
                Some(t) => ProgressV::Send {
                    request: authorized(ex.request, bearer_auth(Some(t))),
                    next: ex,
                },
                None => ProgressV::FetchToken {
                    url: or_empty(cl.cfg.oauth_token_url),
                    form: token_form(cl.cfg),
                    next: ex,
                },
            }
        } else {
            ProgressV::Send { request: authorized(ex.request, None), next: ex }
        },
    }
}

/// A call that failed. Whether a system answers is then known: it does not.
pub open spec fn failed(p: PurposeV, message: Seq<char>) -> ProgressV {
    match p {
        PurposeV::Health => ProgressV::Done(OutcomeV::Value(JsonV::Bool(false))),
        _ => ProgressV::Done(OutcomeV::Failed(message)),
    }
}

/// The access token in an answer, with the seconds for which it is good; or what is
/// wrong.
pub open spec fn token_in(reply: TokenReplyV) -> Result<(Seq<char>, int), Seq<char>> {
    match reply {
        TokenReplyV::Unreachable => Err("oauth token request"@),
        TokenReplyV::Answer { status, status_text, text } => if !succeeded(status) {
            Err("oauth token http "@ + status_text)
        } else {
            match text {
                Some(t) => match json_parse(t) {
                    Ok(v) => token_in_body(v),
                    Err(_) => Err("parse oauth token"@),
                },
                None => Err("parse oauth token"@),
            }
        },
    }
}

/// The access token in the body of an answer, with the seconds for which it is good.
pub open spec fn token_in_body(v: JsonV) -> Result<(Seq<char>, int), Seq<char>> {
    match v.text_at("access_token"@) {
        Some(t) => Ok(
            (
                t,
                match v.get("expires_in"@) {
                    Some(e) => match e.natural() {
                        Some(n) => n,
                        None => 3600,
                    },
                    None => 3600,
                },
            ),
        ),
        None => Err("oauth response has no access_token"@),
    }
}

/// For how many seconds an access token is used: a minute less than it is good for, and
/// at least a minute.
pub open spec fn token_use_secs(expires_in: int) -> int {
    if expires_in < 120 {
        60
    } else {
        expires_in - 60
    }
}

/// After the answer to a request for an access token.
pub open spec fn token_came(cl: ClientV, ex: ExchangeV, reply: TokenReplyV, now: u64) -> (
    ClientV,
    ProgressV,
) {
    match token_in(reply) {
        Ok((t, secs)) => (
            ClientV { oauth: Some((t, now + token_use_secs(secs) * 1_000_000_000)), ..cl },
            ProgressV::Send {
                request: authorized(ex.request, bearer_auth(Some(t))),
                next: ex,
            },
        ),
        Err(e) => (cl, failed(ex.purpose, e)),
    }
}

/// The request that fetches the token for a write.
pub open spec fn csrf_request(cfg: ConfigV, job: JobV) -> HttpV {
    HttpV {
        method: "GET"@,
        url: url_of(cfg, job.root, Seq::empty()),
        headers: seq![("X-CSRF-Token"@, "Fetch"@)],
        body: None,
    }
}

/// The request that writes.
pub open spec fn write_request(job: JobV, csrf: Seq<char>) -> HttpV {
    HttpV {
        method: job.method,
        url: job.url,
        headers: (match job.if_match {
            Some(e) => seq![("If-Match"@, e)],
            None => Seq::empty(),
        }) + (if csrf.len() > 0 {
            seq![("X-CSRF-Token"@, csrf)]
        } else {
            Seq::empty()
        }),
        body: job.body,
    }
}

/// What has to be done to send a write with a token. It is tried once.
pub open spec fn write_sent(
    cl: ClientV,
    job: JobV,
    refreshed: bool,
    csrf: Seq<char>,
    now: u64,
) -> ProgressV {
    tried(
        cl,
        ExchangeV {
            purpose: PurposeV::Write { job, refreshed },
            request: write_request(job, csrf),
            attempt: 0,
            max: 0,
        },
        now,
    )
}

/// What has to be done to write: send the write with the token that is still good, or
/// without one in the fourth version of the protocol, or fetch a token first.
pub open spec fn write_begun(cl: ClientV, job: JobV, refreshed: bool, now: u64) -> ProgressV {
    match cl.csrf_now(now) {
        Some(t) => write_sent(cl, job, refreshed, t, now),
        None => if cl.cfg.v4() {
            write_sent(cl, job, refreshed, ""@, now)
        } else {
            tried(
                cl,
                ExchangeV {
                    purpose: PurposeV::Csrf { job, refreshed },
                    request: csrf_request(cl.cfg, job),
                    attempt: 0,
                    max: cl.cfg.max_retries,
                },
                now,
            )
        },
    }
}

/// A failure that an answer reports.
pub open spec fn refused(text: Seq<char>) -> ProgressV {
    match odata_message(text) {
        Some(m) => ProgressV::Done(OutcomeV::Failed(m)),
        None => ProgressV::Done(OutcomeV::Fault),
    }
}

/// The answer of a write that needs no more than to be acknowledged.
pub open spec fn acknowledged() -> JsonV {
    JsonV::Obj(put(no_members(), "success"@, JsonV::Bool(true)))
}

/// After an answer that is not tried again.
pub open spec fn answered(
    cl: ClientV,
    p: PurposeV,
    status: u16,
    text: Seq<char>,
    csrf: Option<Seq<char>>,
    now: u64,
) -> (ClientV, ProgressV) {
    match p {
        PurposeV::Metadata => (
            cl,
            if succeeded(status) {
                match edmx_outcome(EdmxV::start(), xml_events(text)) {
                    Ok(v) => ProgressV::Done(OutcomeV::Value(v)),
                    Err(e) => ProgressV::Done(OutcomeV::Failed(e)),
                }
            } else {
                refused(text)
            },
        ),
        PurposeV::Query => (
            cl,
            if succeeded(status) {
                ProgressV::Done(
                    OutcomeV::Value(
                        normalized(
                            match json_parse(text) {
                                Ok(v) => v,
                                Err(_) => JsonV::Str(text),
                            },
                        ),
                    ),
                )
            } else {
                refused(text)
            },
        ),
        PurposeV::Health => (
            cl,
            ProgressV::Done(
                OutcomeV::Value(JsonV::Bool(200 <= status < 500 && status != 404)),
            ),
        ),
        PurposeV::Csrf { job, refreshed } => {
            let token = or_empty(csrf);
            if token.len() == 0 {
                (
                    cl,
                    ProgressV::Done(
                        OutcomeV::Failed("CSRF token fetch returned empty (check auth)"@),
                    ),
                )
            } else {
                let cl2 = ClientV { csrf: Some((token, now)), ..cl };
                (cl2, write_sent(cl2, job, refreshed, token, now))
            }
        },
        PurposeV::Write { job, refreshed } => if status == 403 && !refreshed && !cl.cfg.v4() {
            let cl2 = ClientV { csrf: None, ..cl };
            (cl2, write_begun(cl2, job, true, now))
        } else if !succeeded(status) {
            (cl, refused(text))
        } else {
            (
                cl,
                ProgressV::Done(
                    OutcomeV::Value(
                        if job.keeps_answer {
                            match json_parse(text) {
                                Ok(v) => v,
                                Err(_) => acknowledged(),
                            }
                        } else {
                            acknowledged()
                        },
                    ),
                ),
            )
        },
    }
}

/// After an answer, or the lack of one.
pub open spec fn replied(cl: ClientV, ex: ExchangeV, reply: HttpReplyV, now: u64) -> (
    ClientV,
    ProgressV,
) {
    if ex.attempt < ex.max && passing(reply) {
        let n = (ex.attempt + 1) as u32;
        (cl, ProgressV::Sleep { ms: backoff(n), next: ExchangeV { attempt: n, ..ex } })
    } else {
        match reply {
            HttpReplyV::Unreachable(e) => (cl, failed(ex.purpose, "http error: "@ + e)),
            HttpReplyV::Answer { status, text, csrf } => answered(
                cl,
                ex.purpose,
                status,
                text,
                csrf,
                now,
            ),
        }
    }
}

/// The address of an entity set.
pub open spec fn set_address(cfg: ConfigV, service: Option<Seq<char>>, entity_set: Seq<char>) -> Result<
    (Seq<char>, Seq<char>),
    Seq<char>,
> {
    if !odata_name(entity_set) {
        Err("invalid entity set '"@ + entity_set + "'"@)
    } else {
        match cfg.root(service) {
            Ok(root) => Ok((root, root + "/"@ + entity_set)),
            Err(e) => Err(e),
        }
    }
}

/// The pairs of a query that were given.
pub open spec fn given(name: Seq<char>, value: Option<Seq<char>>) -> Pairs {
    match value {
        Some(v) => seq![(name, v)],
        None => Seq::empty(),
    }
}

/// The pairs that say which entities are asked for.
pub open spec fn query_params(v4: bool, q: QueryV) -> Pairs {
    given("$filter"@, q.filter) + given("$select"@, q.select) + given("$expand"@, q.expand) + given(
        "$orderby"@,
        q.orderby,
    ) + seq![("$top"@, dec_int(q.top as int))] + (if q.skip > 0 {
        seq![("$skip"@, dec_int(q.skip as int))]
    } else {
        Seq::empty()
    }) + (if q.count {
        if v4 {
            seq![("$count"@, "true"@)]
        } else {
            seq![("$inlinecount"@, "allpages"@)]
        }
    } else {
        Seq::empty()
    })
}

/// Whether a key can stand in an address: it is not too long, and is one line.
pub open spec fn usable_key(k: Seq<char>) -> bool {
    encode_utf8(k).len() <= 1024 && !k.contains('\n') && !k.contains('\r')
}

/// The address of a query, or what is wrong with it.
pub open spec fn query_address(cfg: ConfigV, q: QueryV) -> Result<Seq<char>, Seq<char>> {
    match set_address(cfg, q.service, q.entity_set) {
        Err(e) => Err(e),
        Ok((_, path)) => match q.key_segment {
            Some(k) => if usable_key(k) {
                Ok(url_of(cfg, path + "("@ + k + ")"@, query_params(cfg.v4(), q)))
            } else {
                Err("invalid key segment"@)
            },
            None => Ok(url_of(cfg, path, query_params(cfg.v4(), q))),
        },
    }
}

/// A request to read.
pub open spec fn read_of(url: Seq<char>, headers: Pairs) -> HttpV {
    HttpV { method: "GET"@, url, headers, body: None }
}

/// The write of a change or of an end, or what is wrong with it.
pub open spec fn keyed_job(
    cfg: ConfigV,
    method: Seq<char>,
    service: Option<Seq<char>>,
    entity_set: Seq<char>,
    key_segment: Seq<char>,
    body: Option<JsonV>,
    etag: Option<Seq<char>>,
) -> Result<JobV, Seq<char>> {
    match set_address(cfg, service, entity_set) {
        Err(e) => Err(e),
        Ok((root, path)) => Ok(
            JobV {
                root,
                method,
                url: url_of(cfg, path + "("@ + key_segment + ")"@, Seq::empty()),
                body,
                if_match: Some(
                    match etag {
                        Some(e) => e,
                        None => "*"@,
                    },
                ),
                keeps_answer: false,
            },
        ),
    }
}

/// What has to be done first for a call.
pub open spec fn begun(cl: ClientV, call: CallV, now: u64) -> ProgressV {
    let cfg = cl.cfg;
    match call {
        CallV::Metadata { service } => match cfg.root(service) {
            Err(e) => ProgressV::Done(OutcomeV::Failed(e)),
            Ok(root) => tried(
                cl,
                ExchangeV {
                    purpose: PurposeV::Metadata,
                    request: read_of(
                        url_of(cfg, root + "/$metadata"@, Seq::empty()),
                        seq![("Accept"@, "application/xml"@)],
                    ),
                    attempt: 0,
                    max: cfg.max_retries,
                },
                now,
            ),
        },
        CallV::Query(q) => match query_address(cfg, q) {
            Err(e) => ProgressV::Done(OutcomeV::Failed(e)),
            Ok(url) => tried(
                cl,
                ExchangeV {
                    purpose: PurposeV::Query,
                    request: read_of(url, Seq::empty()),
                    attempt: 0,
                    max: cfg.max_retries,
                },
                now,
            ),
        },
        CallV::Create { service, entity_set, body } => match set_address(
            cfg,
            service,
            entity_set,
        ) {
            Err(e) => ProgressV::Done(OutcomeV::Failed(e)),
            Ok((root, path)) => write_begun(
                cl,
                JobV {
                    root,
                    method: "POST"@,
                    url: url_of(cfg, path, Seq::empty()),
                    body: Some(body),
                    if_match: None,
                    keeps_answer: true,
                },
                false,
                now,
            ),
        },
        CallV::Update { service, entity_set, key_segment, body, etag } => match keyed_job(
            cfg,
            if cfg.v4() {
                "PATCH"@
            } else {
                "MERGE"@
            },
            service,
            entity_set,
            key_segment,
            Some(body),
            etag,
        ) {
            Err(e) => ProgressV::Done(OutcomeV::Failed(e)),
            Ok(job) => write_begun(cl, job, false, now),
        },
        CallV::Delete { service, entity_set, key_segment, etag } => match keyed_job(
            cfg,
            "DELETE"@,
            service,
            entity_set,
            key_segment,
            None,
            etag,
        ) {
            Err(e) => ProgressV::Done(OutcomeV::Failed(e)),
            Ok(job) => write_begun(cl, job, false, now),
        },
        CallV::Health => match cfg.root(None) {
            Err(_) => ProgressV::Done(OutcomeV::Value(JsonV::Bool(false))),
            Ok(root) => tried(
                cl,
                ExchangeV {
                    purpose: PurposeV::Health,
                    request: read_of(url_of(cfg, root, Seq::empty()), Seq::empty()),
                    attempt: 0,
                    max: 0,
                },
                now,
            ),
        },
    }
}

fn as_slice(o: &Option<String>) -> (r: Option<&str>)
    ensures
        opt_slice(r) == opt_text(*o),
{
    match o {
        Some(s) => Some(s.as_str()),
        None => None,
    }
}

fn push_given(v: &mut Vec<(String, String)>, name: &str, value: &Option<String>)
    ensures
        pairs_of(final(v)@) == pairs_of(old(v)@) + given(name@, opt_text(*value)),
{
    let ghost before_push = pairs_of(v@);
    if let Some(x) = value {
        push_pair(v, name, x.as_str());
    }
    assert(pairs_of(v@) =~= before_push + given(name@, opt_text(*value)));
}

fn query_pairs(v4: bool, q: &QueryCall) -> (r: Vec<(String, String)>)
    ensures
        pairs_of(r@) == query_params(v4, q@),
{
    let mut p = no_pairs();
    push_given(&mut p, "$filter", &q.filter);
    push_given(&mut p, "$select", &q.select);
    push_given(&mut p, "$expand", &q.expand);
    push_given(&mut p, "$orderby", &q.orderby);
    push_pair(&mut p, "$top", dec_i64(q.top).as_str());
    if q.skip > 0 {
        push_pair(&mut p, "$skip", dec_i64(q.skip).as_str());
    }
    if q.count {
        if v4 {
            push_pair(&mut p, "$count", "true");
        } else {
            push_pair(&mut p, "$inlinecount", "allpages");
        }
    }
    assert(pairs_of(p@) =~= query_params(v4, q@));
    p
}

fn success_json() -> (r: Json)
    ensures
        r@ == acknowledged(),
{
    let mut o = Object::new();
    o.set("success", Json::Bool(true));
    Json::Object(o)
}

fn refuse(text: &str) -> (r: Progress)
    ensures
        r@ == refused(text@),
{
    match odata_error(text) {
        Some(m) => Progress::Done(Outcome::Failed(m)),
        None => Progress::Done(Outcome::Fault),
    }
}

fn fail(purpose: &Purpose, message: String) -> (r: Progress)
    ensures
        r@ == failed(purpose@, message@),
{
    match purpose {
        Purpose::Health => Progress::Done(Outcome::Value(Json::Bool(false))),
        _ => Progress::Done(Outcome::Failed(message)),
    }
}

/// The access token in the body of an answer, with the seconds for which it is good.
pub fn read_token_body(v: &Json) -> (r: Result<(String, u64), String>)
    ensures
        (match r {
            Ok(p) => token_in_body(v@) == Ok::<(Seq<char>, int), Seq<char>>((p.0@, p.1 as int)),
            Err(e) => token_in_body(v@) == Err::<(Seq<char>, int), Seq<char>>(e@),
        }),
{
    match v.str_at("access_token") {
        Some(t) => {
            let secs: u64 = match v.get("expires_in") {
                Some(e) => match e.as_u64() {
                    Some(n) => n,
                    None => 3600,
                },
                None => 3600,
            };
            Ok((t.clone(), secs))
        },
        None => Err("oauth response has no access_token".to_owned()),
    }
}

fn read_token(reply: &TokenReply) -> (r: Result<(String, u64), String>)
    ensures
        (match r {
            Ok(p) => token_in(reply@) == Ok::<(Seq<char>, int), Seq<char>>((p.0@, p.1 as int)),
            Err(e) => token_in(reply@) == Err::<(Seq<char>, int), Seq<char>>(e@),
        }),
{
    match reply {
        TokenReply::Unreachable => Err("oauth token request".to_owned()),
        TokenReply::Answer { status, status_text, text } => {
            if !(200 <= *status && *status <= 299) {
                return Err(cat2("oauth token http ", status_text.as_str()));
            }
            match text {
                Some(t) => match Json::parse(t.as_str()) {
                    Ok(v) => read_token_body(&v),
                    Err(_) => Err("parse oauth token".to_owned()),
                },
                None => Err("parse oauth token".to_owned()),
            }
        },
    }
}

impl SapClient {
    /// What the client is.
    pub closed spec fn view(&self) -> ClientV {
        ClientV {
            cfg: self.cfg@,
            csrf: match self.csrf {
                Some(t) => Some((t.0@, t.1)),
                None => None,
            },
            oauth: match self.oauth {
                Some(t) => Some((t.0@, t.1 as int)),
                None => None,
            },
        }
    }

    /// A client that has fetched no tokens.
    pub fn new(cfg: SapInstanceConfig) -> (r: SapClient)
        ensures
            (r@ == ClientV { cfg: cfg@, csrf: None, oauth: None }),
    {
        SapClient { cfg, csrf: None, oauth: None }
    }

    /// Whether the system speaks the fourth version of the protocol.
    pub fn is_v4(&self) -> (r: bool)
        ensures
            r == self@.cfg.v4(),
    {
        self.cfg.is_v4()
    }

    /// How long to wait for an answer, in milliseconds: at least a second.
    pub fn timeout_ms(&self) -> (r: u64)
        ensures
            r == (if self@.cfg.timeout_ms < 1000 {
                1000
            } else {
                self@.cfg.timeout_ms
            }),
    {
        if self.cfg.timeout_ms < 1000 {
            1000
        } else {
            self.cfg.timeout_ms
        }
    }

    /// Whether the certificates of the system are verified.
    pub fn verifies_certificates(&self) -> (r: bool)
        ensures
            r == self@.cfg.verify_ssl,
    {
        self.cfg.verify_ssl
    }

    fn send_as(&self, ex: Exchange, authorization: Option<String>) -> (r: Progress)
        ensures
            (r@ == ProgressV::Send {
                request: authorized(ex@.request, opt_text(authorization)),
                next: ex@,
            }),
    {
        let request = authorize(&ex.request, authorization);
        Progress::Send { request, next: ex }
    }

    fn attempt(&self, ex: Exchange, now: u64) -> (r: Progress)
        ensures
            r@ == tried(self@, ex@, now),
    {
        if let Some(b) = basic_header(&self.cfg) {
            return self.send_as(ex, Some(b));
        }
        let auth = lower(self.cfg.auth_type.as_str());
        if same(auth.as_str(), "bearer") {
            let header: Option<String> = match &self.cfg.token {
                Some(t) => if !trim(t.as_str()).as_str().is_empty() {
                    Some(cat2("Bearer ", t.as_str()))
                } else {
                    None
                },
                None => None,
            };
            return self.send_as(ex, header);
        }
        if same(auth.as_str(), "oauth2") {
            if let Some(t) = &self.oauth {
                if (now as u128) < t.1 {
                    return self.send_as(ex, Some(cat2("Bearer ", t.0.as_str())));
                }
            }
            let mut form = no_pairs();
            push_pair(&mut form, "grant_type", "client_credentials");
            push_pair(&mut form, "client_id", text_or_empty(&self.cfg.oauth_client_id).as_str());
            push_pair(
                &mut form,
                "client_secret",
                text_or_empty(&self.cfg.oauth_client_secret).as_str(),
            );
            if let Some(s) = &self.cfg.oauth_scope {
                push_pair(&mut form, "scope", s.as_str());
            }
            assert(pairs_of(form@) =~= token_form(self@.cfg));
            return Progress::FetchToken {
                url: text_or_empty(&self.cfg.oauth_token_url),
                form,
                next: ex,
            };
        }
        self.send_as(ex, None)
    }

    fn send_write(&self, job: WriteJob, refreshed: bool, csrf: &str, now: u64) -> (r: Progress)
        ensures
            r@ == write_sent(self@, job@, refreshed, csrf@, now),
    {
        let mut headers = no_pairs();
        if let Some(e) = &job.if_match {
            push_pair(&mut headers, "If-Match", e.as_str());
        }
        if !csrf.is_empty() {
            push_pair(&mut headers, "X-CSRF-Token", csrf);
        }
        let request = HttpRequest {
            method: job.method.clone(),
            url: job.url.clone(),
            headers,
            body: copy_value(&job.body),
        };
        assert(request@ =~= write_request(job@, csrf@));
        self.attempt(
            Exchange { purpose: Purpose::Write { job, refreshed }, request, attempt: 0, max: 0 },
            now,
        )
    }

    fn begin_write(&self, job: WriteJob, refreshed: bool, now: u64) -> (r: Progress)
        ensures
            r@ == write_begun(self@, job@, refreshed, now),
    {
        if let Some(t) = &self.csrf {
            let e: u64 = if now >= t.1 {
                now - t.1
            } else {
                0
            };
            if e < 1_200_000_000_000 {
                return self.send_write(job, refreshed, t.0.as_str(), now);
            }
        }
        if self.cfg.is_v4() {
            return self.send_write(job, refreshed, "", now);
        }
        let mut headers = no_pairs();
        push_pair(&mut headers, "X-CSRF-Token", "Fetch");
        let request = HttpRequest {
            method: "GET".to_owned(),
            url: url_with_params(&self.cfg, job.root.as_str(), &no_pairs()),
            headers,
            body: None,
        };
        assert(request@ =~= csrf_request(self@.cfg, job@));
        self.attempt(
            Exchange {
                purpose: Purpose::Csrf { job, refreshed },
                request,
                attempt: 0,
                max: self.cfg.max_retries,
            },
            now,
        )
    }

    fn set_path(&self, service: &Option<String>, entity_set: &str) -> (r: Result<
        (String, String),
        String,
    >)
        ensures
            (match r {
                Ok(p) => set_address(self@.cfg, opt_text(*service), entity_set@) == Ok::<
                    (Seq<char>, Seq<char>),
                    Seq<char>,
                >((p.0@, p.1@)),
                Err(e) => set_address(self@.cfg, opt_text(*service), entity_set@) == Err::<
                    (Seq<char>, Seq<char>),
                    Seq<char>,
                >(e@),
            }),
    {
        if !valid_odata_name(entity_set) {
            return Err(cat3("invalid entity set '", entity_set, "'"));
        }
        match self.cfg.service_root(as_slice(service)) {
            Ok(root) => {
                let path = cat3(root.as_str(), "/", entity_set);
                Ok((root, path))
            },
            Err(e) => Err(e),
        }
    }

    fn query_url(&self, q: &QueryCall) -> (r: Result<String, String>)
        ensures
            crate::config::text_result(r) == query_address(self@.cfg, q@),
    {
        let (_root, path) = match self.set_path(&q.service, q.entity_set.as_str()) {
            Ok(p) => p,
            Err(e) => {
                return Err(e);
            },
        };
        let params = query_pairs(self.cfg.is_v4(), q);
        match &q.key_segment {
            Some(k) => {
                if byte_len(k.as_str()) > 1024 || contains_char(k.as_str(), '\n') || contains_char(
                    k.as_str(),
                    '\r',
                ) {
                    return Err("invalid key segment".to_owned());
                }
                let mut base = cat3(path.as_str(), "(", k.as_str());
                base.append(")");
                Ok(url_with_params(&self.cfg, base.as_str(), &params))
            },
            None => Ok(url_with_params(&self.cfg, path.as_str(), &params)),
        }
    }

    fn keyed_write(
        &self,
        method: &str,
        service: &Option<String>,
        entity_set: &str,
        key_segment: &str,
        body: Option<Json>,
        etag: &Option<String>,
    ) -> (r: Result<WriteJob, String>)
        ensures
            (match r {
                Ok(job) => keyed_job(
                    self@.cfg,
                    method@,
                    opt_text(*service),
                    entity_set@,
                    key_segment@,
                    opt_value(body),
                    opt_text(*etag),
                ) == Ok::<JobV, Seq<char>>(job@),
                Err(e) => keyed_job(
                    self@.cfg,
                    method@,
                    opt_text(*service),
                    entity_set@,
                    key_segment@,
                    opt_value(body),
                    opt_text(*etag),
                ) == Err::<JobV, Seq<char>>(e@),
            }),
    {
        let (root, path) = match self.set_path(service, entity_set) {
            Ok(p) => p,
            Err(e) => {
                return Err(e);
            },
        };
        let mut base = cat3(path.as_str(), "(", key_segment);
        base.append(")");
        let if_match: String = match etag {
            Some(e) => e.clone(),
            None => "*".to_owned(),
        };
        Ok(
            WriteJob {
                root,
                method: method.to_owned(),
                url: url_with_params(&self.cfg, base.as_str(), &no_pairs()),
                body,
                if_match: Some(if_match),
                keeps_answer: false,
            },
        )
    }

    fn read(&self, purpose: Purpose, url: String, headers: Vec<(String, String)>, max: u32, now: u64) -> (r:
        Progress)
        ensures
            (r@ == tried(
                self@,
                ExchangeV {
                    purpose: purpose@,
                    request: read_of(url@, pairs_of(headers@)),
                    attempt: 0,
                    max,
                },
                now,
            )),
    {
        let request = HttpRequest { method: "GET".to_owned(), url, headers, body: None };
        self.attempt(Exchange { purpose, request, attempt: 0, max }, now)
    }

    /// Starts a call for the metadata of a service.
    pub fn service_metadata(&self, service: &Option<String>, now: u64) -> (r: Progress)
        ensures
            (r@ == begun(self@, CallV::Metadata { service: opt_text(*service) }, now)),
    {
        match self.cfg.service_root(as_slice(service)) {
            Ok(root) => {
                let url = url_with_params(
                    &self.cfg,
                    cat2(root.as_str(), "/$metadata").as_str(),
                    &no_pairs(),
                );
                let mut headers = no_pairs();
                push_pair(&mut headers, "Accept", "application/xml");
                assert(pairs_of(headers@) =~= seq![("Accept"@, "application/xml"@)]);
                self.read(Purpose::Metadata, url, headers, self.cfg.max_retries, now)
            },
            Err(e) => Progress::Done(Outcome::Failed(e)),
        }
    }

    /// Starts a call for entities, or for one entity.
    pub fn query(&self, q: &QueryCall, now: u64) -> (r: Progress)
        ensures
            r@ == begun(self@, CallV::Query(q@), now),
    {
        match self.query_url(q) {
            Ok(url) => self.read(Purpose::Query, url, no_pairs(), self.cfg.max_retries, now),
            Err(e) => Progress::Done(Outcome::Failed(e)),
        }
    }

    /// Starts a call for a new entity.
    pub fn create(&self, service: &Option<String>, entity_set: &str, body: Json, now: u64) -> (r:
        Progress)
        ensures
            (r@ == begun(
                self@,
                CallV::Create {
                    service: opt_text(*service),
                    entity_set: entity_set@,
                    body: body@,
                },
                now,
            )),
    {
        match self.set_path(service, entity_set) {
            Ok((root, path)) => {
                let job = WriteJob {
                    root,
                    method: "POST".to_owned(),
                    url: url_with_params(&self.cfg, path.as_str(), &no_pairs()),
                    body: Some(body),
                    if_match: None,
                    keeps_answer: true,
                };
                self.begin_write(job, false, now)
            },
            Err(e) => Progress::Done(Outcome::Failed(e)),
        }
    }

    /// Starts a call for a change of an entity: of the given properties only.
    pub fn update(
        &self,
        service: &Option<String>,
        entity_set: &str,
        key_segment: &str,
        body: Json,
        etag: &Option<String>,
        now: u64,
    ) -> (r: Progress)
        ensures
            (r@ == begun(
                self@,
                CallV::Update {
                    service: opt_text(*service),
                    entity_set: entity_set@,
                    key_segment: key_segment@,
                    body: body@,
                    etag: opt_text(*etag),
                },
                now,
            )),
    {
        let method: &str = if self.cfg.is_v4() {
            "PATCH"
        } else {
            "MERGE"
        };
        match self.keyed_write(method, service, entity_set, key_segment, Some(body), etag) {
            Ok(job) => self.begin_write(job, false, now),
            Err(e) => Progress::Done(Outcome::Failed(e)),
        }
    }

    /// Starts a call for the end of an entity.
    pub fn delete(
        &self,
        service: &Option<String>,
        entity_set: &str,
        key_segment: &str,
        etag: &Option<String>,
        now: u64,
    ) -> (r: Progress)
        ensures
            (r@ == begun(
                self@,
                CallV::Delete {
                    service: opt_text(*service),
                    entity_set: entity_set@,
                    key_segment: key_segment@,
                    etag: opt_text(*etag),
                },
                now,
            )),
    {
        match self.keyed_write("DELETE", service, entity_set, key_segment, None, etag) {
            Ok(job) => self.begin_write(job, false, now),
            Err(e) => Progress::Done(Outcome::Failed(e)),
        }
    }

    /// Starts a call that finds out whether the system answers.
    pub fn health_check(&self, now: u64) -> (r: Progress)
        ensures
            r@ == begun(self@, CallV::Health, now),
    {
        match self.cfg.service_root(None) {
            Ok(root) => {
                let url = url_with_params(&self.cfg, root.as_str(), &no_pairs());
                self.read(Purpose::Health, url, no_pairs(), 0, now)
            },
            Err(_) => Progress::Done(Outcome::Value(Json::Bool(false))),
        }
    }

    /// Starts a call.
    pub fn begin(&self, call: ClientCall, now: u64) -> (r: Progress)
        ensures
            r@ == begun(self@, call@, now),
    {
        match call {
            ClientCall::Metadata { service } => self.service_metadata(&service, now),
            ClientCall::Query(q) => self.query(&q, now),
            ClientCall::Create { service, entity_set, body } => self.create(
                &service,
                entity_set.as_str(),
                body,
                now,
            ),
            ClientCall::Update { service, entity_set, key_segment, body, etag } => self.update(
                &service,
                entity_set.as_str(),
                key_segment.as_str(),
                body,
                &etag,
                now,
            ),
            ClientCall::Delete { service, entity_set, key_segment, etag } => self.delete(
                &service,
                entity_set.as_str(),
                key_segment.as_str(),
                &etag,
                now,
            ),
            ClientCall::Health => self.health_check(now),
        }
    }

    /// The answer to a request for an access token came.
    pub fn on_token(&mut self, ex: Exchange, reply: &TokenReply, now: u64) -> (r: Progress)
        ensures
            (final(self)@, r@) == token_came(old(self)@, ex@, reply@, now),
    {
        match read_token(reply) {
            Ok((token, secs)) => {
                let keep: u64 = if secs < 120 {
                    60
                } else {
                    secs - 60
                };
                let header = cat2("Bearer ", token.as_str());
                let ends: u128 = now as u128 + (keep as u128) * 1_000_000_000;
                self.oauth = Some((token, ends));
                self.send_as(ex, Some(header))
            },
            Err(e) => fail(&ex.purpose, e),
        }
    }

    /// The answer to a request came, or none.
    pub fn on_reply(&mut self, ex: Exchange, reply: &HttpReply, now: u64) -> (r: Progress)
        ensures
            (final(self)@, r@) == replied(old(self)@, ex@, reply@, now),
    {
        let again: bool = match reply {
            HttpReply::Unreachable(_) => true,
            HttpReply::Answer { status, .. } => *status == 429 || (500 <= *status && *status
                <= 599),
        };
        if ex.attempt < ex.max && again {
            let n: u32 = ex.attempt + 1;
            return Progress::Sleep {
                ms: backoff_ms(n),
                next: Exchange {
                    purpose: ex.purpose,
                    request: ex.request,
                    attempt: n,
                    max: ex.max,
                },
            };
        }
        match reply {
            HttpReply::Unreachable(e) => fail(&ex.purpose, cat2("http error: ", e.as_str())),
            HttpReply::Answer { status, text, csrf } => self.settle(
                ex.purpose,
                *status,
                text.as_str(),
                csrf,
                now,
            ),
        }
    }

    fn settle(
        &mut self,
        purpose: Purpose,
        status: u16,
        text: &str,
        csrf: &Option<String>,
        now: u64,
    ) -> (r: Progress)
        ensures
            (final(self)@, r@) == answered(
                old(self)@,
                purpose@,
                status,
                text@,
                opt_text(*csrf),
                now,
            ),
    {
        let good = 200 <= status && status <= 299;
        match purpose {
            Purpose::Metadata => {
                if !good {
                    return refuse(text);
                }
                match parse_edmx(text) {
                    Ok(v) => Progress::Done(Outcome::Value(v)),
                    Err(e) => Progress::Done(Outcome::Failed(e)),
                }
            },
            Purpose::Query => {
                if !good {
                    return refuse(text);
                }
                let v: Json = match Json::parse(text) {
                    Ok(v) => v,
                    Err(_) => Json::str(text),
                };
                Progress::Done(Outcome::Value(normalize_collection(&v)))
            },
            Purpose::Health => Progress::Done(
                Outcome::Value(Json::Bool(200 <= status && status < 500 && status != 404)),
            ),
            Purpose::Csrf { job, refreshed } => {
                let token = text_or_empty(csrf);
                if token.as_str().is_empty() {
                    return Progress::Done(
                        Outcome::Failed("CSRF token fetch returned empty (check auth)".to_owned()),
                    );
                }
                self.csrf = Some((token.clone(), now));
                self.send_write(job, refreshed, token.as_str(), now)
            },
            Purpose::Write { job, refreshed } => {
                if status == 403 && !refreshed && !self.cfg.is_v4() {
                    self.csrf = None;
                    return self.begin_write(job, true, now);
                }
                if !good {
                    return refuse(text);
                }
                if job.keeps_answer {
                    if let Ok(v) = Json::parse(text) {
                        return Progress::Done(Outcome::Value(v));
                    }
                }
                Progress::Done(Outcome::Value(success_json()))
            },
        }
    }

    /// The wait before trying again is over.
    pub fn on_wake(&self, ex: Exchange, now: u64) -> (r: Progress)
        ensures
            r@ == tried(self@, ex@, now),
    {
        self.attempt(ex, now)
    }
}

/// The exchange that has to be gone on with, if any.
pub open spec fn next_of(p: ProgressV) -> Option<ExchangeV> {
    match p {
        ProgressV::FetchToken { next, .. } => Some(next),
        ProgressV::Send { next, .. } => Some(next),
        ProgressV::Sleep { next, .. } => Some(next),
        ProgressV::Done(_) => None,
    }
}

/// Whether an exchange that writes is one that is tried once only.
pub open spec fn sound(ex: ExchangeV) -> bool {
    ex.purpose is Write ==> ex.max == 0
}

/// Trying an exchange goes on with that exchange.
proof fn lemma_tried(cl: ClientV, ex: ExchangeV, now: u64)
    ensures
        next_of(tried(cl, ex, now)) == Some(ex),
{
}

proof fn lemma_begun_once(cl: ClientV, call: CallV, now: u64)
    ensures
        next_of(begun(cl, call, now)) matches Some(n) ==> sound(n),
{
    assert forall|ex: ExchangeV| next_of(#[trigger] tried(cl, ex, now)) == Some(ex) by {
        lemma_tried(cl, ex, now);
    }
}

/// Whatever is asked and answered, an exchange that writes is tried once only.
pub proof fn writes_are_tried_once(
    cl: ClientV,
    call: CallV,
    ex: ExchangeV,
    reply: HttpReplyV,
    token: TokenReplyV,
    now: u64,
)
    requires
        sound(ex),
    ensures
        next_of(begun(cl, call, now)) matches Some(n) ==> sound(n),
        next_of(tried(cl, ex, now)) matches Some(n) ==> sound(n),
        next_of(token_came(cl, ex, token, now).1) matches Some(n) ==> sound(n),
        next_of(replied(cl, ex, reply, now).1) matches Some(n) ==> sound(n),
{
    lemma_begun_once(cl, call, now);
    assert forall|c: ClientV, e: ExchangeV| next_of(#[trigger] tried(c, e, now)) == Some(e) by {
        lemma_tried(c, e, now);
    }
}

/// A write whose answer was lost is not sent again: the call fails.
pub proof fn lost_writes_are_not_sent_again(cl: ClientV, ex: ExchangeV, e: Seq<char>, now: u64)
    requires
        sound(ex),
        ex.purpose is Write,
    ensures
        replied(cl, ex, HttpReplyV::Unreachable(e), now) == (
            cl,
            ProgressV::Done(OutcomeV::Failed("http error: "@ + e)),
        ),
{
}

/// The token for a write is refreshed at most once: after that, every answer ends the
/// call.
pub proof fn tokens_are_refreshed_once(
    cl: ClientV,
    ex: ExchangeV,
    job: JobV,
    reply: HttpReplyV,
    now: u64,
)
    requires
        sound(ex),
        (ex.purpose == PurposeV::Write { job, refreshed: true }),
    ensures
        replied(cl, ex, reply, now).1 is Done,
{
}

/// Whether the token for writes that a client keeps, if any, is one.
pub open spec fn token_kept(cl: ClientV) -> bool {
    cl.csrf matches Some(t) ==> t.0.len() > 0
}

/// Whether headers hold a token for writes.
pub open spec fn with_token(headers: Pairs) -> bool {
    exists|t: Seq<char>| t.len() > 0 && #[trigger] headers.contains(("X-CSRF-Token"@, t))
}

/// Whether an exchange that writes does so with a token.
pub open spec fn carries_token(ex: ExchangeV) -> bool {
    ex.purpose is Write ==> with_token(ex.request.headers)
}

proof fn lemma_write_token(job: JobV, csrf: Seq<char>)
    requires
        csrf.len() > 0,
    ensures
        with_token(write_request(job, csrf).headers),
{
    let h = write_request(job, csrf).headers;
    assert(h[h.len() - 1] == ("X-CSRF-Token"@, csrf));
    assert(h.contains(("X-CSRF-Token"@, csrf)));
}

proof fn lemma_begun_token(cl: ClientV, call: CallV, now: u64)
    requires
        !cl.cfg.v4(),
        token_kept(cl),
    ensures
        next_of(begun(cl, call, now)) matches Some(n) ==> carries_token(n),
{
    assert forall|ex: ExchangeV| next_of(#[trigger] tried(cl, ex, now)) == Some(ex) by {
        lemma_tried(cl, ex, now);
    }
    assert forall|job: JobV, csrf: Seq<char>| csrf.len() > 0 implies with_token(
        (#[trigger] write_request(job, csrf)).headers,
    ) by {
        lemma_write_token(job, csrf);
    }
}

/// In the second version of the protocol, whatever is asked and answered, no write is sent
/// without a token that the system gave.
pub proof fn writes_carry_a_token(
    cl: ClientV,
    call: CallV,
    ex: ExchangeV,
    reply: HttpReplyV,
    token: TokenReplyV,
    now: u64,
)
    requires
        !cl.cfg.v4(),
        token_kept(cl),
        carries_token(ex),
    ensures
        next_of(begun(cl, call, now)) matches Some(n) ==> carries_token(n),
        next_of(tried(cl, ex, now)) matches Some(n) ==> carries_token(n),
        next_of(token_came(cl, ex, token, now).1) matches Some(n) ==> carries_token(n),
        next_of(replied(cl, ex, reply, now).1) matches Some(n) ==> carries_token(n),
        token_kept(token_came(cl, ex, token, now).0),
        token_kept(replied(cl, ex, reply, now).0),
{
    lemma_begun_token(cl, call, now);
    assert forall|c: ClientV, e: ExchangeV| next_of(#[trigger] tried(c, e, now)) == Some(e) by {
        lemma_tried(c, e, now);
    }
    assert forall|job: JobV, csrf: Seq<char>| csrf.len() > 0 implies with_token(
        (#[trigger] write_request(job, csrf)).headers,
    ) by {
        lemma_write_token(job, csrf);
    }
}

/// The version that a change or an end of an entity names: the one that is given, or any.
pub open spec fn version_named(etag: Option<Seq<char>>) -> Seq<char> {
    match etag {
        Some(e) => e,
        None => "*"@,
    }
}

/// The write that an exchange is for, if any.
pub open spec fn job_of(ex: ExchangeV) -> Option<JobV> {
    match ex.purpose {
        PurposeV::Csrf { job, .. } => Some(job),
        PurposeV::Write { job, .. } => Some(job),
        _ => None,
    }
}

/// A change or an end of an entity always says which version of it is meant: the one that
/// is given, or any.
pub proof fn changes_name_a_version(
    cl: ClientV,
    service: Option<Seq<char>>,
    entity_set: Seq<char>,
    key_segment: Seq<char>,
    body: JsonV,
    etag: Option<Seq<char>>,
    csrf: Seq<char>,
    now: u64,
)
    ensures
        ({
            let call = CallV::Update { service, entity_set, key_segment, body, etag };
            next_of(begun(cl, call, now)) matches Some(n) ==> (job_of(n) matches Some(job)
                && write_request(job, csrf).headers.contains(("If-Match"@, version_named(etag))))
        }),
        ({
            let call = CallV::Delete { service, entity_set, key_segment, etag };
            next_of(begun(cl, call, now)) matches Some(n) ==> (job_of(n) matches Some(job)
                && write_request(job, csrf).headers.contains(("If-Match"@, version_named(etag))))
        }),
{
    assert forall|job: JobV| job.if_match == Some(version_named(etag)) implies (
    #[trigger] write_request(job, csrf)).headers.contains(("If-Match"@, version_named(etag))) by {
        assert(write_request(job, csrf).headers[0] == ("If-Match"@, version_named(etag)));
    }
}

/// An exchange is tried again at most as often as it may be, and each time after a wait
/// of at most sixteen seconds.
pub proof fn tries_are_bounded(cl: ClientV, ex: ExchangeV, reply: HttpReplyV, now: u64)
    requires
        ex.attempt <= ex.max,
    ensures
        replied(cl, ex, reply, now).1 matches ProgressV::Sleep { ms, next } ==> ex.attempt
            < next.attempt <= next.max && next.max == ex.max && 500 <= ms <= 16000,
{
    lemma2_to64();
}

/// How many more requests of another kind an exchange can lead to, with itself.
pub open spec fn stages_left(p: PurposeV) -> nat {
    match p {
        PurposeV::Csrf { refreshed, .. } => if refreshed {
            2
        } else {
            4
        },
        PurposeV::Write { refreshed, .. } => if refreshed {
            1
        } else {
            3
        },
        _ => 1,
    }
}

/// A call comes to an end, whatever is answered: an answer ends it, or leads to another
/// request of which there are only so many, or to another of the tries, which are bounded;
/// and a request for an access token leads back to the request that needs it.
pub proof fn calls_come_to_an_end(
    cl: ClientV,
    ex: ExchangeV,
    reply: HttpReplyV,
    token: TokenReplyV,
    now: u64,
)
    ensures
        replied(cl, ex, reply, now).1 matches ProgressV::Sleep { next, .. } ==> next.purpose
            == ex.purpose && next.attempt == ex.attempt + 1 && next.attempt <= next.max && next.max
            == ex.max,
        !(replied(cl, ex, reply, now).1 is Sleep) ==> (next_of(
            replied(cl, ex, reply, now).1,
        ) matches Some(n) ==> stages_left(n.purpose) < stages_left(ex.purpose)),
        next_of(tried(cl, ex, now)) == Some(ex),
        token_came(cl, ex, token, now).1 is Done || (token_came(cl, ex, token, now).1 is Send
            && next_of(token_came(cl, ex, token, now).1) == Some(ex)),
{
    assert forall|c: ClientV, e: ExchangeV| next_of(#[trigger] tried(c, e, now)) == Some(e) by {
        lemma_tried(c, e, now);
    }
}

} // verus!
