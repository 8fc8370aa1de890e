//! The parts that the operations of tools are made of.

use vstd::prelude::*;
use vstd::string::*;
use crate::config::{entity_allowed, entity_open, flag, odata_name, text_result, valid_odata_name, ConfigV, Env, SapInstanceConfig, Vars};
use crate::edmx::{sap_attr, set_object, sets_hold_what_is_advertised, TagV};
use crate::entity::{array_at, auth_fp, credential_mark, find_set, set_in};
use crate::gated::{token_of, APPROVAL_TTL_SECS};
use crate::json::{lemma_values, no_members, opt_json_v, opt_str_v, push_value, values, Json, JsonV, Members, NumV, Object};
use crate::registry::strings_of_map;
use crate::strmap::{find, lemma_each_find, put, put_is_found, without, StrMap};
use crate::tenant::{Tenant, TenantV};
use crate::text::{cat3, chars_of, contains_text, has_part, list_has, lower, lowercase, opt_text, same, texts, trim_start_char, trim_start_of};

verus! {

/// A text with every slash made a dot.
pub open spec fn dotted(s: Seq<char>) -> Seq<char> {
    s.map_values(
        |c: char|
            if c == '/' {
                '.'
            } else {
                c
            },
    )
}

/// The name of the argument that a pointer leads to.
pub open spec fn field_of(pointer: Seq<char>) -> Seq<char> {
    trim_start_of(dotted(pointer), '.')
}

/// The name of the argument that a pointer leads to: `/a` leads to `a`.
pub fn pointer_field(pointer: &str) -> (r: String)
    ensures
        r@ == field_of(pointer@),
{
    let v = chars_of(pointer);
    let mut out = String::new();
    assert(out@ =~= dotted(pointer@.take(0)));
    let mut i: usize = 0;
    while i < v.len()
        invariant
            i <= v@.len(),
            v@ == pointer@,
            out@ == dotted(pointer@.take(i as int)),
        decreases v@.len() - i,
    {
        let c = v[i];
        let d: char = if c == '/' {
            '.'
        } else {
            c
        };
        out.push(d);
        assert(out@ =~= dotted(pointer@.take(i + 1)));
        i = i + 1;
    }
    assert(pointer@.take(i as int) =~= pointer@);
    trim_start_char(out.as_str(), '.')
}

/// The input of an operation: the argument to which the tool maps it.
pub open spec fn input(map: Seq<(Seq<char>, Seq<char>)>, args: JsonV, key: Seq<char>) -> Option<
    JsonV,
> {
    match find(map, key) {
        Some(pointer) => args.get(field_of(pointer)),
        None => None,
    }
}

/// The input of an operation, where it is a text.
pub open spec fn input_text(
    map: Seq<(Seq<char>, Seq<char>)>,
    args: JsonV,
    key: Seq<char>,
) -> Option<Seq<char>> {
    match input(map, args, key) {
        Some(v) => v.text(),
        None => None,
    }
}

/// The input of an operation: the argument to which the tool maps it.
pub fn get_input<'a>(map: &StrMap<String>, args: &'a Json, key: &str) -> (r: Option<&'a Json>)
    ensures
        (match r {
            Some(v) => input(strings_of_map(map@), args@, key@) == Some(v@),
            None => input(strings_of_map(map@), args@, key@) is None,
        }),
{
    proof {
        lemma_each_find(map@, |s: String| s@, key@);
    }
    match map.get(key) {
        Some(pointer) => args.get(pointer_field(pointer.as_str()).as_str()),
        None => None,
    }
}

/// The input of an operation, where it is a text.
pub fn get_text(map: &StrMap<String>, args: &Json, key: &str) -> (r: Option<String>)
    ensures
        opt_text(r) == input_text(strings_of_map(map@), args@, key@),
{
    match get_input(map, args, key) {
        Some(v) => match v.as_str() {
            Some(s) => Some(s.clone()),
            None => None,
        },
        None => None,
    }
}

/// Which client a call goes through: that of a system, or one of its own with the
/// credentials of the call.
pub enum ClientRef {
    Pooled(String),
    Override(SapInstanceConfig),
}

/// Which client a call goes through.
pub enum RefV {
    Pooled(Seq<char>),
    Override(ConfigV),
}

impl ClientRef {
    /// Which client it is.
    pub open spec fn view(&self) -> RefV {
        match self {
            ClientRef::Pooled(n) => RefV::Pooled(n@),
            ClientRef::Override(c) => RefV::Override(c@),
        }
    }

    /// A copy.
    pub fn copy(&self) -> (r: ClientRef)
        ensures
            r@ == self@,
    {
        match self {
            ClientRef::Pooled(n) => ClientRef::Pooled(n.clone()),
            ClientRef::Override(c) => ClientRef::Override(c.copy()),
        }
    }
}

/// Whether a call brings its own credentials.
pub open spec fn brings_credentials(args: JsonV) -> bool {
    args.get("auth_username"@) is Some || args.get("auth_password"@) is Some || args.get(
        "auth_token"@,
    ) is Some
}

/// Whether a call brings its own credentials.
pub fn has_credentials(args: &Json) -> (r: bool)
    ensures
        r == brings_credentials(args@),
{
    args.get("auth_username").is_some() || args.get("auth_password").is_some() || args.get(
        "auth_token",
    ).is_some()
}

/// Whether a call may bring its own credentials: that of a caller who may use
/// everything, where the server was told to allow it.
pub open spec fn may_override(env: Vars, t: TenantV) -> bool {
    t is Full && flag(env, "SAP_MCP_ALLOW_AUTH_OVERRIDE"@)
}

/// The settings of a system with the credentials of a call in place of its own.
pub open spec fn overridden(cfg: ConfigV, args: JsonV) -> ConfigV {
    let a = match args.text_at("auth_username"@) {
        Some(u) => ConfigV { username: Some(u), auth_type: "basic"@, ..cfg },
        None => cfg,
    };
    let b = match args.text_at("auth_password"@) {
        Some(p) => ConfigV { password: Some(p), auth_type: "basic"@, ..a },
        None => a,
    };
    match args.text_at("auth_token"@) {
        Some(t) => ConfigV { token: Some(t), auth_type: "bearer"@, ..b },
        None => b,
    }
}

/// The settings of a system with the credentials of a call in place of its own.
pub fn override_config(cfg: SapInstanceConfig, args: &Json) -> (r: SapInstanceConfig)
    ensures
        r@ == overridden(cfg@, args@),
{
    let mut c = cfg;
    if let Some(u) = args.str_at("auth_username") {
        c.username = Some(u.clone());
        c.auth_type = "basic".to_owned();
    }
    if let Some(p) = args.str_at("auth_password") {
        c.password = Some(p.clone());
        c.auth_type = "basic".to_owned();
    }
    if let Some(t) = args.str_at("auth_token") {
        c.token = Some(t.clone());
        c.auth_type = "bearer".to_owned();
    }
    assert(c@ =~= overridden(cfg@, args@));
    c
}

/// An operation that is under way: what it is, its inputs, who called for it, and which
/// system and client it goes through.
pub struct OpCtx {
    pub op: String,
    pub map: StrMap<String>,
    pub args: Json,
    pub instance: String,
    pub tenant: Tenant,
    pub client: ClientRef,
}

/// An operation that is under way.
#[verifier::ext_equal]
pub struct CtxV {
    pub op: Seq<char>,
    pub map: Seq<(Seq<char>, Seq<char>)>,
    pub args: JsonV,
    pub instance: Seq<char>,
    pub tenant: TenantV,
    pub client: RefV,
}

/// What an operation on an entity that may not be touched is answered.
pub open spec fn blocked_message(entity: Seq<char>) -> Seq<char> {
    "entity '"@ + entity + "' blocked by SAP_ENTITY_ALLOW/SAP_ENTITY_DENY"@
}

/// What an operation on an entity that may not be touched is answered.
pub fn blocked(entity: &str) -> (r: String)
    ensures
        r@ == blocked_message(entity@),
{
    cat3("entity '", entity, "' blocked by SAP_ENTITY_ALLOW/SAP_ENTITY_DENY")
}

impl CtxV {
    /// An input.
    pub open spec fn get(self, key: Seq<char>) -> Option<JsonV> {
        input(self.map, self.args, key)
    }

    /// An input, where it is a text.
    pub open spec fn text(self, key: Seq<char>) -> Option<Seq<char>> {
        input_text(self.map, self.args, key)
    }

    /// An input, where it is a truth value; otherwise false.
    pub open spec fn truth(self, key: Seq<char>) -> bool {
        match self.get(key) {
            Some(v) => v.boolean() == Some(true),
            None => false,
        }
    }

    /// The entity that the operation is about, or what is wrong with it.
    pub open spec fn entity(self) -> Result<Seq<char>, Seq<char>> {
        match self.text("entity"@) {
            None => Err("missing 'entity'"@),
            Some(e) => if odata_name(e) {
                Ok(e)
            } else {
                Err("invalid entity name '"@ + e + "'"@)
            },
        }
    }

    /// The operation that a write asks for, or what is wrong with it.
    pub open spec fn operation(self) -> Result<Seq<char>, Seq<char>> {
        let o = match self.text("operation"@) {
            Some(x) => x,
            None => "create"@,
        };
        if o == "create"@ || o == "update"@ || o == "delete"@ {
            Ok(o)
        } else {
            Err("invalid operation '"@ + o + "' (create|update|delete)"@)
        }
    }

    /// The write that is approved.
    pub open spec fn payload(self, entity: Seq<char>, operation: Seq<char>) -> JsonV {
        let o = put(no_members(), "instance"@, JsonV::Str(self.instance));
        let o = put(o, "service"@, opt_str_v(self.text("service"@)));
        let o = put(o, "model"@, JsonV::Str(entity));
        let o = put(o, "operation"@, JsonV::Str(operation));
        let o = put(o, "keys"@, opt_json_v(self.get("keys"@)));
        let o = put(o, "values"@, opt_json_v(self.get("values"@)));
        let o = put(o, "etag"@, opt_json_v(self.get("etag"@)));
        JsonV::Obj(put(o, "auth_fp"@, JsonV::Str(credential_mark(self.args))))
    }
}

fn value_or_null(v: Option<&Json>) -> (r: Json)
    ensures
        r@ == opt_json_v(crate::config::opt_json(v)),
{
    match v {
        Some(x) => x.copy(),
        None => Json::Null,
    }
}

impl OpCtx {
    /// What is under way.
    pub open spec fn view(&self) -> CtxV {
        CtxV {
            op: self.op@,
            map: strings_of_map(self.map@),
            args: self.args@,
            instance: self.instance@,
            tenant: self.tenant@,
            client: self.client@,
        }
    }

    /// An input.
    pub fn get(&self, key: &str) -> (r: Option<&Json>)
        ensures
            crate::config::opt_json(r) == self@.get(key@),
    {
        get_input(&self.map, &self.args, key)
    }

    /// An input, where it is a text.
    pub fn text(&self, key: &str) -> (r: Option<String>)
        ensures
            opt_text(r) == self@.text(key@),
    {
        get_text(&self.map, &self.args, key)
    }

    /// An input, where it is a truth value; otherwise false.
    pub fn truth(&self, key: &str) -> (r: bool)
        ensures
            r == self@.truth(key@),
    {
        match self.get(key) {
            Some(v) => match v.as_bool() {
                Some(b) => b,
                None => false,
            },
            None => false,
        }
    }

    /// The entity that the operation is about, or what is wrong with it.
    pub fn entity(&self) -> (r: Result<String, String>)
        ensures
            text_result(r) == self@.entity(),
    {
        match self.text("entity") {
            None => Err("missing 'entity'".to_owned()),
            Some(e) => if valid_odata_name(e.as_str()) {
                Ok(e)
            } else {
                Err(cat3("invalid entity name '", e.as_str(), "'"))
            },
        }
    }

    /// The operation that a write asks for, or what is wrong with it.
    pub fn operation(&self) -> (r: Result<String, String>)
        ensures
            text_result(r) == self@.operation(),
    {
        let o: String = match self.text("operation") {
            Some(x) => x,
            None => "create".to_owned(),
        };
        if same(o.as_str(), "create") || same(o.as_str(), "update") || same(o.as_str(), "delete") {
            Ok(o)
        } else {
            Err(cat3("invalid operation '", o.as_str(), "' (create|update|delete)"))
        }
    }

    /// The write that is approved.
    pub fn payload(&self, entity: &str, operation: &str) -> (r: Json)
        ensures
            r@ == self@.payload(entity@, operation@),
    {
        let mut o = Object::new();
        o.set("instance", Json::str(self.instance.as_str()));
        o.set("service", Json::opt_str(&self.text("service")));
        o.set("model", Json::str(entity));
        o.set("operation", Json::str(operation));
        o.set("keys", value_or_null(self.get("keys")));
        o.set("values", value_or_null(self.get("values")));
        o.set("etag", value_or_null(self.get("etag")));
        o.set("auth_fp", Json::str(auth_fp(&self.args).as_str()));
        Json::Object(o)
    }
}

/// Whether an entity set is shown: it has a name that may be touched, and, in lower
/// case, holds the text that is looked for.
pub open spec fn set_shown(env: Vars, q: Seq<char>, s: JsonV) -> bool {
    match s.text_at("name"@) {
        Some(n) => entity_open(env, n) && (q.len() == 0 || has_part(lowercase(n), q)),
        None => false,
    }
}

fn is_set_shown(env: &Env, q: &str, s: &Json) -> (r: bool)
    ensures
        r == set_shown(env@, q@, s@),
{
    match s.str_at("name") {
        Some(n) => entity_allowed(env, n.as_str()) && (q.is_empty() || contains_text(
            lower(n.as_str()).as_str(),
            q,
        )),
        None => false,
    }
}

/// The entity sets that are shown.
pub open spec fn shown_sets(env: Vars, q: Seq<char>, sets: Seq<JsonV>) -> Seq<JsonV>
    decreases sets.len(),
{
    if sets.len() == 0 {
        Seq::empty()
    } else {
        let head = shown_sets(env, q, sets.drop_last());
        if set_shown(env, q, sets.last()) {
            head.push(sets.last())
        } else {
            head
        }
    }
}

/// The entity sets of a metadata document that are shown.
pub fn list_sets(env: &Env, q: &str, md: &Json) -> (r: Vec<Json>)
    ensures
        values(r@) == shown_sets(env@, q@, array_at(md@, "entity_sets"@)),
{
    let mut out: Vec<Json> = Vec::new();
    assert(values(out@) =~= Seq::<JsonV>::empty());
    if let Some(Json::Array(sets)) = md.get("entity_sets") {
        let ghost all = values(sets@);
        let mut i: usize = 0;
        proof {
            lemma_values(sets@);
        }
        while i < sets.len()
            invariant
                i <= sets@.len(),
                all == values(sets@),
                values(out@) == shown_sets(env@, q@, all.take(i as int)),
            decreases sets@.len() - i,
        {
            proof {
                lemma_values(sets@);
                assert(all.take(i + 1).drop_last() =~= all.take(i as int));
                assert(all.take(i + 1).last() == sets@[i as int]@);
            }
            if is_set_shown(env, q, &sets[i]) {
                push_value(&mut out, sets[i].copy());
            }
            i = i + 1;
        }
        proof {
            lemma_values(sets@);
            assert(all.take(i as int) =~= all);
        }
    }
    out
}

/// An entity set with its name and capabilities only.
pub open spec fn slim(s: JsonV) -> JsonV {
    match s {
        JsonV::Obj(m) => JsonV::Obj(without(m, "addressable"@)),
        _ => s,
    }
}

/// What `discover` answers.
pub open spec fn discovered(env: Vars, query: Option<Seq<char>>, md: JsonV) -> JsonV {
    let q = lowercase(
        match query {
            Some(x) => x,
            None => ""@,
        },
    );
    let sets = shown_sets(env, q, array_at(md, "entity_sets"@));
    let o = put(
        no_members(),
        "entities"@,
        JsonV::Arr(Seq::new(sets.len(), |i: int| slim(sets[i]))),
    );
    JsonV::Obj(put(o, "count"@, JsonV::Num(NumV::Pos(sets.len() as u64))))
}

/// What `discover` answers: the entity sets that may be touched and match the query.
pub fn discover(env: &Env, query: &Option<String>, md: &Json) -> (r: Json)
    ensures
        r@ == discovered(env@, opt_text(*query), md@),
{
    let q: String = match query {
        Some(x) => lower(x.as_str()),
        None => lower(""),
    };
    let sets = list_sets(env, q.as_str(), md);
    let ghost all = values(sets@);
    let n: usize = sets.len();
    let mut out: Vec<Json> = Vec::new();
    let mut i: usize = 0;
    proof {
        lemma_values(sets@);
    }
    while i < n
        invariant
            i <= n,
            n == sets@.len(),
            all == values(sets@),
            out@.len() == i,
            forall|k: int| 0 <= k < i ==> #[trigger] out@[k]@ == slim(all[k]),
        decreases n - i,
    {
        proof {
            lemma_values(sets@);
        }
        let s: Json = match &sets[i] {
            Json::Object(o) => {
                let mut o2 = o.copy();
                o2.remove("addressable");
                Json::Object(o2)
            },
            other => other.copy(),
        };
        out.push(s);
        i = i + 1;
    }
    proof {
        lemma_values(out@);
        lemma_values(sets@);
        assert(values(out@) =~= Seq::new(all.len(), |i: int| slim(all[i])));
    }
    let mut o = Object::new();
    o.set("entities", Json::Array(out));
    o.set("count", Json::num(n as u64));
    Json::Object(o)
}

/// No entity set is shown that may not be touched.
pub proof fn shown_sets_are_open(env: Vars, q: Seq<char>, sets: Seq<JsonV>, i: int)
    requires
        0 <= i < shown_sets(env, q, sets).len(),
    ensures
        shown_sets(env, q, sets)[i].text_at("name"@) matches Some(n) && entity_open(env, n),
    decreases sets.len(),
{
    let head = shown_sets(env, q, sets.drop_last());
    if i < head.len() {
        shown_sets_are_open(env, q, sets.drop_last(), i);
    }
}

/// An approval, as a JSON object.
pub open spec fn approval(payload: JsonV) -> JsonV {
    let o = put(no_members(), "token"@, JsonV::Str(token_of(payload)));
    JsonV::Obj(put(o, "payload"@, payload))
}

/// An approval, as a JSON object.
fn approval_json(token: &str, payload: &Json) -> (r: Json)
    requires
        token@ == token_of(payload@),
    ensures
        r@ == approval(payload@),
{
    let mut o = Object::new();
    o.set("token", Json::str(token));
    o.set("payload", payload.copy());
    Json::Object(o)
}

/// What `preview_write` answers.
pub open spec fn previewed(payload: JsonV) -> JsonV {
    let o = put(no_members(), "approval"@, approval(payload));
    let o = put(o, "preview"@, payload);
    JsonV::Obj(put(o, "next"@, JsonV::Str("call sap_validate_write with same payload"@)))
}

/// What `preview_write` answers.
pub(crate) fn preview_json(token: &str, payload: &Json) -> (r: Json)
    requires
        token@ == token_of(payload@),
    ensures
        r@ == previewed(payload@),
{
    let mut o = Object::new();
    o.set("approval", approval_json(token, payload));
    o.set("preview", payload.copy());
    o.set("next", Json::str("call sap_validate_write with same payload"));
    Json::Object(o)
}

/// The names of the properties that have one.
pub open spec fn property_names(a: Seq<JsonV>) -> Seq<Seq<char>>
    decreases a.len(),
{
    if a.len() == 0 {
        Seq::empty()
    } else {
        let head = property_names(a.drop_last());
        match a.last().text_at("name"@) {
            Some(n) => head.push(n),
            None => head,
        }
    }
}

fn names_of_properties(meta: &Json) -> (r: Vec<String>)
    ensures
        texts(r@) == property_names(array_at(meta@, "properties"@)),
{
    let mut out: Vec<String> = Vec::new();
    assert(texts(out@) =~= Seq::<Seq<char>>::empty());
    if let Some(Json::Array(a)) = meta.get("properties") {
        let ghost all = values(a@);
        let mut i: usize = 0;
        proof {
            lemma_values(a@);
        }
        while i < a.len()
            invariant
                i <= a@.len(),
                all == values(a@),
                texts(out@) == property_names(all.take(i as int)),
            decreases a@.len() - i,
        {
            proof {
                lemma_values(a@);
                assert(all.take(i + 1).drop_last() =~= all.take(i as int));
                assert(all.take(i + 1).last() == a@[i as int]@);
            }
            if let Some(n) = a[i].str_at("name") {
                let ghost prev = texts(out@);
                out.push(n.clone());
                assert(texts(out@) =~= prev.push(n@));
            }
            i = i + 1;
        }
        proof {
            lemma_values(a@);
            assert(all.take(i as int) =~= all);
        }
    }
    out
}

/// An issue, as a JSON object.
pub open spec fn issue(what: Seq<char>) -> JsonV {
    JsonV::Obj(put(no_members(), "issue"@, JsonV::Str(what)))
}

fn issue_json(what: &str) -> (r: Json)
    ensures
        r@ == issue(what@),
{
    let mut o = Object::new();
    o.set("issue", Json::str(what));
    Json::Object(o)
}

/// The issue of a value for a property that there is not.
pub open spec fn unknown_property(field: Seq<char>) -> JsonV {
    let o = put(no_members(), "field"@, JsonV::Str(field));
    JsonV::Obj(put(o, "issue"@, JsonV::Str("unknown_property"@)))
}

/// The issues of the values for properties that there are not.
pub open spec fn unknown_properties(m: Members, known: Seq<Seq<char>>) -> Seq<JsonV>
    decreases m.len(),
{
    if m.len() == 0 {
        Seq::empty()
    } else {
        let head = unknown_properties(m.drop_last(), known);
        if known.contains(m.last().0) {
            head
        } else {
            head.push(unknown_property(m.last().0))
        }
    }
}

/// The issues of values for properties that there are not.
pub open spec fn value_issues(meta: JsonV, vals: Option<JsonV>) -> Seq<JsonV> {
    match vals {
        Some(JsonV::Obj(m)) => unknown_properties(
            m,
            property_names(array_at(meta, "properties"@)),
        ),
        _ => Seq::empty(),
    }
}

fn find_value_issues(meta: &Json, vals: Option<&Json>) -> (r: Vec<Json>)
    ensures
        values(r@) == value_issues(meta@, crate::config::opt_json(vals)),
{
    let mut out: Vec<Json> = Vec::new();
    assert(values(out@) =~= Seq::<JsonV>::empty());
    if let Some(Json::Object(m)) = vals {
        let known = names_of_properties(meta);
        let n: usize = m.len();
        let mut i: usize = 0;
        while i < n
            invariant
                i <= n,
                n == m@.len(),
                values(out@) == unknown_properties(m@.take(i as int), texts(known@)),
            decreases n - i,
        {
            assert(m@.take(i + 1).drop_last() =~= m@.take(i as int));
            if !list_has(&known, m.key_at(i).as_str()) {
                let mut o = Object::new();
                o.set("field", Json::str(m.key_at(i).as_str()));
                o.set("issue", Json::str("unknown_property"));
                push_value(&mut out, Json::Object(o));
            }
            i = i + 1;
        }
        assert(m@.take(i as int) =~= m@);
    }
    out
}

/// Whether keys are given: an object that is not empty.
pub open spec fn keys_given(keys: Option<JsonV>) -> bool {
    keys matches Some(JsonV::Obj(m)) && m.len() > 0
}

fn are_keys_given(keys: Option<&Json>) -> (r: bool)
    ensures
        r == keys_given(crate::config::opt_json(keys)),
{
    match keys {
        Some(Json::Object(m)) => m.len() > 0,
        _ => false,
    }
}

/// What an entity set has to be able to do for an operation.
pub open spec fn capability(operation: Seq<char>) -> Seq<char> {
    if operation == "create"@ {
        "creatable"@
    } else if operation == "update"@ {
        "updatable"@
    } else {
        "deletable"@
    }
}

/// Whether the metadata says that an entity set cannot do what an operation needs.
pub open spec fn incapable(md: JsonV, entity: Seq<char>, operation: Seq<char>) -> bool {
    match set_in(md, entity) {
        Some(s) => match s.get(capability(operation)) {
            Some(b) => b.boolean() == Some(false),
            None => false,
        },
        None => false,
    }
}

fn is_incapable(md: &Json, entity: &str, cap: &str) -> (r: bool)
    ensures
        r == (match set_in(md@, entity@) {
            Some(s) => match s.get(cap@) {
                Some(b) => b.boolean() == Some(false),
                None => false,
            },
            None => false,
        }),
{
    match find_set(md, entity) {
        Some(s) => match s.get(cap) {
            Some(b) => match b.as_bool() {
                Some(x) => !x,
                None => false,
            },
            None => false,
        },
        None => false,
    }
}

/// The issues of a write, in the order in which they are reported.
pub open spec fn write_issues(
    md: JsonV,
    meta: JsonV,
    entity: Seq<char>,
    operation: Seq<char>,
    keys: Option<JsonV>,
    vals: Option<JsonV>,
) -> Seq<JsonV> {
    let a = value_issues(meta, vals);
    let b = if operation != "create"@ && !keys_given(keys) {
        seq![issue("keys_required_for_update_delete"@)]
    } else {
        Seq::empty()
    };
    let c = if incapable(md, entity, operation) {
        seq![issue("entity_not_"@ + capability(operation) + "_per_metadata"@)]
    } else {
        Seq::empty()
    };
    a + b + c
}

/// Whether a write cannot be approved: it has values for properties that there are not,
/// or lacks the keys that it needs.
pub open spec fn hopeless(
    meta: JsonV,
    operation: Seq<char>,
    keys: Option<JsonV>,
    vals: Option<JsonV>,
) -> bool {
    value_issues(meta, vals).len() > 0 || (operation != "create"@ && !keys_given(keys))
}

/// The issues of a write, and whether it cannot be approved.
pub fn check_write(
    md: &Json,
    meta: &Json,
    entity: &str,
    operation: &str,
    keys: Option<&Json>,
    vals: Option<&Json>,
) -> (r: (Vec<Json>, bool))
    ensures
        values(r.0@) == write_issues(
            md@,
            meta@,
            entity@,
            operation@,
            crate::config::opt_json(keys),
            crate::config::opt_json(vals),
        ),
        r.1 == hopeless(
            meta@,
            operation@,
            crate::config::opt_json(keys),
            crate::config::opt_json(vals),
        ),
{
    let mut issues = find_value_issues(meta, vals);
    let ghost a = values(issues@);
    proof {
        lemma_values(issues@);
    }
    let mut hard: bool = issues.len() > 0;
    let create = same(operation, "create");
    if !create && !are_keys_given(keys) {
        hard = true;
        push_value(&mut issues, issue_json("keys_required_for_update_delete"));
    }
    let cap: &str = if create {
        "creatable"
    } else if same(operation, "update") {
        "updatable"
    } else {
        "deletable"
    };
    if is_incapable(md, entity, cap) {
        push_value(
            &mut issues,
            issue_json(cat3("entity_not_", cap, "_per_metadata").as_str()),
        );
    }
    assert(values(issues@) =~= write_issues(
        md@,
        meta@,
        entity@,
        operation@,
        crate::config::opt_json(keys),
        crate::config::opt_json(vals),
    ));
    (issues, hard)
}

/// What `validate_write` answers.
pub open spec fn validated(payload: JsonV, stored: bool, issues: Seq<JsonV>) -> JsonV {
    let s = put(no_members(), "stored"@, JsonV::Bool(stored));
    let s = put(s, "expires_in_seconds"@, JsonV::Num(NumV::Pos(APPROVAL_TTL_SECS)));
    let o = put(no_members(), "approval"@, approval(payload));
    let o = put(o, "approval_status"@, JsonV::Obj(s));
    let o = put(o, "issues"@, JsonV::Arr(issues));
    JsonV::Obj(put(o, "metadata_source"@, JsonV::Str("server"@)))
}

/// What `validate_write` answers.
pub(crate) fn validate_json(token: &str, payload: &Json, stored: bool, issues: Vec<Json>) -> (r: Json)
    requires
        token@ == token_of(payload@),
    ensures
        r@ == validated(payload@, stored, values(issues@)),
{
    let mut s = Object::new();
    s.set("stored", Json::Bool(stored));
    s.set("expires_in_seconds", Json::num(APPROVAL_TTL_SECS));
    let mut o = Object::new();
    o.set("approval", approval_json(token, payload));
    o.set("approval_status", Json::Object(s));
    o.set("issues", Json::Array(issues));
    o.set("metadata_source", Json::str("server"));
    Json::Object(o)
}

/// What a write that was carried out is answered.
pub open spec fn executed(result: JsonV) -> JsonV {
    let o = put(no_members(), "success"@, JsonV::Bool(true));
    JsonV::Obj(put(o, "result"@, result))
}

/// What a write that was carried out is answered.
pub fn executed_json(result: Json) -> (r: Json)
    ensures
        r@ == executed(result@),
{
    let mut o = Object::new();
    o.set("success", Json::Bool(true));
    o.set("result", result);
    Json::Object(o)
}

/// A write that cannot be approved is never reported without an issue.
pub proof fn hopeless_writes_have_issues(
    md: JsonV,
    meta: JsonV,
    entity: Seq<char>,
    operation: Seq<char>,
    keys: Option<JsonV>,
    vals: Option<JsonV>,
)
    requires
        hopeless(meta, operation, keys, vals),
    ensures
        write_issues(md, meta, entity, operation, keys, vals).len() > 0,
{
}

/// A capability counts only when the metadata advertises it: an entity set whose document
/// says nothing of what an operation needs is not taken to lack it.
pub proof fn silence_is_no_issue(
    md: JsonV,
    entity: Seq<char>,
    operation: Seq<char>,
    name: Seq<char>,
    t: TagV,
)
    requires
        set_in(md, entity) == Some(set_object(name, t)),
        capability(operation) == "creatable"@ ==> sap_attr(
            t,
            "creatable"@,
            "sap:creatable"@,
        ) is None,
        capability(operation) == "updatable"@ ==> sap_attr(
            t,
            "updatable"@,
            "sap:updatable"@,
        ) is None,
        capability(operation) == "deletable"@ ==> sap_attr(
            t,
            "deletable"@,
            "sap:deletable"@,
        ) is None,
    ensures
        !incapable(md, entity, operation),
{
    sets_hold_what_is_advertised(name, t);
}

/// The input of an operation is the argument that the tool maps it to: `/name` leads to `name`.
pub proof fn inputs_are_their_arguments(
    map: Seq<(Seq<char>, Seq<char>)>,
    args: JsonV,
    key: Seq<char>,
    name: Seq<char>,
)
    requires
        find(map, key) == Some(seq!['/'] + name),
        name.len() > 0,
        name[0] != '.',
        !name.contains('/'),
    ensures
        input(map, args, key) == args.get(name),
        args.get(name) matches Some(JsonV::Str(s)) ==> input_text(map, args, key) == Some(s),
        !(args.get(name) matches Some(JsonV::Str(_))) ==> input_text(map, args, key) is None,
{
    let p = seq!['/'] + name;
    let d = dotted(p);
    assert(name.contains(name[0]));
    assert(d[0] == '.');
    assert(d.drop_first() =~= name) by {
        assert forall|i: int| 0 <= i < name.len() implies d[i + 1] == name[i] by {
            assert(name.contains(name[i]));
        }
    }
    assert(trim_start_of(name, '.') == name);
    assert(field_of(p) == name);
}

/// What a tool does not map has no input.
pub proof fn unmapped_inputs_are_missing(
    map: Seq<(Seq<char>, Seq<char>)>,
    args: JsonV,
    key: Seq<char>,
)
    requires
        find(map, key) is None,
    ensures
        input(map, args, key) is None,
        input_text(map, args, key) is None,
{
}

/// The credentials of a call take the place of those of the settings; everything else of the
/// settings stays.
pub proof fn own_credentials_replace_those_of_the_system(
    cfg: ConfigV,
    args: JsonV,
    u: Seq<char>,
    p: Seq<char>,
    t: Seq<char>,
)
    ensures
        ({
            let c = overridden(cfg, args);
            &&& args.get("auth_username"@) == Some(JsonV::Str(u)) ==> c.username == Some(u)
            &&& args.get("auth_password"@) == Some(JsonV::Str(p)) ==> c.password == Some(p)
            &&& args.get("auth_token"@) == Some(JsonV::Str(t)) ==> c.token == Some(t) && c.auth_type
                == "bearer"@
            &&& args.get("auth_token"@) is None && (args.get("auth_username"@) == Some(
                JsonV::Str(u),
            ) || args.get("auth_password"@) == Some(JsonV::Str(p))) ==> c.auth_type == "basic"@
            &&& args.get("auth_username"@) is None ==> c.username == cfg.username
            &&& args.get("auth_password"@) is None ==> c.password == cfg.password
            &&& args.get("auth_token"@) is None ==> c.token == cfg.token
            &&& c == (ConfigV {
                username: c.username,
                password: c.password,
                token: c.token,
                auth_type: c.auth_type,
                ..cfg
            })
        }),
{
}

/// The entity sets that are shown are those that may be touched and match, all of them, in
/// their order.
pub proof fn matching_sets_are_all_shown(env: Vars, q: Seq<char>, a: Seq<JsonV>, b: Seq<JsonV>, s: JsonV, n: Seq<char>)
    ensures
        shown_sets(env, q, a + b) == shown_sets(env, q, a) + shown_sets(env, q, b),
        s.get("name"@) == Some(JsonV::Str(n)) && entity_open(env, n) && (q.len() == 0 || has_part(
            lowercase(n),
            q,
        )) ==> shown_sets(env, q, seq![s]) == seq![s],
        s.get("name"@) == Some(JsonV::Str(n)) && (!entity_open(env, n) || (q.len() > 0 && !has_part(
            lowercase(n),
            q,
        ))) ==> shown_sets(env, q, seq![s]) == Seq::<JsonV>::empty(),
    decreases b.len(),
{
    assert(seq![s].drop_last() =~= Seq::<JsonV>::empty());
    assert(shown_sets(env, q, Seq::<JsonV>::empty()) == Seq::<JsonV>::empty());
    assert(Seq::<JsonV>::empty().push(s) =~= seq![s]);
    if b.len() == 0 {
        assert(a + b =~= a);
        assert(shown_sets(env, q, a) + shown_sets(env, q, b) =~= shown_sets(env, q, a));
    } else {
        matching_sets_are_all_shown(env, q, a, b.drop_last(), s, n);
        assert((a + b).drop_last() =~= a + b.drop_last());
        assert(shown_sets(env, q, a + b) =~= shown_sets(env, q, a) + shown_sets(env, q, b));
    }
}

/// What `discover` answers: the sets that are shown, each with all that the metadata says of
/// it but whether it can be addressed, and how many there are. The query is matched without
/// regard to case.
pub proof fn discoveries_show_the_sets(
    env: Vars,
    query: Option<Seq<char>>,
    md: JsonV,
    sets: Seq<JsonV>,
    i: int,
    m: Members,
    k: Seq<char>,
)
    requires
        md.get("entity_sets"@) == Some(JsonV::Arr(sets)),
    ensures
        ({
            let q = match query {
                Some(x) => lowercase(x),
                None => lowercase(Seq::empty()),
            };
            let shown = shown_sets(env, q, sets);
            discovered(env, query, md).get("entities"@) matches Some(JsonV::Arr(e)) && e.len()
                == shown.len() && discovered(env, query, md).get("count"@) == Some(
                JsonV::Num(NumV::Pos(shown.len() as u64)),
            ) && (0 <= i < shown.len() && shown[i] == JsonV::Obj(m) && crate::strmap::sorted_keys(m)
                && k != "addressable"@ ==> e[i].get(k) == find(m, k))
        }),
{
    broadcast use put_is_found;

    reveal_strlit("");
    assert(""@ =~= Seq::<char>::empty());
    reveal_strlit("entities");
    reveal_strlit("count");
    assert("entities"@.len() != "count"@.len());
    let q = match query {
        Some(x) => lowercase(x),
        None => lowercase(Seq::empty()),
    };
    let shown = shown_sets(env, q, sets);
    if 0 <= i < shown.len() && shown[i] == JsonV::Obj(m) && crate::strmap::sorted_keys(m) && k
        != "addressable"@ {
        crate::strmap::lemma_without_find(m, "addressable"@, k);
    }
}

} // verus!
