//! Which fields of which records may be seen.
//!
//! A policy gives rules per system and entity, where `*` stands for every system or
//! every entity. A rule lists fields that are denied, or the only fields that are
//! allowed. What any rule denies is denied; what is allowed has to be allowed by
//! every rule that lists allowed fields. The field `id` is never hidden.

use vstd::prelude::*;
use vstd::string::*;
use crate::config::{filled, non_empty_env, Env, Vars};
use crate::json::{json_parse, lemma_values, no_members, opt_str_v, values, Json, JsonV, Members, Object};
use crate::strmap::{each, find, lemma_each_find, lemma_each_put, put, StrMap};
use crate::text::{before_char, cat2, cat4, first_piece, join, joined, list_has, opt_text, same, texts};

verus! {

/// A rule.
pub struct Rule {
    pub allow: Option<Vec<String>>,
    pub deny: Vec<String>,
}

/// A rule.
#[verifier::ext_equal]
pub struct RuleV {
    pub allow: Option<Seq<Seq<char>>>,
    pub deny: Seq<Seq<char>>,
}

/// The rules by system and entity.
pub type PolicyV = Seq<(Seq<char>, Seq<(Seq<char>, RuleV)>)>;

impl Rule {
    /// What the rule is.
    pub open spec fn view(&self) -> RuleV {
        RuleV {
            allow: match self.allow {
                Some(a) => Some(texts(a@)),
                None => None,
            },
            deny: texts(self.deny@),
        }
    }
}

/// The rules of a system.
pub open spec fn models_of(m: Seq<(Seq<char>, Rule)>) -> Seq<(Seq<char>, RuleV)> {
    each(m, |r: Rule| r@)
}

/// The rules of all systems.
pub open spec fn policy_of(m: Seq<(Seq<char>, StrMap<Rule>)>) -> PolicyV {
    each(m, |models: StrMap<Rule>| models_of(models@))
}

/// The rule for a system and an entity, as they stand in the policy.
pub open spec fn rule_at(p: PolicyV, instance: Seq<char>, model: Seq<char>) -> Option<RuleV> {
    match find(p, instance) {
        Some(models) => find(models, model),
        None => None,
    }
}

/// Whether a rule denies a field.
pub open spec fn rule_denies(r: Option<RuleV>, field: Seq<char>) -> bool {
    r matches Some(x) && x.deny.contains(field)
}

/// Whether a rule that lists allowed fields leaves a field out.
pub open spec fn rule_leaves_out(r: Option<RuleV>, field: Seq<char>) -> bool {
    r matches Some(x) && (x.allow matches Some(a) && !a.contains(field))
}

/// Whether a field is hidden.
pub open spec fn denied(
    p: PolicyV,
    instance: Seq<char>,
    model: Seq<char>,
    field: Seq<char>,
) -> bool {
    let a = rule_at(p, instance, model);
    let b = rule_at(p, instance, "*"@);
    let c = rule_at(p, "*"@, model);
    let d = rule_at(p, "*"@, "*"@);
    &&& field != "id"@
    &&& {
        ||| rule_denies(a, field)
        ||| rule_denies(b, field)
        ||| rule_denies(c, field)
        ||| rule_denies(d, field)
        ||| rule_leaves_out(a, field)
        ||| rule_leaves_out(b, field)
        ||| rule_leaves_out(c, field)
        ||| rule_leaves_out(d, field)
    }
}

/// The members of a record that may be seen.
pub open spec fn redacted(
    p: PolicyV,
    instance: Seq<char>,
    model: Seq<char>,
    m: Members,
) -> Members
    decreases m.len(),
{
    if m.len() == 0 {
        m
    } else if denied(p, instance, model, m[0].0) {
        redacted(p, instance, model, m.drop_first())
    } else {
        seq![m[0]] + redacted(p, instance, model, m.drop_first())
    }
}

/// The names of the members of a record that are hidden.
pub open spec fn hidden(
    p: PolicyV,
    instance: Seq<char>,
    model: Seq<char>,
    m: Members,
) -> Seq<Seq<char>>
    decreases m.len(),
{
    if m.len() == 0 {
        Seq::empty()
    } else if denied(p, instance, model, m[0].0) {
        seq![m[0].0] + hidden(p, instance, model, m.drop_first())
    } else {
        hidden(p, instance, model, m.drop_first())
    }
}

/// A record without what is hidden. What is no record stays.
pub open spec fn redacted_value(
    p: PolicyV,
    instance: Seq<char>,
    model: Seq<char>,
    v: JsonV,
) -> JsonV {
    match v {
        JsonV::Obj(m) => JsonV::Obj(redacted(p, instance, model, m)),
        _ => v,
    }
}

/// Records without what is hidden.
pub open spec fn redacted_all(
    p: PolicyV,
    instance: Seq<char>,
    model: Seq<char>,
    a: Seq<JsonV>,
) -> Seq<JsonV> {
    Seq::new(a.len(), |i: int| redacted_value(p, instance, model, a[i]))
}

/// How many members of records are hidden.
pub open spec fn hidden_count(
    p: PolicyV,
    instance: Seq<char>,
    model: Seq<char>,
    a: Seq<JsonV>,
) -> nat
    decreases a.len(),
{
    if a.len() == 0 {
        0
    } else {
        hidden_count(p, instance, model, a.drop_last()) + (match a.last() {
            JsonV::Obj(m) => hidden(p, instance, model, m).len(),
            _ => 0,
        })
    }
}

/// The fields of a list that are denied, or those that are not.
pub open spec fn chosen(
    p: PolicyV,
    instance: Seq<char>,
    model: Seq<char>,
    fields: Seq<Seq<char>>,
    want_denied: bool,
) -> Seq<Seq<char>>
    decreases fields.len(),
{
    if fields.len() == 0 {
        Seq::empty()
    } else {
        let head = chosen(p, instance, model, fields.drop_last(), want_denied);
        if denied(p, instance, model, fields.last()) == want_denied {
            head.push(fields.last())
        } else {
            head
        }
    }
}

/// The entries of an aggregate whose field, before the colon, is denied.
pub open spec fn bad_aggregates(
    p: PolicyV,
    instance: Seq<char>,
    model: Seq<char>,
    fields: Seq<Seq<char>>,
) -> Seq<Seq<char>>
    decreases fields.len(),
{
    if fields.len() == 0 {
        Seq::empty()
    } else {
        let head = bad_aggregates(p, instance, model, fields.drop_last());
        if denied(p, instance, model, first_piece(fields.last(), ':')) {
            head.push(fields.last())
        } else {
            head
        }
    }
}

/// Where a policy comes from.
pub enum PolicySource {
    /// There is no policy file.
    NoFile,
    /// The file could not be read.
    Unreadable { path: String, error: String },
    /// The file's text. A dedicated file may hold the rules at its root.
    Text { path: String, dedicated: bool, text: String },
}

/// The strings among JSON values.
pub open spec fn string_items(a: Seq<JsonV>) -> Seq<Seq<char>>
    decreases a.len(),
{
    if a.len() == 0 {
        Seq::empty()
    } else {
        let head = string_items(a.drop_last());
        match a.last().text() {
            Some(s) => head.push(s),
            None => head,
        }
    }
}

/// The strings of an array, where the value is one.
pub open spec fn strings_at(v: JsonV, key: Seq<char>) -> Option<Seq<Seq<char>>> {
    match v.get(key) {
        Some(x) => match x.elements() {
            Some(a) => Some(string_items(a)),
            None => None,
        },
        None => None,
    }
}

/// The rule that a JSON value describes.
pub open spec fn rule_of(v: JsonV) -> RuleV {
    RuleV {
        allow: strings_at(v, "allow"@),
        deny: match strings_at(v, "deny"@) {
            Some(d) => d,
            None => Seq::empty(),
        },
    }
}

/// The rules that the members of an object describe.
pub open spec fn rules_in(m: Members) -> Seq<(Seq<char>, RuleV)>
    decreases m.len(),
{
    if m.len() == 0 {
        Seq::empty()
    } else {
        put(rules_in(m.drop_last()), m.last().0, rule_of(m.last().1))
    }
}

/// The rules by system that the members of an object describe.
pub open spec fn policy_in(m: Members) -> PolicyV
    decreases m.len(),
{
    if m.len() == 0 {
        Seq::empty()
    } else {
        match m.last().1.members() {
            Some(models) => put(policy_in(m.drop_last()), m.last().0, rules_in(models)),
            None => policy_in(m.drop_last()),
        }
    }
}

/// The part of a policy document that holds the rules: the member `field_acl`, or, in
/// a dedicated file without it, the document itself.
pub open spec fn acl_part(dedicated: bool, v: JsonV) -> Option<JsonV> {
    match v.get("field_acl"@) {
        Some(x) => Some(x),
        None => if dedicated {
            Some(v)
        } else {
            None
        },
    }
}

/// The policy of a document.
pub open spec fn document_policy(dedicated: bool, v: JsonV) -> PolicyV {
    match acl_part(dedicated, v) {
        Some(JsonV::Obj(m)) => policy_in(m),
        _ => Seq::empty(),
    }
}

fn strings_of(a: &Vec<Json>) -> (r: Vec<String>)
    ensures
        texts(r@) == string_items(values(a@)),
{
    let mut out: Vec<String> = Vec::new();
    let ghost all = values(a@);
    let mut i: usize = 0;
    while i < a.len()
        invariant
            i <= a@.len(),
            all == values(a@),
            texts(out@) == string_items(all.take(i as int)),
        decreases a@.len() - i,
    {
        proof {
            lemma_values(a@);
            assert(all.take(i + 1).drop_last() =~= all.take(i as int));
            assert(all.take(i + 1).last() == a@[i as int]@);
        }
        if let Some(s) = a[i].as_str() {
            let ghost prev = texts(out@);
            out.push(s.clone());
            assert(texts(out@) =~= prev.push(s@));
        }
        i = i + 1;
    }
    proof {
        lemma_values(a@);
        assert(all.take(i as int) =~= all);
    }
    out
}

fn strings_under(v: &Json, key: &str) -> (r: Option<Vec<String>>)
    ensures
        (match r {
            Some(l) => strings_at(v@, key@) == Some(texts(l@)),
            None => strings_at(v@, key@) is None,
        }),
{
    match v.get(key) {
        Some(x) => match x.as_array() {
            Some(a) => Some(strings_of(a)),
            None => None,
        },
        None => None,
    }
}

/// Reads a rule. Lists that are not arrays, and entries that are not strings, are
/// passed over.
pub fn parse_rule(v: &Json) -> (r: Rule)
    ensures
        r@ == rule_of(v@),
{
    let allow = strings_under(v, "allow");
    let deny: Vec<String> = match strings_under(v, "deny") {
        Some(d) => d,
        None => {
            let d: Vec<String> = Vec::new();
            assert(texts(d@) =~= Seq::<Seq<char>>::empty());
            d
        },
    };
    Rule { allow, deny }
}

fn parse_models(o: &Object) -> (r: StrMap<Rule>)
    ensures
        models_of(r@) == rules_in(o@),
{
    let mut out: StrMap<Rule> = StrMap::new();
    assert(models_of(out@) =~= Seq::<(Seq<char>, RuleV)>::empty());
    let n: usize = o.len();
    let mut i: usize = 0;
    while i < n
        invariant
            i <= n,
            n == o@.len(),
            models_of(out@) == rules_in(o@.take(i as int)),
        decreases n - i,
    {
        assert(o@.take(i + 1).drop_last() =~= o@.take(i as int));
        let rule = parse_rule(o.value_at(i));
        let key = o.key_at(i).clone();
        proof {
            lemma_each_put(out@, |r: Rule| r@, key@, rule);
        }
        out.insert(key, rule);
        i = i + 1;
    }
    assert(o@.take(i as int) =~= o@);
    out
}

/// Reads the rules of all systems. What is not an object is passed over.
pub fn parse_acl_map(v: &Json) -> (r: StrMap<StrMap<Rule>>)
    ensures
        policy_of(r@) == (match v@ {
            JsonV::Obj(m) => policy_in(m),
            _ => Seq::empty(),
        }),
{
    let mut out: StrMap<StrMap<Rule>> = StrMap::new();
    assert(policy_of(out@) =~= Seq::<(Seq<char>, Seq<(Seq<char>, RuleV)>)>::empty());
    if let Some(o) = v.as_object() {
        let n: usize = o.len();
        let mut i: usize = 0;
        while i < n
            invariant
                i <= n,
                n == o@.len(),
                policy_of(out@) == policy_in(o@.take(i as int)),
            decreases n - i,
        {
            assert(o@.take(i + 1).drop_last() =~= o@.take(i as int));
            if let Some(models) = o.value_at(i).as_object() {
                let rules = parse_models(models);
                let key = o.key_at(i).clone();
                proof {
                    lemma_each_put(out@, |models: StrMap<Rule>| models_of(models@), key@, rules);
                }
                out.insert(key, rules);
            }
            i = i + 1;
        }
        assert(o@.take(i as int) =~= o@);
    }
    out
}

/// Reads the policy of a document.
pub fn policy_from_document(dedicated: bool, v: &Json) -> (r: StrMap<StrMap<Rule>>)
    ensures
        policy_of(r@) == document_policy(dedicated, v@),
{
    match v.get("field_acl") {
        Some(x) => parse_acl_map(x),
        None => if dedicated {
            parse_acl_map(v)
        } else {
            parse_acl_map(&Json::Null)
        },
    }
}

/// The places where a policy file is looked for if no variable names one.
pub fn policy_candidates() -> (r: Vec<String>)
    ensures
        texts(r@) == seq![
            "./odoo_mcp_policy.json"@,
            "./field_acl.json"@,
            "config/field_acl.json"@,
        ],
{
    let mut r: Vec<String> = Vec::new();
    r.push("./odoo_mcp_policy.json".to_owned());
    r.push("./field_acl.json".to_owned());
    r.push("config/field_acl.json".to_owned());
    assert(texts(r@) =~= seq![
        "./odoo_mcp_policy.json"@,
        "./field_acl.json"@,
        "config/field_acl.json"@,
    ]);
    r
}

/// The policy file: the one that `SAP_MCP_FIELD_POLICY_FILE` names, else the one that
/// `SAP_MCP_POLICY_FILE` names, else the first of the usual places that is present.
pub open spec fn policy_path(env: Vars, present: Seq<Seq<char>>) -> Option<Seq<char>> {
    match filled(env, "SAP_MCP_FIELD_POLICY_FILE"@) {
        Some(p) => Some(p),
        None => match filled(env, "SAP_MCP_POLICY_FILE"@) {
            Some(p) => Some(p),
            None => if present.contains("./odoo_mcp_policy.json"@) {
                Some("./odoo_mcp_policy.json"@)
            } else if present.contains("./field_acl.json"@) {
                Some("./field_acl.json"@)
            } else if present.contains("config/field_acl.json"@) {
                Some("config/field_acl.json"@)
            } else {
                None
            },
        },
    }
}

/// The policy file, given which of the usual places are present.
pub fn policy_file_path(env: &Env, present: &Vec<String>) -> (r: Option<String>)
    ensures
        opt_text(r) == policy_path(env@, texts(present@)),
{
    if let Some(p) = non_empty_env(env, "SAP_MCP_FIELD_POLICY_FILE") {
        return Some(p);
    }
    if let Some(p) = non_empty_env(env, "SAP_MCP_POLICY_FILE") {
        return Some(p);
    }
    if list_has(present, "./odoo_mcp_policy.json") {
        Some("./odoo_mcp_policy.json".to_owned())
    } else if list_has(present, "./field_acl.json") {
        Some("./field_acl.json".to_owned())
    } else if list_has(present, "config/field_acl.json") {
        Some("config/field_acl.json".to_owned())
    } else {
        None
    }
}

/// Whether the policy file is a dedicated one.
pub fn policy_is_dedicated(env: &Env) -> (r: bool)
    ensures
        r == (filled(env@, "SAP_MCP_FIELD_POLICY_FILE"@) is Some),
{
    non_empty_env(env, "SAP_MCP_FIELD_POLICY_FILE").is_some()
}

/// The rules that are in force, with where they came from and what went wrong.
pub struct FieldPolicy {
    map: StrMap<StrMap<Rule>>,
    source: String,
    error: Option<String>,
}

/// What a policy is.
#[verifier::ext_equal]
pub struct FieldPolicyV {
    pub rules: PolicyV,
    pub source: Seq<char>,
    pub error: Option<Seq<char>>,
}

/// What a policy from a source is.
pub open spec fn policy_from(src: PolicySource) -> FieldPolicyV {
    match src {
        PolicySource::NoFile => FieldPolicyV {
            rules: Seq::empty(),
            source: Seq::empty(),
            error: None,
        },
        PolicySource::Unreadable { path, error } => FieldPolicyV {
            rules: Seq::empty(),
            source: path@,
            error: Some("read error: "@ + error@),
        },
        PolicySource::Text { path, dedicated, text } => match json_parse(text@) {
            Ok(v) => FieldPolicyV {
                rules: document_policy(dedicated, v),
                source: path@,
                error: None,
            },
            Err(e) => FieldPolicyV {
                rules: Seq::empty(),
                source: path@,
                error: Some("parse error: "@ + e),
            },
        },
    }
}

/// The warning that goes with a source.
pub open spec fn policy_warning(src: PolicySource) -> Option<Seq<char>> {
    match src {
        PolicySource::NoFile => None,
        PolicySource::Unreadable { path, error } => Some(
            "[sa-mcp] field-ACL: cannot read "@ + path@ + ": "@ + error@,
        ),
        PolicySource::Text { path, dedicated, text } => match json_parse(text@) {
            Ok(_) => None,
            Err(e) => Some("[sa-mcp] field-ACL: invalid JSON "@ + path@ + ": "@ + e),
        },
    }
}

fn empty_rules() -> (r: StrMap<StrMap<Rule>>)
    ensures
        policy_of(r@) == Seq::<(Seq<char>, Seq<(Seq<char>, RuleV)>)>::empty(),
{
    let r: StrMap<StrMap<Rule>> = StrMap::new();
    assert(policy_of(r@) =~= Seq::<(Seq<char>, Seq<(Seq<char>, RuleV)>)>::empty());
    r
}

/// Reads a policy from its source. What cannot be read gives no rules and an error.
/// Returns the policy and a warning.
pub fn read_policy_file(src: &PolicySource) -> (r: (FieldPolicy, Option<String>))
    ensures
        r.0@ == policy_from(*src),
        opt_text(r.1) == policy_warning(*src),
{
    match src {
        PolicySource::NoFile => {
            let source = String::new();
            assert(source@ =~= Seq::<char>::empty());
            (FieldPolicy { map: empty_rules(), source, error: None }, None)
        },
        PolicySource::Unreadable { path, error } => (
            FieldPolicy {
                map: empty_rules(),
                source: path.clone(),
                error: Some(cat2("read error: ", error.as_str())),
            },
            Some(
                cat4("[sa-mcp] field-ACL: cannot read ", path.as_str(), ": ", error.as_str()),
            ),
        ),
        PolicySource::Text { path, dedicated, text } => match Json::parse(text.as_str()) {
            Ok(v) => (
                FieldPolicy {
                    map: policy_from_document(*dedicated, &v),
                    source: path.clone(),
                    error: None,
                },
                None,
            ),
            Err(e) => (
                FieldPolicy {
                    map: empty_rules(),
                    source: path.clone(),
                    error: Some(cat2("parse error: ", e.as_str())),
                },
                Some(
                    cat4("[sa-mcp] field-ACL: invalid JSON ", path.as_str(), ": ", e.as_str()),
                ),
            ),
        },
    }
}

impl FieldPolicy {
    /// What the policy is.
    pub closed spec fn view(&self) -> FieldPolicyV {
        FieldPolicyV {
            rules: policy_of(self.map@),
            source: self.source@,
            error: opt_text(self.error),
        }
    }

    /// A policy from its source.
    pub fn load(src: &PolicySource) -> (r: FieldPolicy)
        ensures
            r@ == policy_from(*src),
    {
        read_policy_file(src).0
    }

    /// Replaces the policy by one from a source. Returns a warning.
    pub fn reload(&mut self, src: &PolicySource) -> (r: Option<String>)
        ensures
            final(self)@ == policy_from(*src),
            opt_text(r) == policy_warning(*src),
    {
        let (p, warning) = read_policy_file(src);
        *self = p;
        warning
    }

    /// Whether there are rules, where they came from, and what went wrong.
    pub fn status(&self) -> (r: Json)
        ensures
            r@ == policy_status(self@),
    {
        let mut o = Object::new();
        o.set("enabled", Json::Bool(self.map.len() > 0));
        o.set("source", Json::str(self.source.as_str()));
        o.set("error", Json::opt_str(&self.error));
        assert(policy_of(self.map@).len() == self.map@.len());
        Json::Object(o)
    }

    fn rule(&self, instance: &str, model: &str) -> (r: Option<&Rule>)
        ensures
            (match r {
                Some(x) => rule_at(self@.rules, instance@, model@) == Some(x@),
                None => rule_at(self@.rules, instance@, model@) is None,
            }),
    {
        proof {
            lemma_each_find(
                self.map@,
                |models: StrMap<Rule>| models_of(models@),
                instance@,
            );
        }
        match self.map.get(instance) {
            Some(models) => {
                proof {
                    lemma_each_find(models@, |r: Rule| r@, model@);
                }
                models.get(model)
            },
            None => None,
        }
    }

    /// Whether the rule for a system and an entity, as they stand in the policy, hides
    /// a field.
    fn hides(&self, instance: &str, model: &str, field: &str) -> (r: bool)
        ensures
            r == (rule_denies(rule_at(self@.rules, instance@, model@), field@) || rule_leaves_out(
                rule_at(self@.rules, instance@, model@),
                field@,
            )),
    {
        match self.rule(instance, model) {
            Some(x) => {
                if list_has(&x.deny, field) {
                    return true;
                }
                match &x.allow {
                    Some(a) => !list_has(a, field),
                    None => false,
                }
            },
            None => false,
        }
    }

    /// Whether a field is hidden.
    pub fn is_denied(&self, instance: &str, model: &str, field: &str) -> (r: bool)
        ensures
            r == denied(self@.rules, instance@, model@, field@),
    {
        if same(field, "id") {
            return false;
        }
        self.hides(instance, model, field) || self.hides(instance, "*", field) || self.hides(
            "*",
            model,
            field,
        ) || self.hides("*", "*", field)
    }

    /// Splits a list of fields into those that may be seen and those that are hidden.
    pub fn filter_fields(&self, instance: &str, model: &str, fields: Vec<String>) -> (r: (
        Vec<String>,
        Vec<String>,
    ))
        ensures
            texts(r.0@) == chosen(self@.rules, instance@, model@, texts(fields@), false),
            texts(r.1@) == chosen(self@.rules, instance@, model@, texts(fields@), true),
    {
        let mut kept: Vec<String> = Vec::new();
        let mut removed: Vec<String> = Vec::new();
        let ghost all = texts(fields@);
        let mut i: usize = 0;
        while i < fields.len()
            invariant
                i <= fields@.len(),
                all == texts(fields@),
                texts(kept@) == chosen(self@.rules, instance@, model@, all.take(i as int), false),
                texts(removed@) == chosen(self@.rules, instance@, model@, all.take(i as int), true),
            decreases fields@.len() - i,
        {
            proof {
                assert(all.take(i + 1).drop_last() =~= all.take(i as int));
            }
            let ghost k = texts(kept@);
            let ghost r = texts(removed@);
            let f = fields[i].clone();
            if self.is_denied(instance, model, f.as_str()) {
                removed.push(f);
                assert(texts(removed@) =~= r.push(all[i as int]));
            } else {
                kept.push(f);
                assert(texts(kept@) =~= k.push(all[i as int]));
            }
            i = i + 1;
        }
        assert(all.take(i as int) =~= all);
        (kept, removed)
    }

    /// Removes the hidden members of a record. Returns their names.
    pub fn redact_record(&self, instance: &str, model: &str, rec: &mut Object) -> (r: Vec<String>)
        ensures
            final(rec)@ == redacted(self@.rules, instance@, model@, old(rec)@),
            texts(r@) == hidden(self@.rules, instance@, model@, old(rec)@),
    {
        let ghost p = self@.rules;
        let ghost start = rec@;
        let mut removed: Vec<String> = Vec::new();
        let mut i: usize = 0;
        proof {
            assert(start.skip(0) =~= start);
            assert(start.take(0) + redacted(p, instance@, model@, start) =~= redacted(
                p,
                instance@,
                model@,
                start,
            ));
            assert(texts(removed@) + hidden(p, instance@, model@, start) =~= hidden(
                p,
                instance@,
                model@,
                start,
            ));
        }
        while i < rec.len()
            invariant
                p == self@.rules,
                i <= rec@.len(),
                rec@.take(i as int) + redacted(p, instance@, model@, rec@.skip(i as int))
                    == redacted(p, instance@, model@, start),
                texts(removed@) + hidden(p, instance@, model@, rec@.skip(i as int)) == hidden(
                    p,
                    instance@,
                    model@,
                    start,
                ),
            decreases rec@.len() - i,
        {
            let ghost m = rec@;
            let ghost rest = m.skip(i as int);
            assert(rest[0] == m[i as int]);
            assert(rest.drop_first() =~= m.skip(i + 1));
            if self.is_denied(instance, model, rec.key_at(i).as_str()) {
                let ghost r = texts(removed@);
                let name = rec.key_at(i).clone();
                removed.push(name);
                rec.remove_at(i);
                proof {
                    assert(rec@.take(i as int) =~= m.take(i as int));
                    assert(rec@.skip(i as int) =~= m.skip(i + 1));
                    let tail = hidden(p, instance@, model@, m.skip(i + 1));
                    assert(texts(removed@) + tail =~= r + (seq![m[i as int].0] + tail));
                }
            } else {
                proof {
                    let tail = redacted(p, instance@, model@, m.skip(i + 1));
                    assert(m.take(i + 1) + tail =~= m.take(i as int) + (seq![m[i as int]] + tail));
                }
                i = i + 1;
            }
        }
        proof {
            assert(rec@.skip(i as int) =~= no_members());
            assert(rec@.take(i as int) =~= rec@);
            assert(redacted(p, instance@, model@, no_members()) =~= no_members());
            assert(hidden(p, instance@, model@, no_members()) =~= Seq::<Seq<char>>::empty());
            assert(rec@ + no_members() =~= rec@);
            assert(texts(removed@) + Seq::<Seq<char>>::empty() =~= texts(removed@));
        }
        removed
    }

    /// Removes the hidden members of every record. Returns how many there were.
    pub fn redact_records(&self, instance: &str, model: &str, arr: &mut Vec<Json>) -> (r: u128)
        ensures
            values(final(arr)@) == redacted_all(
                self@.rules,
                instance@,
                model@,
                values(old(arr)@),
            ),
            r == hidden_count(self@.rules, instance@, model@, values(old(arr)@)),
    {
        let ghost p = self@.rules;
        let ghost start = values(arr@);
        let mut out: Vec<Json> = Vec::new();
        let mut src: Vec<Json> = Vec::new();
        std::mem::swap(&mut src, arr);
        let n: usize = src.len();
        let mut count: u128 = 0;
        let mut i: usize = 0;
        while i < n
            invariant
                p == self@.rules,
                i <= n,
                n == src@.len(),
                start == values(src@),
                out@.len() == i,
                forall|k: int|
                    0 <= k < i ==> #[trigger] out@[k]@ == redacted_value(
                        p,
                        instance@,
                        model@,
                        start[k],
                    ),
                count == hidden_count(p, instance@, model@, start.take(i as int)),
                count <= i * usize::MAX,
            decreases n - i,
        {
            proof {
                lemma_values(src@);
                assert(start.take(i + 1).drop_last() =~= start.take(i as int));
                assert(start.take(i + 1).last() == src@[i as int]@);
            }
            let mut v = src[i].copy();
            if let Json::Object(o) = v {
                let mut o = o;
                let removed = self.redact_record(instance, model, &mut o);
                let k: usize = removed.len();
                assert(k == texts(removed@).len());
                proof {
                    let bound = usize::MAX as int;
                    assert(i * bound + bound == (i + 1) * bound) by (nonlinear_arith);
                    assert((i + 1) * bound <= bound * bound) by (nonlinear_arith)
                        requires
                            i + 1 <= bound,
                            bound >= 0,
                    ;
                    assert(bound * bound <= u128::MAX) by (nonlinear_arith)
                        requires
                            0 <= bound <= 0xffff_ffff_ffff_ffff,
                    ;
                }
                count = count + k as u128;
                v = Json::Object(o);
            } else {
                proof {
                    let bound = usize::MAX as int;
                    assert(i * bound <= (i + 1) * bound) by (nonlinear_arith)
                        requires
                            bound >= 0,
                    ;
                }
            }
            out.push(v);
            i = i + 1;
        }
        proof {
            lemma_values(src@);
            lemma_values(out@);
            assert(start.take(i as int) =~= start);
            assert(values(out@) =~= redacted_all(p, instance@, model@, start));
        }
        *arr = out;
        count
    }

    /// Refuses an aggregate that measures or groups by a hidden field.
    pub fn check_aggregate(
        &self,
        instance: &str,
        model: &str,
        fields: &Vec<String>,
        groupby: &Vec<String>,
    ) -> (r: Result<(), String>)
        ensures
            r is Ok == (aggregate_blocks(
                self@.rules,
                instance@,
                model@,
                texts(fields@),
                texts(groupby@),
            ).len() == 0),
            r matches Err(e) ==> e@ == "aggregate blocked: field(s) restricted by policy: "@
                + joined(
                aggregate_blocks(self@.rules, instance@, model@, texts(fields@), texts(groupby@)),
                ", "@,
            ),
    {
        let mut bad = self.bad_fields(instance, model, fields);
        let mut more = self.bad_fields(instance, model, groupby);
        let ghost a = texts(bad@);
        let ghost b = texts(more@);
        bad.append(&mut more);
        assert(texts(bad@) =~= a + b);
        if bad.len() == 0 {
            Ok(())
        } else {
            Err(
                cat2(
                    "aggregate blocked: field(s) restricted by policy: ",
                    join(&bad, ", ").as_str(),
                ),
            )
        }
    }

    fn bad_fields(&self, instance: &str, model: &str, fields: &Vec<String>) -> (r: Vec<String>)
        ensures
            texts(r@) == bad_aggregates(self@.rules, instance@, model@, texts(fields@)),
    {
        let mut bad: Vec<String> = Vec::new();
        let ghost all = texts(fields@);
        let mut i: usize = 0;
        while i < fields.len()
            invariant
                i <= fields@.len(),
                all == texts(fields@),
                texts(bad@) == bad_aggregates(self@.rules, instance@, model@, all.take(i as int)),
            decreases fields@.len() - i,
        {
            proof {
                assert(all.take(i + 1).drop_last() =~= all.take(i as int));
            }
            let base = before_char(fields[i].as_str(), ':');
            if self.is_denied(instance, model, base.as_str()) {
                let ghost prev = texts(bad@);
                bad.push(fields[i].clone());
                assert(texts(bad@) =~= prev.push(all[i as int]));
            }
            i = i + 1;
        }
        assert(all.take(i as int) =~= all);
        bad
    }
}

/// The entries of an aggregate that are hidden: measured ones, and then those that it
/// groups by.
pub open spec fn aggregate_blocks(
    p: PolicyV,
    instance: Seq<char>,
    model: Seq<char>,
    fields: Seq<Seq<char>>,
    groupby: Seq<Seq<char>>,
) -> Seq<Seq<char>> {
    bad_aggregates(p, instance, model, fields) + bad_aggregates(p, instance, model, groupby)
}

/// What `status` reports.
pub open spec fn policy_status(p: FieldPolicyV) -> JsonV {
    let o = put(no_members(), "enabled"@, JsonV::Bool(p.rules.len() > 0));
    let o = put(o, "source"@, JsonV::Str(p.source));
    JsonV::Obj(put(o, "error"@, opt_str_v(p.error)))
}

/// The field `id` is never hidden.
pub proof fn id_is_never_hidden(p: PolicyV, instance: Seq<char>, model: Seq<char>)
    ensures
        !denied(p, instance, model, "id"@),
{
}

/// Without rules nothing is hidden.
pub proof fn no_rules_hide_nothing(instance: Seq<char>, model: Seq<char>, field: Seq<char>)
    ensures
        !denied(Seq::empty(), instance, model, field),
{
}

/// A field that any of the rules for a record denies is hidden, whatever others allow:
/// a rule for the system and the entity, or for either with `*` in place of the other,
/// or for `*` and `*`.
pub proof fn denials_add_up(
    p: PolicyV,
    instance: Seq<char>,
    model: Seq<char>,
    field: Seq<char>,
    i: Seq<char>,
    m: Seq<char>,
)
    requires
        i == instance || i == "*"@,
        m == model || m == "*"@,
        rule_denies(rule_at(p, i, m), field),
        field != "id"@,
    ensures
        denied(p, instance, model, field),
{
}

/// A field that one of the rules leaves out of its allowed fields is hidden, though
/// others allow it.
pub proof fn allowances_intersect(
    p: PolicyV,
    instance: Seq<char>,
    model: Seq<char>,
    field: Seq<char>,
    i: Seq<char>,
    m: Seq<char>,
)
    requires
        i == instance || i == "*"@,
        m == model || m == "*"@,
        rule_leaves_out(rule_at(p, i, m), field),
        field != "id"@,
    ensures
        denied(p, instance, model, field),
{
}

/// No hidden member is left in a record, and every other stays as it is.
pub proof fn redaction_removes_what_is_hidden(
    p: PolicyV,
    instance: Seq<char>,
    model: Seq<char>,
    m: Members,
    field: Seq<char>,
)
    ensures
        find(redacted(p, instance, model, m), field) == (if denied(p, instance, model, field) {
            None
        } else {
            find(m, field)
        }),
    decreases m.len(),
{
    if m.len() > 0 {
        redaction_removes_what_is_hidden(p, instance, model, m.drop_first(), field);
        let tail = redacted(p, instance, model, m.drop_first());
        assert((seq![m[0]] + tail).drop_first() =~= tail);
    }
}

/// Removing what is hidden a second time changes nothing.
pub proof fn redaction_is_stable(
    p: PolicyV,
    instance: Seq<char>,
    model: Seq<char>,
    m: Members,
)
    ensures
        redacted(p, instance, model, redacted(p, instance, model, m)) == redacted(
            p,
            instance,
            model,
            m,
        ),
    decreases m.len(),
{
    if m.len() > 0 {
        redaction_is_stable(p, instance, model, m.drop_first());
        let tail = redacted(p, instance, model, m.drop_first());
        assert((seq![m[0]] + tail).drop_first() =~= tail);
    }
}

/// A field is hidden only where one of the rules for the record denies it, or lists allowed
/// fields and leaves it out.
pub proof fn nothing_else_is_hidden(
    p: PolicyV,
    instance: Seq<char>,
    model: Seq<char>,
    field: Seq<char>,
)
    requires
        denied(p, instance, model, field),
    ensures
        exists|i: Seq<char>, m: Seq<char>| #[trigger]
            rule_speaks(p, i, m, field) && (i == instance || i == "*"@) && (m == model || m == "*"@),
{
    let star = "*"@;
    if rule_denies(rule_at(p, instance, model), field) || rule_leaves_out(
        rule_at(p, instance, model),
        field,
    ) {
        assert(rule_speaks(p, instance, model, field));
    } else if rule_denies(rule_at(p, instance, star), field) || rule_leaves_out(
        rule_at(p, instance, star),
        field,
    ) {
        assert(rule_speaks(p, instance, star, field));
    } else if rule_denies(rule_at(p, star, model), field) || rule_leaves_out(
        rule_at(p, star, model),
        field,
    ) {
        assert(rule_speaks(p, star, model, field));
    } else {
        assert(rule_speaks(p, star, star, field));
    }
}

/// Whether the rule for a system and an entity, as they stand in the policy, hides a field.
pub open spec fn rule_speaks(p: PolicyV, i: Seq<char>, m: Seq<char>, field: Seq<char>) -> bool {
    find(p, i) matches Some(models) && (find(models, m) matches Some(r) && (r.deny.contains(field)
        || (r.allow matches Some(a) && !a.contains(field))))
}

proof fn lemma_string_items(a: Seq<JsonV>, s: Seq<char>)
    ensures
        string_items(a).contains(s) <==> a.contains(JsonV::Str(s)),
    decreases a.len(),
{
    if a.len() > 0 {
        let b = a.drop_last();
        lemma_string_items(b, s);
        let head = string_items(b);
        if a.contains(JsonV::Str(s)) {
            let i = choose|i: int| 0 <= i < a.len() && a[i] == JsonV::Str(s);
            if i < b.len() {
                assert(b[i] == a[i]);
                let j = choose|j: int| 0 <= j < head.len() && head[j] == s;
                assert(string_items(a)[j] == s);
            } else {
                assert(string_items(a)[head.len() as int] == s);
            }
        }
        if string_items(a).contains(s) {
            let j = choose|j: int| 0 <= j < string_items(a).len() && string_items(a)[j] == s;
            if j < head.len() {
                assert(head[j] == s);
                let i = choose|i: int| 0 <= i < b.len() && b[i] == JsonV::Str(s);
                assert(a[i] == b[i]);
            } else {
                assert(a[a.len() - 1] == JsonV::Str(s));
            }
        }
    }
}

/// A rule denies and allows exactly the fields that its lists name.
pub proof fn rules_hold_their_lists(v: JsonV, a: Seq<JsonV>, field: Seq<char>)
    ensures
        v.get("deny"@) == Some(JsonV::Arr(a)) ==> (rule_of(v).deny.contains(field) <==> a.contains(
            JsonV::Str(field),
        )),
        v.get("deny"@) is None ==> !rule_of(v).deny.contains(field),
        v.get("allow"@) == Some(JsonV::Arr(a)) ==> (rule_of(v).allow matches Some(l) && (l.contains(
            field,
        ) <==> a.contains(JsonV::Str(field)))),
        v.get("allow"@) is None ==> rule_of(v).allow is None,
{
    lemma_string_items(a, field);
}

proof fn lemma_rules_in(m: Members, k: Seq<char>, v: JsonV)
    requires
        find(m, k) == Some(v),
        crate::strmap::sorted_keys(m),
    ensures
        find(rules_in(m), k) == Some(rule_of(v)),
    decreases m.len(),
{
    broadcast use crate::strmap::put_is_found;

    let b = m.drop_last();
    let i = crate::strmap::lemma_find_some(m, k);
    if i < b.len() {
        assert forall|x: int, y: int| 0 <= x < y < b.len() implies crate::text::lex_lt(
            #[trigger] b[x].0,
            #[trigger] b[y].0,
        ) by {
            assert(b[x] == m[x] && b[y] == m[y]);
        }
        assert(crate::text::lex_lt(m[i].0, m[m.len() - 1].0));
        crate::text::lemma_lex_irreflexive(k);
        assert forall|x: int| 0 <= x < i implies (#[trigger] b[x]).0 != k by {
            assert(crate::text::lex_lt(m[x].0, m[i].0));
        }
        assert(b[i] == m[i]);
        crate::strmap::lemma_find_at(b, k, i);
        lemma_rules_in(b, k, v);
    }
}

/// A policy holds, for every system and entity of its document, the rule that stands there.
pub proof fn policies_hold_their_rules(
    m: Members,
    instance: Seq<char>,
    models: Members,
    model: Seq<char>,
    v: JsonV,
)
    requires
        crate::strmap::sorted_keys(m),
        find(m, instance) == Some(JsonV::Obj(models)),
        crate::strmap::sorted_keys(models),
        find(models, model) == Some(v),
    ensures
        rule_at(policy_in(m), instance, model) == Some(rule_of(v)),
    decreases m.len(),
{
    broadcast use crate::strmap::put_is_found;

    let b = m.drop_last();
    let i = crate::strmap::lemma_find_some(m, instance);
    lemma_rules_in(models, model, v);
    if i < b.len() {
        assert forall|x: int, y: int| 0 <= x < y < b.len() implies crate::text::lex_lt(
            #[trigger] b[x].0,
            #[trigger] b[y].0,
        ) by {
            assert(b[x] == m[x] && b[y] == m[y]);
        }
        assert(crate::text::lex_lt(m[i].0, m[m.len() - 1].0));
        crate::text::lemma_lex_irreflexive(instance);
        assert forall|x: int| 0 <= x < i implies (#[trigger] b[x]).0 != instance by {
            assert(crate::text::lex_lt(m[x].0, m[i].0));
        }
        assert(b[i] == m[i]);
        crate::strmap::lemma_find_at(b, instance, i);
        policies_hold_their_rules(b, instance, models, model, v);
    }
}

/// The rules stand under `field_acl`, or at the root of a file that holds nothing else.
pub proof fn rules_stand_in_their_place(dedicated: bool, v: JsonV, m: Members)
    ensures
        v.get("field_acl"@) == Some(JsonV::Obj(m)) ==> document_policy(dedicated, v) == policy_in(m),
        v.get("field_acl"@) is None && dedicated && v == JsonV::Obj(m) ==> document_policy(
            dedicated,
            v,
        ) == policy_in(m),
        v.get("field_acl"@) is None && !dedicated ==> document_policy(dedicated, v).len() == 0,
{
}

/// The file that is named for fields goes before the one for policies, and both before the
/// usual places.
pub proof fn named_policies_go_first(env: Vars, present: Seq<Seq<char>>, p: Seq<char>)
    ensures
        filled(env, "SAP_MCP_FIELD_POLICY_FILE"@) == Some(p) ==> policy_path(env, present) == Some(
            p,
        ),
        filled(env, "SAP_MCP_FIELD_POLICY_FILE"@) is None && filled(env, "SAP_MCP_POLICY_FILE"@)
            == Some(p) ==> policy_path(env, present) == Some(p),
        filled(env, "SAP_MCP_FIELD_POLICY_FILE"@) is None && filled(env, "SAP_MCP_POLICY_FILE"@) is None
            ==> (policy_path(env, present) matches Some(x) ==> present.contains(x)),
{
}

/// Of requested fields those that are hidden are removed and the others kept; together they
/// are all of them.
pub proof fn fields_are_kept_or_removed(
    p: PolicyV,
    instance: Seq<char>,
    model: Seq<char>,
    fields: Seq<Seq<char>>,
    f: Seq<char>,
    want: bool,
)
    ensures
        chosen(p, instance, model, fields, want).contains(f) <==> fields.contains(f) && denied(
            p,
            instance,
            model,
            f,
        ) == want,
        chosen(p, instance, model, fields, true).len() + chosen(
            p,
            instance,
            model,
            fields,
            false,
        ).len() == fields.len(),
    decreases fields.len(),
{
    if fields.len() > 0 {
        let b = fields.drop_last();
        fields_are_kept_or_removed(p, instance, model, b, f, want);
        let head = chosen(p, instance, model, b, want);
        let all = chosen(p, instance, model, fields, want);
        if fields.contains(f) && denied(p, instance, model, f) == want {
            let i = choose|i: int| 0 <= i < fields.len() && fields[i] == f;
            if i < b.len() {
                assert(b[i] == f);
                let j = choose|j: int| 0 <= j < head.len() && head[j] == f;
                assert(all[j] == f);
            } else {
                assert(all[head.len() as int] == f);
            }
        }
        if all.contains(f) {
            let j = choose|j: int| 0 <= j < all.len() && all[j] == f;
            if j < head.len() {
                assert(head[j] == f);
                let i = choose|i: int| 0 <= i < b.len() && b[i] == f;
                assert(fields[i] == f);
            } else {
                assert(fields[fields.len() - 1] == f);
            }
        }
    }
}

/// The fields that are reported as hidden are those of the record that are denied, in their
/// order.
pub proof fn hidden_fields_are_named(
    p: PolicyV,
    instance: Seq<char>,
    model: Seq<char>,
    a: Members,
    b: Members,
    k: Seq<char>,
    v: JsonV,
)
    ensures
        hidden(p, instance, model, a + b) == hidden(p, instance, model, a) + hidden(
            p,
            instance,
            model,
            b,
        ),
        denied(p, instance, model, k) ==> hidden(p, instance, model, seq![(k, v)]) == seq![k],
        !denied(p, instance, model, k) ==> hidden(p, instance, model, seq![(k, v)]).len() == 0,
    decreases a.len(),
{
    let one = seq![(k, v)];
    assert(one.drop_first() =~= Seq::<(Seq<char>, JsonV)>::empty());
    assert(hidden(p, instance, model, one.drop_first()) =~= Seq::<Seq<char>>::empty());
    assert(seq![k] + Seq::<Seq<char>>::empty() =~= seq![k]);
    if a.len() == 0 {
        assert(a + b =~= b);
        assert(hidden(p, instance, model, a) + hidden(p, instance, model, b) =~= hidden(
            p,
            instance,
            model,
            b,
        ));
    } else {
        hidden_fields_are_named(p, instance, model, a.drop_first(), b, k, v);
        assert((a + b).drop_first() =~= a.drop_first() + b);
        assert(hidden(p, instance, model, a + b) =~= hidden(p, instance, model, a) + hidden(
            p,
            instance,
            model,
            b,
        ));
    }
}

/// What is hidden of records is counted, record by record.
pub proof fn hidden_fields_are_counted(
    p: PolicyV,
    instance: Seq<char>,
    model: Seq<char>,
    a: Seq<JsonV>,
    b: Seq<JsonV>,
    m: Members,
)
    ensures
        hidden_count(p, instance, model, a + b) == hidden_count(p, instance, model, a)
            + hidden_count(p, instance, model, b),
        hidden_count(p, instance, model, seq![JsonV::Obj(m)]) == hidden(
            p,
            instance,
            model,
            m,
        ).len(),
    decreases b.len(),
{
    let one = seq![JsonV::Obj(m)];
    assert(one.drop_last() =~= Seq::<JsonV>::empty());
    assert(hidden_count(p, instance, model, one.drop_last()) == 0);
    if b.len() == 0 {
        assert(a + b =~= a);
    } else {
        hidden_fields_are_counted(p, instance, model, a, b.drop_last(), m);
        assert((a + b).drop_last() =~= a + b.drop_last());
    }
}

proof fn lemma_bad_aggregates(
    p: PolicyV,
    instance: Seq<char>,
    model: Seq<char>,
    fields: Seq<Seq<char>>,
    f: Seq<char>,
)
    ensures
        bad_aggregates(p, instance, model, fields).contains(f) <==> fields.contains(f) && denied(
            p,
            instance,
            model,
            first_piece(f, ':'),
        ),
    decreases fields.len(),
{
    if fields.len() > 0 {
        let b = fields.drop_last();
        let head = bad_aggregates(p, instance, model, b);
        let all = bad_aggregates(p, instance, model, fields);
        lemma_bad_aggregates(p, instance, model, b, f);
        if fields.contains(f) {
            let i = choose|i: int| 0 <= i < fields.len() && fields[i] == f;
            if i < b.len() {
                assert(b[i] == f);
            }
        }
        if b.contains(f) {
            let i = choose|i: int| 0 <= i < b.len() && b[i] == f;
            assert(fields[i] == f);
        }
        if head.contains(f) {
            let i = choose|i: int| 0 <= i < head.len() && head[i] == f;
            assert(all[i] == f);
        }
        if denied(p, instance, model, first_piece(fields.last(), ':')) {
            assert(all.last() == fields.last());
            assert(all.contains(fields.last()));
            assert(fields.contains(fields.last()));
            if all.contains(f) {
                let i = choose|i: int| 0 <= i < all.len() && all[i] == f;
                if i < head.len() {
                    assert(head[i] == f);
                }
            }
        }
    }
}

/// What is summed or grouped by is refused if and only if the field before the colon is
/// denied.
pub proof fn aggregates_of_hidden_fields_are_refused(
    p: PolicyV,
    instance: Seq<char>,
    model: Seq<char>,
    fields: Seq<Seq<char>>,
    groupby: Seq<Seq<char>>,
    f: Seq<char>,
)
    ensures
        aggregate_blocks(p, instance, model, fields, groupby).contains(f) <==> (fields.contains(f)
            || groupby.contains(f)) && denied(p, instance, model, first_piece(f, ':')),
{
    lemma_bad_aggregates(p, instance, model, fields, f);
    lemma_bad_aggregates(p, instance, model, groupby, f);
    let a = bad_aggregates(p, instance, model, fields);
    let b = bad_aggregates(p, instance, model, groupby);
    if a.contains(f) {
        let i = choose|i: int| 0 <= i < a.len() && a[i] == f;
        assert((a + b)[i] == f);
    }
    if b.contains(f) {
        let i = choose|i: int| 0 <= i < b.len() && b[i] == f;
        assert((a + b)[a.len() + i] == f);
    }
    if (a + b).contains(f) {
        let i = choose|i: int| 0 <= i < (a + b).len() && (a + b)[i] == f;
        if i < a.len() {
            assert(a[i] == f);
        } else {
            assert(b[i - a.len()] == f);
        }
    }
}

/// A policy is that of the document of its file; where there is no file, or none that can be
/// read, it hides nothing, and what went wrong is kept and reported.
pub proof fn policies_come_from_their_file(src: PolicySource)
    ensures
        src is NoFile ==> policy_from(src).rules.len() == 0 && policy_from(src).source.len() == 0
            && policy_from(src).error is None && policy_warning(src) is None,
        src matches PolicySource::Unreadable { path, .. } ==> policy_from(src).rules.len() == 0
            && policy_from(src).source == path@ && policy_from(src).error is Some
            && policy_warning(src) is Some,
        src matches PolicySource::Text { path, dedicated, text } ==> policy_from(src).source == path@
            && (json_parse(text@) matches Ok(v) ==> policy_from(src).rules == document_policy(
            dedicated,
            v,
        ) && policy_from(src).error is None && policy_warning(src) is None) && (json_parse(text@)
            is Err ==> policy_from(src).rules.len() == 0 && policy_from(src).error is Some
            && policy_warning(src) is Some),
{
}

/// The state of a policy: whether it hides anything, where it is from, and what went wrong.
pub proof fn states_of_policies_are_told(p: FieldPolicyV)
    ensures
        policy_status(p).get("enabled"@) == Some(JsonV::Bool(p.rules.len() > 0)),
        policy_status(p).get("source"@) == Some(JsonV::Str(p.source)),
        p.error matches Some(e) ==> policy_status(p).get("error"@) == Some(JsonV::Str(e)),
        p.error is None ==> policy_status(p).get("error"@) == Some(JsonV::Null),
{
    broadcast use crate::strmap::put_is_found;

    lemma_state_names();
}

proof fn lemma_state_names()
    ensures
        "enabled"@ != "source"@,
        "enabled"@ != "error"@,
        "source"@ != "error"@,
{
    reveal_strlit("enabled");
    reveal_strlit("source");
    reveal_strlit("error");
    assert("enabled"@.len() == 7);
    assert("source"@.len() == 6);
    assert("error"@.len() == 5);
}

} // verus!
