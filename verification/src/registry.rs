//! The tools and prompts that the server offers.

use vstd::prelude::*;
use vstd::string::*;
use crate::config::{env_flag, exposition_allows, exposition_modes, flag, group_shown, text_result, Env, Vars};
use crate::json::{json_parse, json_text, Json, JsonV};
use crate::strmap::{each, find, StrMap};
use crate::text::{cat2, cat5, contains_text, copy_opt, has_part, opt_text, same, texts};

verus! {

/// What a tool does: the kind of operation, and from where in the arguments each of its
/// inputs comes.
pub struct OpSpec {
    pub op_type: String,
    pub map: StrMap<String>,
}

/// What has to hold for a tool to be offered.
pub struct ToolGuards {
    pub requires_env_true: Option<String>,
}

/// A tool.
pub struct ToolDef {
    pub name: String,
    pub description: String,
    pub input_schema: Json,
    pub op: OpSpec,
    pub guards: Option<ToolGuards>,
    /// `read` or `write`.
    pub group: String,
}

/// A prompt.
pub struct PromptDef {
    pub name: String,
    pub description: String,
    pub content: String,
}

/// A tool.
#[verifier::ext_equal]
pub struct ToolV {
    pub name: Seq<char>,
    pub description: Seq<char>,
    pub input_schema: JsonV,
    pub op_type: Seq<char>,
    pub map: Seq<(Seq<char>, Seq<char>)>,
    pub guards: Option<Option<Seq<char>>>,
    pub group: Seq<char>,
}

/// A prompt.
pub struct PromptV {
    pub name: Seq<char>,
    pub description: Seq<char>,
    pub content: Seq<char>,
}

/// What a map of strings is.
pub open spec fn strings_of_map(m: Seq<(Seq<char>, String)>) -> Seq<(Seq<char>, Seq<char>)> {
    each(m, |s: String| s@)
}

/// A copy of a map of strings.
pub fn copy_map(m: &StrMap<String>) -> (r: StrMap<String>)
    ensures
        strings_of_map(r@) == strings_of_map(m@),
{
    let mut out: StrMap<String> = StrMap::new();
    let n: usize = m.len();
    let mut i: usize = 0;
    m.ordered();
    while i < n
        invariant
            i <= n,
            n == m@.len(),
            crate::strmap::sorted_keys(m@),
            out@.len() == i,
            forall|k: int| 0 <= k < i ==> (#[trigger] out@[k]).0 == m@[k].0 && out@[k].1@ == m@[k].1@,
        decreases n - i,
    {
        let key = m.key_at(i).clone();
        let value = m.value_at(i).clone();
        let ghost before_out = out@;
        proof {
            assert forall|j: int| 0 <= j < before_out.len() implies crate::text::lex_lt(
                (#[trigger] before_out[j]).0,
                key@,
            ) by {
                assert(before_out[j].0 == m@[j].0);
                assert(crate::text::lex_lt(m@[j].0, m@[i as int].0));
            }
            crate::strmap::lemma_put_last(before_out, key@, value);
        }
        out.insert(key, value);
        i = i + 1;
    }
    assert(strings_of_map(out@) =~= strings_of_map(m@));
    out
}

impl ToolGuards {
    /// A copy.
    pub fn copy(&self) -> (r: ToolGuards)
        ensures
            opt_text(r.requires_env_true) == opt_text(self.requires_env_true),
    {
        ToolGuards { requires_env_true: copy_opt(&self.requires_env_true) }
    }
}

/// What guards are.
pub open spec fn guards_of(g: Option<ToolGuards>) -> Option<Option<Seq<char>>> {
    match g {
        Some(x) => Some(opt_text(x.requires_env_true)),
        None => None,
    }
}

impl ToolDef {
    /// What the tool is.
    pub open spec fn view(&self) -> ToolV {
        ToolV {
            name: self.name@,
            description: self.description@,
            input_schema: self.input_schema@,
            op_type: self.op.op_type@,
            map: strings_of_map(self.op.map@),
            guards: guards_of(self.guards),
            group: self.group@,
        }
    }

    /// A copy.
    pub fn copy(&self) -> (r: ToolDef)
        ensures
            r@ == self@,
    {
        ToolDef {
            name: self.name.clone(),
            description: self.description.clone(),
            input_schema: self.input_schema.copy(),
            op: OpSpec { op_type: self.op.op_type.clone(), map: copy_map(&self.op.map) },
            guards: match &self.guards {
                Some(g) => Some(g.copy()),
                None => None,
            },
            group: self.group.clone(),
        }
    }
}

impl PromptDef {
    /// What the prompt is.
    pub open spec fn view(&self) -> PromptV {
        PromptV { name: self.name@, description: self.description@, content: self.content@ }
    }
}

/// The group of a tool that names none.
pub fn default_group() -> (r: String)
    ensures
        r@ == "read"@,
{
    "read".to_owned()
}

/// Whether the guards of a tool let it be offered: the variable that they name, if any,
/// has to read as true.
pub open spec fn guard_open(env: Vars, g: Option<Option<Seq<char>>>) -> bool {
    match g {
        Some(Some(name)) => flag(env, name),
        _ => true,
    }
}

/// Whether the guards of a tool let it be offered.
pub fn guard_allows(env: &Env, g: &Option<ToolGuards>) -> (r: bool)
    ensures
        r == guard_open(env@, guards_of(*g)),
{
    match g {
        Some(x) => match &x.requires_env_true {
            Some(name) => env_flag(env, name.as_str()),
            None => true,
        },
        None => true,
    }
}

/// Whether a tool is offered.
pub open spec fn offered(env: Vars, t: ToolV) -> bool {
    guard_open(env, t.guards) && group_shown(exposition_modes(env), t.group)
}

/// What tools are.
pub open spec fn tools_of(v: Seq<ToolDef>) -> Seq<ToolV> {
    Seq::new(v.len(), |i: int| v[i]@)
}

/// What prompts are.
pub open spec fn prompts_of(v: Seq<PromptDef>) -> Seq<PromptV> {
    Seq::new(v.len(), |i: int| v[i]@)
}

/// The tools that are offered.
pub open spec fn offered_tools(env: Vars, tools: Seq<ToolV>) -> Seq<ToolV>
    decreases tools.len(),
{
    if tools.len() == 0 {
        Seq::empty()
    } else {
        let head = offered_tools(env, tools.drop_last());
        if offered(env, tools.last()) {
            head.push(tools.last())
        } else {
            head
        }
    }
}

/// The first tool with a name.
pub open spec fn first_named(tools: Seq<ToolV>, name: Seq<char>) -> Option<ToolV>
    decreases tools.len(),
{
    if tools.len() == 0 {
        None
    } else if tools[0].name == name {
        Some(tools[0])
    } else {
        first_named(tools.drop_first(), name)
    }
}

/// The first tool with a name, where it is offered.
pub open spec fn offered_tool(env: Vars, tools: Seq<ToolV>, name: Seq<char>) -> Option<ToolV> {
    match first_named(tools, name) {
        Some(t) => if offered(env, t) {
            Some(t)
        } else {
            None
        },
        None => None,
    }
}

/// The tools, the prompts and the identity of the server.
pub struct Registry {
    pub tools: Vec<ToolDef>,
    pub prompts: Vec<PromptDef>,
    pub server_name: String,
    pub instructions: String,
}

/// The tools, the prompts and the identity of the server.
pub struct RegistryV {
    pub tools: Seq<ToolV>,
    pub prompts: Seq<PromptV>,
    pub server_name: Seq<char>,
    pub instructions: Seq<char>,
}

impl Registry {
    /// What the registry is.
    pub open spec fn view(&self) -> RegistryV {
        RegistryV {
            tools: tools_of(self.tools@),
            prompts: prompts_of(self.prompts@),
            server_name: self.server_name@,
            instructions: self.instructions@,
        }
    }

    /// The tools that are offered.
    pub fn list_tools(&self, env: &Env) -> (r: Vec<ToolDef>)
        ensures
            tools_of(r@) == offered_tools(env@, self@.tools),
    {
        let ghost all = self@.tools;
        let mut out: Vec<ToolDef> = Vec::new();
        assert(tools_of(out@) =~= Seq::<ToolV>::empty());
        let mut i: usize = 0;
        while i < self.tools.len()
            invariant
                i <= self.tools@.len(),
                all == tools_of(self.tools@),
                tools_of(out@) == offered_tools(env@, all.take(i as int)),
            decreases self.tools@.len() - i,
        {
            proof {
                assert(all.take(i + 1).drop_last() =~= all.take(i as int));
            }
            let t = &self.tools[i];
            if guard_allows(env, &t.guards) && exposition_allows(env, t.group.as_str()) {
                let ghost prev = tools_of(out@);
                out.push(t.copy());
                assert(tools_of(out@) =~= prev.push(all[i as int]));
            }
            i = i + 1;
        }
        assert(all.take(i as int) =~= all);
        out
    }

    /// The first tool with a name, where it is offered.
    pub fn get_tool(&self, env: &Env, name: &str) -> (r: Option<&ToolDef>)
        ensures
            (match r {
                Some(t) => offered_tool(env@, self@.tools, name@) == Some(t@),
                None => offered_tool(env@, self@.tools, name@) is None,
            }),
    {
        let ghost all = self@.tools;
        let mut i: usize = 0;
        assert(all.skip(0) =~= all);
        while i < self.tools.len()
            invariant
                i <= self.tools@.len(),
                all == tools_of(self.tools@),
                all == self@.tools,
                first_named(all, name@) == first_named(all.skip(i as int), name@),
            decreases self.tools@.len() - i,
        {
            let ghost rest = all.skip(i as int);
            assert(rest[0] == all[i as int]);
            assert(rest.drop_first() =~= all.skip(i + 1));
            let t = &self.tools[i];
            if same(t.name.as_str(), name) {
                if guard_allows(env, &t.guards) && exposition_allows(env, t.group.as_str()) {
                    return Some(t);
                }
                return None;
            }
            i = i + 1;
        }
        None
    }
}

/// A tool that is not offered is neither listed nor found.
pub proof fn hidden_tools_are_out_of_reach(env: Vars, tools: Seq<ToolV>, t: ToolV)
    requires
        !offered(env, t),
    ensures
        !offered_tools(env, tools).contains(t),
        offered_tool(env, tools, t.name) != Some(t),
    decreases tools.len(),
{
    if tools.len() > 0 {
        hidden_tools_are_out_of_reach(env, tools.drop_last(), t);
        let head = offered_tools(env, tools.drop_last());
        let l = offered_tools(env, tools);
        if l.contains(t) {
            let i = choose|i: int| 0 <= i < l.len() && l[i] == t;
            if i < head.len() {
                assert(head[i] == t);
            }
        }
    }
}

/// A server that exposes only reads offers no write tool.
pub proof fn readonly_offers_no_writes(env: Vars, t: ToolV)
    requires
        find(env, "SAP_EXPOSITION"@) == Some("readonly"@),
        t.group == "write"@,
    ensures
        !offered(env, t),
{
    reveal_strlit("readonly");
    reveal_strlit("high");
    reveal_strlit("write");
    let v = "readonly"@;
    crate::config::lemma_single_mode(v);
    let modes = exposition_modes(env);
    assert(modes == seq![v]);
    assert("readonly"@.len() == 8 && "high"@.len() == 4 && "write"@.len() == 5);
    assert(!modes.contains("high"@));
    assert(!modes.contains("write"@));
}

/// A file of the configuration: the one that a variable names, or the usual one.
pub fn config_path(env: &Env, name: &str, fallback: &str) -> (r: String)
    ensures
        r@ == (match find(env@, name@) {
            Some(v) => v,
            None => fallback@,
        }),
{
    match env.var(name) {
        Some(v) => v.to_owned(),
        None => fallback.to_owned(),
    }
}

/// The JSON document of a file, or the built-in one where the file cannot be read or
/// is not JSON.
pub open spec fn document_or_seed(read: Result<Seq<char>, Seq<char>>, seed: Seq<char>) -> Option<
    JsonV,
> {
    let text = match read {
        Ok(t) => t,
        Err(_) => seed,
    };
    match json_parse(text) {
        Ok(v) => Some(v),
        Err(_) => match json_parse(seed) {
            Ok(v) => Some(v),
            Err(_) => None,
        },
    }
}

/// The warnings that go with that.
pub open spec fn document_warnings(
    path: Seq<char>,
    read: Result<Seq<char>, Seq<char>>,
    seed: Seq<char>,
    what: Seq<char>,
) -> Seq<Seq<char>> {
    let unread = match read {
        Ok(_) => Seq::empty(),
        Err(e) => seq![
            "[sa-mcp] cannot read "@ + path + " ("@ + e + "); using built-in "@ + what,
        ],
    };
    let text = match read {
        Ok(t) => t,
        Err(_) => seed,
    };
    match json_parse(text) {
        Ok(_) => unread,
        Err(e) => unread.push(
            "[sa-mcp] invalid JSON in "@ + path + " ("@ + e + "); using built-in "@ + what,
        ),
    }
}

/// Reads the JSON document of a file, or the built-in one where the file could not be
/// read or is not JSON. Returns the document, where there is one, and warnings.
pub fn load_document(path: &str, read: Result<String, String>, seed: &str, what: &str) -> (r: (
    Option<Json>,
    Vec<String>,
))
    ensures
        (match r.0 {
            Some(v) => document_or_seed(text_result(read), seed@) == Some(v@),
            None => document_or_seed(text_result(read), seed@) is None,
        }),
        texts(r.1@) == document_warnings(path@, text_result(read), seed@, what@),
{
    let mut warnings: Vec<String> = Vec::new();
    assert(texts(warnings@) =~= Seq::<Seq<char>>::empty());
    let text: String = match read {
        Ok(t) => t,
        Err(e) => {
            let mut w = cat5(
                "[sa-mcp] cannot read ",
                path,
                " (",
                e.as_str(),
                "); using built-in ",
            );
            w.append(what);
            warnings.push(w);
            assert(texts(warnings@) =~= seq![w@]);
            seed.to_owned()
        },
    };
    match Json::parse(text.as_str()) {
        Ok(v) => (Some(v), warnings),
        Err(e) => {
            let mut w = cat5(
                "[sa-mcp] invalid JSON in ",
                path,
                " (",
                e.as_str(),
                "); using built-in ",
            );
            w.append(what);
            let ghost prev = texts(warnings@);
            warnings.push(w);
            assert(texts(warnings@) =~= prev.push(w@));
            match Json::parse(seed) {
                Ok(v) => (Some(v), warnings),
                Err(_) => (None, warnings),
            }
        },
    }
}

/// The list in a document: its member `key`, or the document itself.
pub fn list_part(v: &Json, key: &str) -> (r: String)
    ensures
        r@ == json_text(
            match v@.get(key@) {
                Some(x) => x,
                None => v@,
            },
        ),
{
    match v.get(key) {
        Some(x) => x.to_text(),
        None => v.to_text(),
    }
}

/// The name and the instructions of the server.
pub fn server_identity(v: &Json) -> (r: (String, String))
    ensures
        r.0@ == (match v@.text_at("serverName"@) {
            Some(s) => s,
            None => "sa-mcp"@,
        }),
        r.1@ == (match v@.text_at("instructions"@) {
            Some(s) => s,
            None => ""@,
        }),
{
    let name: String = match v.str_at("serverName") {
        Some(s) => s.clone(),
        None => "sa-mcp".to_owned(),
    };
    let instructions: String = match v.str_at("instructions") {
        Some(s) => s.clone(),
        None => "".to_owned(),
    };
    (name, instructions)
}

/// The first thing in the text of a schema that some clients cannot handle: a keyword, or
/// a list of types.
pub open spec fn forbidden_keyword(text: Seq<char>) -> Option<Seq<char>> {
    if has_part(text, "\"anyOf\""@) {
        Some("anyOf"@)
    } else if has_part(text, "\"oneOf\""@) {
        Some("oneOf"@)
    } else if has_part(text, "\"allOf\""@) {
        Some("allOf"@)
    } else if has_part(text, "\"$ref\""@) {
        Some("$ref"@)
    } else if has_part(text, "\"definitions\""@) {
        Some("definitions"@)
    } else if has_part(text, "\"type\":["@) {
        Some("type-array"@)
    } else {
        None
    }
}

/// Accepts the text of a schema without anything that some clients cannot handle.
pub fn check_schema_text(text: &str) -> (r: Result<(), String>)
    ensures
        r is Ok == (forbidden_keyword(text@) is None),
        r matches Err(e) ==> e@ == "schema contains forbidden keyword "@ + forbidden_keyword(
            text@,
        )->0,
{
    let bad: &str = if contains_text(text, "\"anyOf\"") {
        "anyOf"
    } else if contains_text(text, "\"oneOf\"") {
        "oneOf"
    } else if contains_text(text, "\"allOf\"") {
        "allOf"
    } else if contains_text(text, "\"$ref\"") {
        "$ref"
    } else if contains_text(text, "\"definitions\"") {
        "definitions"
    } else if contains_text(text, "\"type\":[") {
        "type-array"
    } else {
        return Ok(());
    };
    Err(cat2("schema contains forbidden keyword ", bad))
}

/// Accepts a schema without anything that some clients cannot handle.
pub fn validate_cursor_schema(schema: &Json) -> (r: Result<(), String>)
    ensures
        r is Ok == (forbidden_keyword(json_text(schema@)) is None),
        r matches Err(e) ==> e@ == "schema contains forbidden keyword "@ + forbidden_keyword(
            json_text(schema@),
        )->0,
{
    check_schema_text(schema.to_text().as_str())
}

/// The tools that are listed are those that are offered, all of them, in their order.
pub proof fn offered_tools_are_all_listed(env: Vars, a: Seq<ToolV>, b: Seq<ToolV>, t: ToolV)
    ensures
        offered_tools(env, a + b) == offered_tools(env, a) + offered_tools(env, b),
        offered(env, t) ==> offered_tools(env, seq![t]) == seq![t],
        !offered(env, t) ==> offered_tools(env, seq![t]).len() == 0,
    decreases b.len(),
{
    assert(seq![t].drop_last() =~= Seq::<ToolV>::empty());
    assert(offered_tools(env, Seq::<ToolV>::empty()) == Seq::<ToolV>::empty());
    assert(Seq::<ToolV>::empty().push(t) =~= seq![t]);
    if b.len() == 0 {
        assert(a + b =~= a);
        assert(offered_tools(env, a) + offered_tools(env, b) =~= offered_tools(env, a));
    } else {
        offered_tools_are_all_listed(env, a, b.drop_last(), t);
        assert((a + b).drop_last() =~= a + b.drop_last());
        assert(offered_tools(env, a + b) =~= offered_tools(env, a) + offered_tools(env, b));
    }
}

/// A tool is offered if the variable of its guard, where it has one, reads as true, and, where
/// it writes, the modes show the tools that write.
pub proof fn tools_are_offered_by_guard_and_group(env: Vars, t: ToolV, v: Seq<char>)
    ensures
        offered(env, t) <==> (t.guards matches Some(Some(g)) ==> find(env, g) is Some
            && crate::config::truthy(find(env, g)->0)) && (t.group == "write"@ ==> exposition_modes(
            env,
        ).contains("high"@) || exposition_modes(env).contains("write"@)),
{
}

/// A tool is found by its name: the first of that name, where it is offered.
pub proof fn tools_are_found_by_name(env: Vars, tools: Seq<ToolV>, i: int)
    requires
        0 <= i < tools.len(),
        offered(env, tools[i]),
        forall|j: int| 0 <= j < i ==> (#[trigger] tools[j]).name != tools[i].name,
    ensures
        offered_tool(env, tools, tools[i].name) == Some(tools[i]),
{
    lemma_first_tool(tools, i);
}

proof fn lemma_first_tool(tools: Seq<ToolV>, i: int)
    requires
        0 <= i < tools.len(),
        forall|j: int| 0 <= j < i ==> (#[trigger] tools[j]).name != tools[i].name,
    ensures
        first_named(tools, tools[i].name) == Some(tools[i]),
    decreases tools.len(),
{
    if i > 0 {
        let t = tools.drop_first();
        assert(tools[0].name != tools[i].name);
        assert forall|j: int| 0 <= j < i - 1 implies (#[trigger] t[j]).name != t[i - 1].name by {
            assert(t[j] == tools[j + 1]);
        }
        lemma_first_tool(t, i - 1);
    }
}

/// A name that no tool has is not found.
pub proof fn other_names_are_not_found(env: Vars, tools: Seq<ToolV>, name: Seq<char>)
    requires
        forall|j: int| 0 <= j < tools.len() ==> (#[trigger] tools[j]).name != name,
    ensures
        offered_tool(env, tools, name) is None,
    decreases tools.len(),
{
    if tools.len() > 0 {
        let t = tools.drop_first();
        assert(tools[0].name != name);
        assert forall|j: int| 0 <= j < t.len() implies (#[trigger] t[j]).name != name by {
            assert(t[j] == tools[j + 1]);
        }
        other_names_are_not_found(env, t, name);
    }
}

/// A file that can be read and is JSON is the document; in its place stands the built-in one.
pub proof fn files_go_before_the_seed(text: Seq<char>, e: Seq<char>, seed: Seq<char>, v: JsonV, w: JsonV)
    requires
        json_parse(seed) == Ok::<JsonV, Seq<char>>(w),
    ensures
        json_parse(text) == Ok::<JsonV, Seq<char>>(v) ==> document_or_seed(Ok(text), seed) == Some(
            v,
        ),
        json_parse(text) is Err ==> document_or_seed(Ok(text), seed) == Some(w),
        document_or_seed(Err(e), seed) == Some(w),
{
}

/// A schema is accepted if and only if none of the keywords, and no list of types, stands in
/// its text.
pub proof fn schemas_are_free_of_keywords(text: Seq<char>)
    ensures
        forbidden_keyword(text) is None <==> !has_part(text, "\"anyOf\""@) && !has_part(
            text,
            "\"oneOf\""@,
        ) && !has_part(text, "\"allOf\""@) && !has_part(text, "\"$ref\""@) && !has_part(
            text,
            "\"definitions\""@,
        ) && !has_part(text, "\"type\":["@),
{
}

/// A document that cannot be read or is not JSON is reported, and one that can be is not.
pub proof fn unread_documents_are_reported(
    path: Seq<char>,
    text: Seq<char>,
    e: Seq<char>,
    seed: Seq<char>,
    what: Seq<char>,
)
    ensures
        json_parse(text) is Ok ==> document_warnings(path, Ok(text), seed, what).len() == 0,
        json_parse(text) is Err ==> document_warnings(path, Ok(text), seed, what).len() == 1,
        json_parse(seed) is Ok ==> document_warnings(path, Err(e), seed, what).len() == 1,
        json_parse(seed) is Err ==> document_warnings(path, Err(e), seed, what).len() == 2,
{
}

} // verus!
