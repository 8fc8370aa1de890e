//! What a request is answered: the envelope, the lists, and which system a tool goes to.

use vstd::prelude::*;
use vstd::string::*;
use crate::cache::fresh;
use crate::config::{entity_open, instance_name, odata_name, Vars};
use crate::entity::{annotated, array_at, meta_of};
use crate::handler::{cache_key, client_chosen, counted, exec_done, handled, metrics_listed, op_resumed, preview_done, prompt_named, resource_error, resumed, tool_args, validate_done, DemandV, ExecJobV, HandlerV, NoteV, OpStageV, PendingV, StepV, TaskV, TurnV};
use crate::json::{json_parse, json_text, JsonV, NumV};
use crate::ops::{brings_credentials, hopeless, input_text, may_override, overridden, shown_sets, CtxV, RefV};
use crate::pool::described;
use crate::registry::{offered, offered_tools, tools_are_found_by_name, PromptV};
use crate::sap_client::CallV;
use crate::strmap::{find, put_is_found};
use crate::tenant::{rate_verdict, TenantV};

verus! {

/// The result in the response of a turn.
pub open spec fn result_of(turn: TurnV) -> Option<JsonV> {
    match turn {
        TurnV::Done(Some(r)) => r.get("result"@),
        _ => None,
    }
}

/// Whether a turn ends in a response with a result.
pub open spec fn answers(turn: TurnV, id: JsonV, v: JsonV) -> bool {
    turn matches TurnV::Done(Some(r)) && r.get("jsonrpc"@) == Some(JsonV::Str("2.0"@)) && r.get(
        "id"@,
    ) == Some(id) && r.get("result"@) == Some(v) && r.get("error"@) is None
}

/// Whether a turn ends in a response with an error.
pub open spec fn refuses(turn: TurnV, id: JsonV, message: Seq<char>) -> bool {
    turn matches TurnV::Done(Some(r)) && r.get("jsonrpc"@) == Some(JsonV::Str("2.0"@)) && r.get(
        "id"@,
    ) == Some(id) && r.get("result"@) is None && (r.get("error"@) matches Some(x) && x.get("code"@)
        == Some(JsonV::Num(NumV::Neg((-32603) as i64))) && x.get("message"@) == Some(
        JsonV::Str(message),
    ))
}

/// Whether a turn ends in a response whose result holds one text.
pub open spec fn answers_text(turn: TurnV, id: JsonV, text: Seq<char>) -> bool {
    result_of(turn) matches Some(v) && answers(turn, id, v) && (v.get("content"@) matches Some(
        JsonV::Arr(a),
    ) && a.len() == 1 && a[0].get("type"@) == Some(JsonV::Str("text"@)) && a[0].get("text"@) == Some(
        JsonV::Str(text),
    ))
}

/// Whether a turn ends in a response whose result holds a resource.
pub open spec fn answers_resource(turn: TurnV, id: JsonV, uri: Seq<char>, text: Seq<char>) -> bool {
    result_of(turn) matches Some(v) && answers(turn, id, v) && (v.get("contents"@) matches Some(
        JsonV::Arr(a),
    ) && a.len() == 1 && a[0].get("uri"@) == Some(JsonV::Str(uri)) && a[0].get("text"@) == Some(
        JsonV::Str(text),
    ))
}

/// Whether a request with an identifier asks for a method.
pub open spec fn asks(req: JsonV, id: JsonV, method: Seq<char>) -> bool {
    req.get("id"@) == Some(id) && req.get("method"@) == Some(JsonV::Str(method))
}

/// Whether a request brings parameters.
pub open spec fn brings(req: JsonV, k: Seq<char>, v: JsonV) -> bool {
    req.get("params"@) matches Some(p) && p.get(k) == Some(v)
}

proof fn lemma_envelope_names()
    ensures
        "jsonrpc"@ != "id"@,
        "jsonrpc"@ != "result"@,
        "jsonrpc"@ != "error"@,
        "id"@ != "result"@,
        "id"@ != "error"@,
        "result"@ != "error"@,
{
    reveal_strlit("jsonrpc");
    reveal_strlit("id");
    reveal_strlit("result");
    reveal_strlit("error");
    assert("jsonrpc"@.len() == 7);
    assert("id"@.len() == 2);
    assert("result"@.len() == 6);
    assert("error"@.len() == 5);
}

proof fn lemma_error_names()
    ensures
        "code"@ != "message"@,
{
    reveal_strlit("code");
    reveal_strlit("message");
    assert("code"@.len() == 4);
    assert("message"@.len() == 7);
}

proof fn lemma_methods()
    ensures
        "initialize"@ != "notifications/initialized"@,
        "initialize"@ != "initialized"@,
        "initialize"@ != "ping"@,
        "initialize"@ != "tools/list"@,
        "initialize"@ != "tools/call"@,
        "initialize"@ != "prompts/list"@,
        "initialize"@ != "prompts/get"@,
        "initialize"@ != "resources/list"@,
        "initialize"@ != "resources/read"@,
        "notifications/initialized"@ != "initialized"@,
        "notifications/initialized"@ != "ping"@,
        "notifications/initialized"@ != "tools/list"@,
        "notifications/initialized"@ != "tools/call"@,
        "notifications/initialized"@ != "prompts/list"@,
        "notifications/initialized"@ != "prompts/get"@,
        "notifications/initialized"@ != "resources/list"@,
        "notifications/initialized"@ != "resources/read"@,
        "initialized"@ != "ping"@,
        "initialized"@ != "tools/list"@,
        "initialized"@ != "tools/call"@,
        "initialized"@ != "prompts/list"@,
        "initialized"@ != "prompts/get"@,
        "initialized"@ != "resources/list"@,
        "initialized"@ != "resources/read"@,
        "ping"@ != "tools/list"@,
        "ping"@ != "tools/call"@,
        "ping"@ != "prompts/list"@,
        "ping"@ != "prompts/get"@,
        "ping"@ != "resources/list"@,
        "ping"@ != "resources/read"@,
        "tools/list"@ != "tools/call"@,
        "tools/list"@ != "prompts/list"@,
        "tools/list"@ != "prompts/get"@,
        "tools/list"@ != "resources/list"@,
        "tools/list"@ != "resources/read"@,
        "tools/call"@ != "prompts/list"@,
        "tools/call"@ != "prompts/get"@,
        "tools/call"@ != "resources/list"@,
        "tools/call"@ != "resources/read"@,
        "prompts/list"@ != "prompts/get"@,
        "prompts/list"@ != "resources/list"@,
        "prompts/list"@ != "resources/read"@,
        "prompts/get"@ != "resources/list"@,
        "prompts/get"@ != "resources/read"@,
        "resources/list"@ != "resources/read"@,
{
    reveal_strlit("initialize");
    reveal_strlit("notifications/initialized");
    reveal_strlit("initialized");
    reveal_strlit("ping");
    reveal_strlit("tools/list");
    reveal_strlit("tools/call");
    reveal_strlit("prompts/list");
    reveal_strlit("prompts/get");
    reveal_strlit("resources/list");
    reveal_strlit("resources/read");
    assert("initialize"@.len() == 10);
    assert("notifications/initialized"@.len() == 25);
    assert("initialized"@.len() == 11);
    assert("ping"@.len() == 4);
    assert("tools/list"@.len() == 10);
    assert("tools/call"@.len() == 10);
    assert("prompts/list"@.len() == 12);
    assert("prompts/get"@.len() == 11);
    assert("resources/list"@.len() == 14);
    assert("resources/read"@.len() == 14);
    assert("initialize"@[0] != "tools/list"@[0]);
    assert("initialize"@[0] != "tools/call"@[0]);
    assert("initialized"@[0] != "prompts/get"@[0]);
    assert("tools/list"@[6] != "tools/call"@[6]);
    assert("resources/list"@[10] != "resources/read"@[10]);
}

proof fn lemma_content_names()
    ensures
        "type"@ != "text"@,
{
    reveal_strlit("type");
    reveal_strlit("text");
    assert("type"@.len() == 4);
    assert("text"@.len() == 4);
    assert("type"@[1] != "text"@[1]);
}

proof fn lemma_uri_names()
    ensures
        "uri"@ != "text"@,
        "uri"@ != "name"@,
        "uri"@ != "description"@,
        "text"@ != "name"@,
        "text"@ != "description"@,
        "name"@ != "description"@,
{
    reveal_strlit("uri");
    reveal_strlit("text");
    reveal_strlit("name");
    reveal_strlit("description");
    assert("uri"@.len() == 3);
    assert("text"@.len() == 4);
    assert("name"@.len() == 4);
    assert("description"@.len() == 11);
    assert("text"@[0] != "name"@[0]);
}


/// A server that is asked to begin says which protocol it speaks, who it is and how it is
/// used, and that its lists do not change.
pub proof fn servers_introduce_themselves(h: HandlerV, env: Vars, req: JsonV, id: JsonV, t: TenantV, now: u64)
    requires
        asks(req, id, "initialize"@),
    ensures
        handled(h, env, req, t, now).0 == h,
        result_of(handled(h, env, req, t, now).1) matches Some(v) && answers(
            handled(h, env, req, t, now).1,
            id,
            v,
        ) && v.get("protocolVersion"@) == Some(JsonV::Str("2025-11-05"@)) && v.get("instructions"@)
            == Some(JsonV::Str(h.registry.instructions)) && (v.get("serverInfo"@) matches Some(s)
            && s.get("name"@) == Some(JsonV::Str(h.registry.server_name)) && s.get("version"@)
            == Some(JsonV::Str(h.version))) && (v.get("capabilities"@) matches Some(c) && (c.get(
            "tools"@,
        ) matches Some(x) && x.get("listChanged"@) == Some(JsonV::Bool(false))) && (c.get(
            "prompts"@,
        ) matches Some(x) && x.get("listChanged"@) == Some(JsonV::Bool(false))) && (c.get(
            "resources"@,
        ) matches Some(x) && x.get("listChanged"@) == Some(JsonV::Bool(false)))),
{
    broadcast use put_is_found;

    lemma_envelope_names();
    lemma_methods();
    lemma_introduction_names();
}

proof fn lemma_introduction_names()
    ensures
        "protocolVersion"@ != "capabilities"@,
        "protocolVersion"@ != "serverInfo"@,
        "protocolVersion"@ != "instructions"@,
        "protocolVersion"@ != "tools"@,
        "protocolVersion"@ != "prompts"@,
        "protocolVersion"@ != "resources"@,
        "protocolVersion"@ != "name"@,
        "protocolVersion"@ != "version"@,
        "capabilities"@ != "serverInfo"@,
        "capabilities"@ != "instructions"@,
        "capabilities"@ != "tools"@,
        "capabilities"@ != "prompts"@,
        "capabilities"@ != "resources"@,
        "capabilities"@ != "name"@,
        "capabilities"@ != "version"@,
        "serverInfo"@ != "instructions"@,
        "serverInfo"@ != "tools"@,
        "serverInfo"@ != "prompts"@,
        "serverInfo"@ != "resources"@,
        "serverInfo"@ != "name"@,
        "serverInfo"@ != "version"@,
        "instructions"@ != "tools"@,
        "instructions"@ != "prompts"@,
        "instructions"@ != "resources"@,
        "instructions"@ != "name"@,
        "instructions"@ != "version"@,
        "tools"@ != "prompts"@,
        "tools"@ != "resources"@,
        "tools"@ != "name"@,
        "tools"@ != "version"@,
        "prompts"@ != "resources"@,
        "prompts"@ != "name"@,
        "prompts"@ != "version"@,
        "resources"@ != "name"@,
        "resources"@ != "version"@,
        "name"@ != "version"@,
{
    reveal_strlit("protocolVersion");
    reveal_strlit("capabilities");
    reveal_strlit("serverInfo");
    reveal_strlit("instructions");
    reveal_strlit("tools");
    reveal_strlit("prompts");
    reveal_strlit("resources");
    reveal_strlit("name");
    reveal_strlit("version");
    assert("protocolVersion"@.len() == 15);
    assert("capabilities"@.len() == 12);
    assert("serverInfo"@.len() == 10);
    assert("instructions"@.len() == 12);
    assert("tools"@.len() == 5);
    assert("prompts"@.len() == 7);
    assert("resources"@.len() == 9);
    assert("name"@.len() == 4);
    assert("version"@.len() == 7);
    assert("capabilities"@[0] != "instructions"@[0]);
    assert("prompts"@[0] != "version"@[0]);
}

/// A ping, and the notice that a client has begun, are answered with an empty object.
pub proof fn pings_are_answered(h: HandlerV, env: Vars, req: JsonV, id: JsonV, t: TenantV, now: u64)
    requires
        asks(req, id, "ping"@) || asks(req, id, "initialized"@) || asks(
            req,
            id,
            "notifications/initialized"@,
        ),
    ensures
        handled(h, env, req, t, now).0 == h,
        answers(handled(h, env, req, t, now).1, id, JsonV::Obj(Seq::empty())),
{
    broadcast use put_is_found;

    lemma_envelope_names();
    lemma_methods();
}

/// A method that there is not is refused by its name.
pub proof fn other_methods_are_refused(
    h: HandlerV,
    env: Vars,
    req: JsonV,
    id: JsonV,
    m: Seq<char>,
    t: TenantV,
    now: u64,
)
    requires
        asks(req, id, m),
        m != "initialize"@,
        m != "notifications/initialized"@,
        m != "initialized"@,
        m != "ping"@,
        m != "tools/list"@,
        m != "tools/call"@,
        m != "prompts/list"@,
        m != "prompts/get"@,
        m != "resources/list"@,
        m != "resources/read"@,
    ensures
        handled(h, env, req, t, now).0 == h,
        refuses(handled(h, env, req, t, now).1, id, "unknown method "@ + m),
{
    broadcast use put_is_found;

    lemma_envelope_names();
    lemma_error_names();
}

/// The list of the tools has an entry for each tool that is offered, with its name,
/// description and schema.
pub proof fn listed_tools_are_described(
    h: HandlerV,
    env: Vars,
    req: JsonV,
    id: JsonV,
    t: TenantV,
    now: u64,
)
    requires
        asks(req, id, "tools/list"@),
    ensures
        handled(h, env, req, t, now).0 == h,
        result_of(handled(h, env, req, t, now).1) matches Some(v) && answers(
            handled(h, env, req, t, now).1,
            id,
            v,
        ) && (v.get("tools"@) matches Some(JsonV::Arr(a)) && a.len() == offered_tools(
            env,
            h.registry.tools,
        ).len() && forall|i: int|
            0 <= i < a.len() ==> (#[trigger] a[i]).get("name"@) == Some(
                JsonV::Str(offered_tools(env, h.registry.tools)[i].name),
            ) && a[i].get("description"@) == Some(
                JsonV::Str(offered_tools(env, h.registry.tools)[i].description),
            ) && a[i].get("inputSchema"@) == Some(
                offered_tools(env, h.registry.tools)[i].input_schema,
            )),
{
    broadcast use put_is_found;

    lemma_envelope_names();
    lemma_methods();
    lemma_tool_names();
}

proof fn lemma_tool_names()
    ensures
        "name"@ != "description"@,
        "name"@ != "inputSchema"@,
        "description"@ != "inputSchema"@,
{
    reveal_strlit("name");
    reveal_strlit("description");
    reveal_strlit("inputSchema");
    assert("name"@.len() == 4);
    assert("description"@.len() == 11);
    assert("inputSchema"@.len() == 11);
    assert("description"@[0] != "inputSchema"@[0]);
}

/// The list of the prompts has an entry for each, with its name and description.
pub proof fn listed_prompts_are_described(
    h: HandlerV,
    env: Vars,
    req: JsonV,
    id: JsonV,
    t: TenantV,
    now: u64,
)
    requires
        asks(req, id, "prompts/list"@),
    ensures
        handled(h, env, req, t, now).0 == h,
        result_of(handled(h, env, req, t, now).1) matches Some(v) && answers(
            handled(h, env, req, t, now).1,
            id,
            v,
        ) && (v.get("prompts"@) matches Some(JsonV::Arr(a)) && a.len() == h.registry.prompts.len()
            && forall|i: int|
            0 <= i < a.len() ==> (#[trigger] a[i]).get("name"@) == Some(
                JsonV::Str(h.registry.prompts[i].name),
            ) && a[i].get("description"@) == Some(JsonV::Str(h.registry.prompts[i].description))),
{
    broadcast use put_is_found;

    lemma_envelope_names();
    lemma_methods();
    lemma_uri_names();
}

/// A prompt is given by its name: the first of that name, as one message of the user.
pub proof fn prompts_are_given_by_name(
    h: HandlerV,
    env: Vars,
    req: JsonV,
    id: JsonV,
    i: int,
    t: TenantV,
    now: u64,
)
    requires
        asks(req, id, "prompts/get"@),
        0 <= i < h.registry.prompts.len(),
        brings(req, "name"@, JsonV::Str(h.registry.prompts[i].name)),
        forall|j: int|
            0 <= j < i ==> (#[trigger] h.registry.prompts[j]).name != h.registry.prompts[i].name,
    ensures
        handled(h, env, req, t, now).0 == h,
        result_of(handled(h, env, req, t, now).1) matches Some(v) && answers(
            handled(h, env, req, t, now).1,
            id,
            v,
        ) && v.get("description"@) == Some(JsonV::Str(h.registry.prompts[i].description)) && (v.get(
            "messages"@,
        ) matches Some(JsonV::Arr(a)) && a.len() == 1 && a[0].get("role"@) == Some(
            JsonV::Str("user"@),
        ) && (a[0].get("content"@) matches Some(c) && c.get("type"@) == Some(JsonV::Str("text"@))
            && c.get("text"@) == Some(JsonV::Str(h.registry.prompts[i].content)))),
{
    broadcast use put_is_found;

    lemma_envelope_names();
    lemma_methods();
    lemma_content_names();
    lemma_prompt_names();
    lemma_prompt(h.registry.prompts, i);
}

proof fn lemma_prompt_names()
    ensures
        "role"@ != "content"@,
        "role"@ != "description"@,
        "role"@ != "messages"@,
        "content"@ != "description"@,
        "content"@ != "messages"@,
        "description"@ != "messages"@,
{
    reveal_strlit("role");
    reveal_strlit("content");
    reveal_strlit("description");
    reveal_strlit("messages");
    assert("role"@.len() == 4);
    assert("content"@.len() == 7);
    assert("description"@.len() == 11);
    assert("messages"@.len() == 8);
}

proof fn lemma_prompt(prompts: Seq<PromptV>, i: int)
    requires
        0 <= i < prompts.len(),
        forall|j: int| 0 <= j < i ==> (#[trigger] prompts[j]).name != prompts[i].name,
    ensures
        prompt_named(prompts, prompts[i].name) == Some(prompts[i]),
    decreases prompts.len(),
{
    if i > 0 {
        let t = prompts.drop_first();
        assert(prompts[0].name != prompts[i].name);
        assert forall|j: int| 0 <= j < i - 1 implies (#[trigger] t[j]).name != t[i - 1].name by {
            assert(t[j] == prompts[j + 1]);
        }
        lemma_prompt(t, i - 1);
    }
}

/// The resources that are listed are the systems and the entities.
pub proof fn listed_resources_are_two(
    h: HandlerV,
    env: Vars,
    req: JsonV,
    id: JsonV,
    t: TenantV,
    now: u64,
)
    requires
        asks(req, id, "resources/list"@),
    ensures
        handled(h, env, req, t, now).0 == h,
        result_of(handled(h, env, req, t, now).1) matches Some(v) && answers(
            handled(h, env, req, t, now).1,
            id,
            v,
        ) && (v.get("resources"@) matches Some(JsonV::Arr(a)) && a.len() == 2 && a[0].get("uri"@)
            == Some(JsonV::Str("sap://instances"@)) && a[0].get("name"@) == Some(
            JsonV::Str("instances"@),
        ) && a[1].get("uri"@) == Some(JsonV::Str("sap://entities"@)) && a[1].get("name"@) == Some(
            JsonV::Str("entities"@),
        ) && a[0].get("description"@) is Some && a[1].get("description"@) is Some),
{
    broadcast use put_is_found;

    lemma_envelope_names();
    lemma_methods();
    lemma_uri_names();
}

/// The arguments of a tool are the object that is given, or the value that a given text reads
/// as; in place of anything else stands an empty object.
pub proof fn arguments_are_taken_as_given(params: JsonV, v: JsonV, s: Seq<char>)
    ensures
        params.get("arguments"@) == Some(v) && !(v is Str) ==> tool_args(params) == v,
        params.get("arguments"@) == Some(JsonV::Str(s)) && json_parse(s) == Ok::<JsonV, Seq<char>>(
            v,
        ) ==> tool_args(params) == v,
        params.get("arguments"@) == Some(JsonV::Str(s)) && json_parse(s) is Err ==> tool_args(params)
            == JsonV::Obj(Seq::empty()),
        params.get("arguments"@) is None ==> tool_args(params) == JsonV::Obj(Seq::empty()),
{
}

/// Whether a request calls the tool at a place in the list, which is offered and the first of
/// its name.
pub open spec fn calls_tool(h: HandlerV, env: Vars, req: JsonV, id: JsonV, i: int, args: JsonV) -> bool {
    &&& asks(req, id, "tools/call"@)
    &&& 0 <= i < h.registry.tools.len()
    &&& offered(env, h.registry.tools[i])
    &&& forall|j: int|
        0 <= j < i ==> (#[trigger] h.registry.tools[j]).name != h.registry.tools[i].name
    &&& req.get("params"@) matches Some(p) && p.get("name"@) == Some(
        JsonV::Str(h.registry.tools[i].name),
    ) && tool_args(p) == args
}

/// Whether the arguments of a tool name a system, or leave the default.
pub open spec fn goes_to(h: HandlerV, map: Seq<(Seq<char>, Seq<char>)>, args: JsonV, n: Seq<char>) -> bool {
    match input_text(map, args, "instance"@) {
        Some(x) => x == n && instance_name(n),
        None => n == h.pool.default,
    }
}

/// A tool that may be called opens the system that its arguments name, or the default one,
/// and goes on with exactly what was given. The call is counted.
pub proof fn tools_open_their_system(
    h: HandlerV,
    env: Vars,
    req: JsonV,
    id: JsonV,
    i: int,
    args: JsonV,
    n: Seq<char>,
    t: TenantV,
    now: u64,
)
    requires
        calls_tool(h, env, req, id, i, args),
        goes_to(h, h.registry.tools[i].map, args, n),
        h.registry.tools[i].op_type != "list_instances"@,
        t.may_use(n),
        rate_verdict(env, h.limiter, seq![t.label(), n, h.registry.tools[i].op_type], now).0,
        find(h.pool.configs, n) is Some,
    ensures
        !brings_credentials(args) ==> (handled(h, env, req, t, now).1 matches TurnV::Wait(d, p) && d
            == DemandV::OpenClient(RefV::Pooled(n)) && p.id == id && !p.is_notification && (
        p.task matches TaskV::Op { ctx, stage } && stage == OpStageV::Opening && ctx.op
            == h.registry.tools[i].op_type && ctx.map == h.registry.tools[i].map && ctx.args == args
            && ctx.instance == n && ctx.tenant == t && ctx.client == RefV::Pooled(n))),
        brings_credentials(args) && may_override(env, t) ==> (handled(
            h,
            env,
            req,
            t,
            now,
        ).1 matches TurnV::Wait(d, p) && d == DemandV::OpenClient(
            RefV::Override(overridden(find(h.pool.configs, n)->0, args)),
        ) && p.id == id && !p.is_notification && (p.task matches TaskV::Op { ctx, stage } && stage
            == OpStageV::Opening && ctx.op == h.registry.tools[i].op_type && ctx.map
            == h.registry.tools[i].map && ctx.args == args && ctx.instance == n && ctx.tenant == t
            && ctx.client == RefV::Override(overridden(find(h.pool.configs, n)->0, args)))),
        find(h.metrics, h.registry.tools[i].op_type) is None ==> find(
            handled(h, env, req, t, now).0.metrics,
            h.registry.tools[i].op_type,
        ) == Some(1u64),
        find(h.metrics, h.registry.tools[i].op_type) matches Some(k) ==> (k < u64::MAX ==> find(
            handled(h, env, req, t, now).0.metrics,
            h.registry.tools[i].op_type,
        ) == Some((k + 1) as u64)),
{
    broadcast use put_is_found;

    lemma_methods();
    tools_are_found_by_name(env, h.registry.tools, i);
}

/// A call counts for its operation alone.
pub proof fn calls_count_for_their_operation(h: HandlerV, op: Seq<char>, other: Seq<char>)
    requires
        other != op,
    ensures
        find(counted(h, op).metrics, other) == find(h.metrics, other),
        counted(h, op).pool == h.pool,
        counted(h, op).approvals == h.approvals,
        counted(h, op).limiter == h.limiter,
        counted(h, op).notes == h.notes,
{
    broadcast use put_is_found;

}

/// The list of the systems is answered at once, as one text, with what the caller may see.
pub proof fn systems_are_listed_at_once(
    h: HandlerV,
    env: Vars,
    req: JsonV,
    id: JsonV,
    i: int,
    args: JsonV,
    n: Seq<char>,
    t: TenantV,
    now: u64,
)
    requires
        calls_tool(h, env, req, id, i, args),
        goes_to(h, h.registry.tools[i].map, args, n),
        h.registry.tools[i].op_type == "list_instances"@,
    ensures
        handled(h, env, req, t, now).0 == h,
        answers_text(handled(h, env, req, t, now).1, id, json_text(described(h.pool, t))),
{
    broadcast use put_is_found;

    lemma_envelope_names();
    lemma_methods();
    lemma_content_names();
    tools_are_found_by_name(env, h.registry.tools, i);
}

/// A system whose name is not a name is refused.
pub proof fn wrong_names_of_systems_are_refused(
    h: HandlerV,
    env: Vars,
    req: JsonV,
    id: JsonV,
    i: int,
    args: JsonV,
    n: Seq<char>,
    t: TenantV,
    now: u64,
)
    requires
        calls_tool(h, env, req, id, i, args),
        input_text(h.registry.tools[i].map, args, "instance"@) == Some(n),
        !instance_name(n),
    ensures
        handled(h, env, req, t, now).0 == h,
        refuses(
            handled(h, env, req, t, now).1,
            id,
            "invalid instance name '"@ + n + "'"@,
        ),
{
    broadcast use put_is_found;

    lemma_envelope_names();
    lemma_error_names();
    lemma_methods();
    tools_are_found_by_name(env, h.registry.tools, i);
}

/// What an operation comes to is handed to the client: a value as one text, a failure as an
/// error, and a further demand with the same identifier.
pub proof fn tools_answer_in_text(
    h: HandlerV,
    env: Vars,
    id: JsonV,
    ctx: CtxV,
    stage: OpStageV,
    answer: Result<JsonV, Seq<char>>,
    now: u64,
)
    ensures
        ({
            let p = PendingV { id, is_notification: false, task: TaskV::Op { ctx, stage } };
            let r = resumed(h, env, p, answer, now);
            let s = op_resumed(h, env, ctx, stage, answer, now);
            &&& r.0 == s.0
            &&& s.1 matches StepV::Done(Ok(out)) ==> answers_text(r.1, id, json_text(out))
            &&& s.1 matches StepV::Done(Err(e)) ==> refuses(r.1, id, e)
            &&& s.1 matches StepV::Wait(d, task) ==> r.1 == TurnV::Wait(
                d,
                PendingV { id, is_notification: false, task },
            )
        }),
{
    broadcast use put_is_found;

    lemma_envelope_names();
    lemma_error_names();
    lemma_content_names();
}

/// A system that cannot be reached, and a call of it that fails, are answered with what went
/// wrong.
pub proof fn failures_are_handed_on(
    h: HandlerV,
    env: Vars,
    id: JsonV,
    ctx: CtxV,
    job: ExecJobV,
    uri: Seq<char>,
    instance: Seq<char>,
    opened: bool,
    e: Seq<char>,
    now: u64,
)
    ensures
        ({
            let task = TaskV::Op { ctx, stage: OpStageV::Opening };
            let r = resumed(h, env, PendingV { id, is_notification: false, task }, Err(e), now);
            r.0 == h && refuses(r.1, id, e)
        }),
        ({
            let task = TaskV::Op { ctx, stage: OpStageV::Read };
            let r = resumed(h, env, PendingV { id, is_notification: false, task }, Err(e), now);
            r.0 == h && refuses(r.1, id, e)
        }),
        ({
            let task = TaskV::Op { ctx, stage: OpStageV::Exec(job) };
            let r = resumed(h, env, PendingV { id, is_notification: false, task }, Err(e), now);
            r.0 == h && refuses(r.1, id, e)
        }),
        ({
            let task = TaskV::Resource { uri, instance, opened };
            let r = resumed(h, env, PendingV { id, is_notification: false, task }, Err(e), now);
            r.0 == h && refuses(r.1, id, e)
        }),
{
    broadcast use put_is_found;

    lemma_envelope_names();
    lemma_error_names();
}

proof fn lemma_resources()
    ensures
        "sap://instances"@ != "sap://entities"@,
{
    reveal_strlit("sap://instances");
    reveal_strlit("sap://entities");
    assert("sap://instances"@.len() == 15);
    assert("sap://entities"@.len() == 14);
}

/// The resource of the systems shows what the caller may see of them.
pub proof fn systems_are_a_resource(
    h: HandlerV,
    env: Vars,
    req: JsonV,
    id: JsonV,
    t: TenantV,
    now: u64,
)
    requires
        asks(req, id, "resources/read"@),
        brings(req, "uri"@, JsonV::Str("sap://instances"@)),
    ensures
        handled(h, env, req, t, now).0 == h,
        answers_resource(
            handled(h, env, req, t, now).1,
            id,
            "sap://instances"@,
            json_text(described(h.pool, t)),
        ),
{
    broadcast use put_is_found;

    lemma_envelope_names();
    lemma_methods();
    lemma_uri_names();
}

/// Any other resource is read from the home of the caller.
pub proof fn resources_are_read_at_home(
    h: HandlerV,
    env: Vars,
    req: JsonV,
    id: JsonV,
    uri: Seq<char>,
    n: Seq<char>,
    t: TenantV,
    now: u64,
)
    requires
        asks(req, id, "resources/read"@),
        brings(req, "uri"@, JsonV::Str(uri)),
        uri != "sap://instances"@,
        t.home(h.pool.default) == Some(n),
        rate_verdict(env, h.limiter, seq![t.label(), n, "resources/read"@], now).0,
        find(h.pool.configs, n) is Some,
    ensures
        handled(h, env, req, t, now).1 == TurnV::Wait(
            DemandV::OpenClient(RefV::Pooled(n)),
            PendingV {
                id,
                is_notification: false,
                task: TaskV::Resource { uri, instance: n, opened: false },
            },
        ),
{
    lemma_methods();
}

/// Once its system is open, a resource that there is asks for the metadata of the system's own
/// service, unless they are kept.
pub proof fn resources_ask_for_the_metadata(
    h: HandlerV,
    env: Vars,
    id: JsonV,
    uri: Seq<char>,
    e: Seq<char>,
    instance: Seq<char>,
    v: JsonV,
    now: u64,
)
    requires
        uri == "sap://entities"@ || (uri == "sap://entity/"@ + e && odata_name(e) && entity_open(
            env,
            e,
        )),
        fresh(h.cache, h.cache_secs, cache_key(instance, None), now) is None,
    ensures
        resumed(
            h,
            env,
            PendingV {
                id,
                is_notification: false,
                task: TaskV::Resource { uri, instance, opened: false },
            },
            Ok(v),
            now,
        ) == (
            h,
            TurnV::Wait(
                DemandV::Call(RefV::Pooled(instance), CallV::Metadata { service: None }),
                PendingV {
                    id,
                    is_notification: false,
                    task: TaskV::Resource { uri, instance, opened: true },
                },
            ),
        ),
{
    assert(uri == "sap://entity/"@ + e ==> uri.take("sap://entity/"@.len() as int)
        =~= "sap://entity/"@);
    assert(uri == "sap://entity/"@ + e ==> uri.skip("sap://entity/"@.len() as int) =~= e);
}

/// The resource of the entities shows the sets that are open; that of one entity shows its
/// metadata, with what is hidden marked.
pub proof fn resources_show_the_metadata(
    h: HandlerV,
    env: Vars,
    id: JsonV,
    e: Seq<char>,
    instance: Seq<char>,
    md: JsonV,
    now: u64,
)
    ensures
        answers_resource(
            resumed(
                h,
                env,
                PendingV {
                    id,
                    is_notification: false,
                    task: TaskV::Resource { uri: "sap://entities"@, instance, opened: true },
                },
                Ok(md),
                now,
            ).1,
            id,
            "sap://entities"@,
            json_text(JsonV::Arr(shown_sets(env, Seq::empty(), array_at(md, "entity_sets"@)))),
        ),
        answers_resource(
            resumed(
                h,
                env,
                PendingV {
                    id,
                    is_notification: false,
                    task: TaskV::Resource { uri: "sap://entity/"@ + e, instance, opened: true },
                },
                Ok(md),
                now,
            ).1,
            id,
            "sap://entity/"@ + e,
            json_text(annotated(h.acl.rules, instance, e, meta_of(md, e))),
        ),
{
    broadcast use put_is_found;

    lemma_envelope_names();
    lemma_uri_names();
    reveal_strlit("");
    assert(""@ =~= Seq::<char>::empty());
    let uri = "sap://entity/"@ + e;
    reveal_strlit("sap://entity/");
    reveal_strlit("sap://entities");
    assert(uri.take("sap://entity/"@.len() as int) =~= "sap://entity/"@);
    assert(uri.skip("sap://entity/"@.len() as int) =~= e);
    assert(uri[11] == 'y');
    assert("sap://entities"@[11] == 'i');
}

/// A resource that there is not, an entity whose name is none and one that is closed are not
/// read.
pub proof fn other_resources_are_refused(env: Vars, uri: Seq<char>, e: Seq<char>)
    ensures
        resource_error(env, "sap://entities"@) is None,
        odata_name(e) && entity_open(env, e) ==> resource_error(env, "sap://entity/"@ + e) is None,
        !odata_name(e) || !entity_open(env, e) ==> resource_error(env, "sap://entity/"@ + e) is Some,
        uri != "sap://entities"@ && !"sap://entity/"@.is_prefix_of(uri)
            ==> resource_error(env, uri) is Some,
{
    reveal_strlit("sap://entity/");
    reveal_strlit("sap://entities");
    assert("sap://entity/"@.len() == 13);
    if uri.len() >= 13 && uri.take(13) == "sap://entity/"@ {
        assert(uri.subrange(0, 13) =~= uri.take(13));
    }
    let u = "sap://entity/"@ + e;
    assert(u.take(13) =~= "sap://entity/"@);
    assert(u.skip(13) =~= e);
    assert(u[11] == 'y');
    assert("sap://entities"@[11] == 'i');
}

/// The client of a request is that of the system, or one with the credentials that the request
/// brings, where the caller may bring them.
pub proof fn clients_are_chosen_by_the_arguments(
    h: HandlerV,
    env: Vars,
    t: TenantV,
    n: Seq<char>,
    args: JsonV,
)
    requires
        find(h.pool.configs, n) is Some,
    ensures
        !brings_credentials(args) ==> client_chosen(h, env, t, n, args).1 == Ok::<RefV, Seq<char>>(
            RefV::Pooled(n),
        ),
        brings_credentials(args) && may_override(env, t) ==> client_chosen(h, env, t, n, args).1
            == Ok::<RefV, Seq<char>>(
            RefV::Override(overridden(find(h.pool.configs, n)->0, args)),
        ),
        brings_credentials(args) && !may_override(env, t) ==> client_chosen(h, env, t, n, args).1
            is Err,
{
}

/// A preview, a validation and a write that was carried out are each noted once, with who did
/// it, where, to what and how it ended.
pub proof fn steps_of_writes_are_noted(
    h: HandlerV,
    ctx: CtxV,
    entity: Seq<char>,
    operation: Seq<char>,
    md: JsonV,
    job: ExecJobV,
    result: JsonV,
    now: u64,
)
    requires
        ctx.entity() == Ok::<Seq<char>, Seq<char>>(entity),
        ctx.operation() == Ok::<Seq<char>, Seq<char>>(operation),
        job.payload.get("model"@) == Some(JsonV::Str(entity)),
        job.payload.get("operation"@) == Some(JsonV::Str(operation)),
    ensures
        ({
            let n = preview_done(h, ctx).0.notes;
            n.len() == h.notes.len() + 1 && n.drop_last() == h.notes && (n.last() matches NoteV::Audit(
                a,
            ) && a.event == "preview"@ && a.actor == ctx.tenant.label() && a.instance == ctx.instance
                && a.model == entity && a.operation == operation && a.ok)
        }),
        validate_done(h, ctx, md, now).1 matches StepV::Done(Ok(_)) ==> ({
            let n = validate_done(h, ctx, md, now).0.notes;
            n.len() == h.notes.len() + 1 && n.drop_last() == h.notes && (n.last() matches NoteV::Audit(
                a,
            ) && a.event == "validate"@ && a.actor == ctx.tenant.label() && a.instance
                == ctx.instance && a.model == entity && a.operation == operation && a.ok
                == !hopeless(
                meta_of(md, entity),
                operation,
                ctx.get("keys"@),
                ctx.get("values"@),
            ))
        }),
        ({
            let n = exec_done(h, ctx, job, result).0.notes;
            n.len() == h.notes.len() + 1 && n.drop_last() == h.notes && (n.last() matches NoteV::Audit(
                a,
            ) && a.event == "execute"@ && a.actor == ctx.tenant.label() && a.instance
                == ctx.instance && a.model == entity && a.operation == operation && a.token
                == job.token && a.ok)
        }),
{
    assert(preview_done(h, ctx).0.notes.drop_last() =~= h.notes);
    assert(exec_done(h, ctx, job, result).0.notes.drop_last() =~= h.notes);
    if validate_done(h, ctx, md, now).1 matches StepV::Done(Ok(_)) {
        assert(validate_done(h, ctx, md, now).0.notes.drop_last() =~= h.notes);
    }
}

/// The counts of the operations are all shown.
pub proof fn counts_are_all_shown(m: Seq<(Seq<char>, u64)>, i: int)
    requires
        0 <= i < m.len(),
    ensures
        metrics_listed(m) matches JsonV::Arr(a) && a.len() == m.len() && a[i].get("op"@) == Some(
            JsonV::Str(m[i].0),
        ) && a[i].get("calls"@) == Some(JsonV::Num(NumV::Pos(m[i].1))),
{
    broadcast use put_is_found;

    reveal_strlit("op");
    reveal_strlit("calls");
    assert("op"@.len() == 2 && "calls"@.len() == 5);
}

/// A prompt that there is not is given without messages.
pub proof fn other_prompts_are_empty(
    h: HandlerV,
    env: Vars,
    req: JsonV,
    id: JsonV,
    name: Seq<char>,
    t: TenantV,
    now: u64,
)
    requires
        asks(req, id, "prompts/get"@),
        brings(req, "name"@, JsonV::Str(name)),
        forall|j: int|
            0 <= j < h.registry.prompts.len() ==> (#[trigger] h.registry.prompts[j]).name != name,
    ensures
        handled(h, env, req, t, now).0 == h,
        result_of(handled(h, env, req, t, now).1) matches Some(v) && answers(
            handled(h, env, req, t, now).1,
            id,
            v,
        ) && v.get("description"@) == Some(JsonV::Str(""@)) && v.get("messages"@) == Some(
            JsonV::Arr(Seq::empty()),
        ),
{
    broadcast use put_is_found;

    lemma_envelope_names();
    lemma_methods();
    lemma_prompt_names();
    lemma_no_prompt(h.registry.prompts, name);
}

proof fn lemma_no_prompt(prompts: Seq<PromptV>, name: Seq<char>)
    requires
        forall|j: int| 0 <= j < prompts.len() ==> (#[trigger] prompts[j]).name != name,
    ensures
        prompt_named(prompts, name) is None,
    decreases prompts.len(),
{
    if prompts.len() > 0 {
        let t = prompts.drop_first();
        assert(prompts[0].name != name);
        assert forall|j: int| 0 <= j < t.len() implies (#[trigger] t[j]).name != name by {
            assert(t[j] == prompts[j + 1]);
        }
        lemma_no_prompt(t, name);
    }
}

} // verus!
