//! What the write tools do with what they are given: which write a preview shows, what is
//! found wrong with it, and what is sent once it was approved.

use vstd::prelude::*;
use vstd::string::*;
use crate::cache::fresh;
use crate::config::{entity_open, flag, odata_name, Vars};
use crate::entity::{bad_key_name, credential_mark, key_text, meta_of, set_named};
use crate::gated::{approved, token_of, used_up};
use crate::guarantees::validated_writes_can_be_executed;
use crate::handler::{cache_key, execute_checked, known_types, op_opened, op_resumed, payload_begun, validate_done, DemandV, ExecJobV, HandlerV, MetaStageV, NoteV, OpStageV, StepV, TaskV};
use crate::json::{JsonV, Members, NumV};
use crate::ops::{capability, hopeless, incapable, issue, property_names, unknown_properties, value_issues, write_issues, CtxV};
use crate::sap_client::CallV;
use crate::strmap::{find, put_is_found, sorted_keys};

verus! {

proof fn lemma_payload_names()
    ensures
        "instance"@ != "service"@,
        "instance"@ != "model"@,
        "instance"@ != "operation"@,
        "instance"@ != "keys"@,
        "instance"@ != "values"@,
        "instance"@ != "etag"@,
        "instance"@ != "auth_fp"@,
        "service"@ != "model"@,
        "service"@ != "operation"@,
        "service"@ != "keys"@,
        "service"@ != "values"@,
        "service"@ != "etag"@,
        "service"@ != "auth_fp"@,
        "model"@ != "operation"@,
        "model"@ != "keys"@,
        "model"@ != "values"@,
        "model"@ != "etag"@,
        "model"@ != "auth_fp"@,
        "operation"@ != "keys"@,
        "operation"@ != "values"@,
        "operation"@ != "etag"@,
        "operation"@ != "auth_fp"@,
        "keys"@ != "values"@,
        "keys"@ != "etag"@,
        "keys"@ != "auth_fp"@,
        "values"@ != "etag"@,
        "values"@ != "auth_fp"@,
        "etag"@ != "auth_fp"@,
{
    reveal_strlit("instance");
    reveal_strlit("service");
    reveal_strlit("model");
    reveal_strlit("operation");
    reveal_strlit("keys");
    reveal_strlit("values");
    reveal_strlit("etag");
    reveal_strlit("auth_fp");
    assert("instance"@.len() == 8);
    assert("service"@.len() == 7);
    assert("model"@.len() == 5);
    assert("operation"@.len() == 9);
    assert("keys"@.len() == 4);
    assert("values"@.len() == 6);
    assert("etag"@.len() == 4);
    assert("auth_fp"@.len() == 7);
    assert("service"@[0] != "auth_fp"@[0]);
    assert("keys"@[0] != "etag"@[0]);
}

/// The write that is previewed, validated and approved holds what the call gave: the system,
/// the service, the entity, the operation, and the keys, values and version whole.
pub proof fn payloads_hold_what_was_given(ctx: CtxV, entity: Seq<char>, operation: Seq<char>)
    ensures
        ctx.payload(entity, operation).get("instance"@) == Some(JsonV::Str(ctx.instance)),
        ctx.payload(entity, operation).get("model"@) == Some(JsonV::Str(entity)),
        ctx.payload(entity, operation).get("operation"@) == Some(JsonV::Str(operation)),
        ctx.payload(entity, operation).get("auth_fp"@) == Some(
            JsonV::Str(credential_mark(ctx.args)),
        ),
        ctx.text("service"@) matches Some(s) ==> ctx.payload(entity, operation).get("service"@)
            == Some(JsonV::Str(s)),
        ctx.text("service"@) is None ==> ctx.payload(entity, operation).get("service"@) == Some(
            JsonV::Null,
        ),
        ctx.get("keys"@) is Some ==> ctx.payload(entity, operation).get("keys"@) == ctx.get(
            "keys"@,
        ),
        ctx.get("values"@) is Some ==> ctx.payload(entity, operation).get("values"@) == ctx.get(
            "values"@,
        ),
        ctx.get("etag"@) is Some ==> ctx.payload(entity, operation).get("etag"@) == ctx.get(
            "etag"@,
        ),
        ctx.get("keys"@) is None ==> ctx.payload(entity, operation).get("keys"@) == Some(JsonV::Null),
        ctx.get("values"@) is None ==> ctx.payload(entity, operation).get("values"@) == Some(
            JsonV::Null,
        ),
        ctx.get("etag"@) is None ==> ctx.payload(entity, operation).get("etag"@) == Some(JsonV::Null),
{
    broadcast use put_is_found;

    lemma_payload_names();
}


/// An approved write that creates sends the values of the approval whole, to the entity set
/// and the service of the approval.
pub proof fn approved_creates_send_their_values(
    h: HandlerV,
    env: Vars,
    ctx: CtxV,
    job: ExecJobV,
    entity: Seq<char>,
    vals: JsonV,
    now: u64,
)
    requires
        job.payload.get("operation"@) == Some(JsonV::Str("create"@)),
        job.payload.get("model"@) == Some(JsonV::Str(entity)),
        job.payload.get("values"@) == Some(vals),
        odata_name(entity),
        entity_open(env, entity),
    ensures
        payload_begun(h, env, ctx, job, now).1 == StepV::Wait(
            DemandV::Call(
                ctx.client,
                CallV::Create {
                    service: job.payload.text_at("service"@),
                    entity_set: entity,
                    body: vals,
                },
            ),
            TaskV::Op { ctx, stage: OpStageV::Exec(job) },
        ),
{
}

proof fn lemma_key_names_hold(m: Members)
    requires
        forall|i: int| 0 <= i < m.len() ==> odata_name((#[trigger] m[i]).0),
    ensures
        bad_key_name(m) is None,
    decreases m.len(),
{
    if m.len() > 0 {
        assert(odata_name(m[0].0));
        assert forall|i: int| 0 <= i < m.drop_first().len() implies odata_name(
            (#[trigger] m.drop_first()[i]).0,
        ) by {
            assert(m.drop_first()[i] == m[i + 1]);
        }
        lemma_key_names_hold(m.drop_first());
    }
}

/// An approved change sends the values of the approval whole, for the entity of its keys and
/// with the version that it names.
pub proof fn approved_changes_send_their_values(
    h: HandlerV,
    env: Vars,
    ctx: CtxV,
    job: ExecJobV,
    service: Option<Seq<char>>,
    md: Result<JsonV, Seq<char>>,
    entity: Seq<char>,
    keys: Members,
    vals: JsonV,
    now: u64,
)
    requires
        job.payload.get("operation"@) == Some(JsonV::Str("update"@)),
        job.payload.get("model"@) == Some(JsonV::Str(entity)),
        job.payload.get("keys"@) == Some(JsonV::Obj(keys)),
        job.payload.get("values"@) == Some(vals),
        keys.len() > 0,
        forall|i: int| 0 <= i < keys.len() ==> odata_name((#[trigger] keys[i]).0),
    ensures
        op_resumed(
            h,
            env,
            ctx,
            OpStageV::Meta { stage: MetaStageV::ExecKey(job), service },
            md,
            now,
        ).1 matches StepV::Wait(DemandV::Call(client, CallV::Update {
            service: s,
            entity_set,
            key_segment,
            body,
            etag,
        }), _) && client == ctx.client && s == job.payload.text_at("service"@) && entity_set
            == entity && body == vals && etag == job.payload.text_at("etag"@) && key_text(
            JsonV::Obj(keys),
            known_types(md, entity),
        ) == Ok::<Seq<char>, Seq<char>>(key_segment),
{
    lemma_key_names_hold(keys);
}

/// An approved end of an entity is sent for the entity of its keys, with the version that it
/// names.
pub proof fn approved_ends_name_their_entity(
    h: HandlerV,
    env: Vars,
    ctx: CtxV,
    job: ExecJobV,
    service: Option<Seq<char>>,
    md: Result<JsonV, Seq<char>>,
    entity: Seq<char>,
    keys: Members,
    now: u64,
)
    requires
        job.payload.get("operation"@) == Some(JsonV::Str("delete"@)),
        job.payload.get("model"@) == Some(JsonV::Str(entity)),
        job.payload.get("keys"@) == Some(JsonV::Obj(keys)),
        keys.len() > 0,
        forall|i: int| 0 <= i < keys.len() ==> odata_name((#[trigger] keys[i]).0),
    ensures
        op_resumed(
            h,
            env,
            ctx,
            OpStageV::Meta { stage: MetaStageV::ExecKey(job), service },
            md,
            now,
        ).1 matches StepV::Wait(DemandV::Call(client, CallV::Delete {
            service: s,
            entity_set,
            key_segment,
            etag,
        }), _) && client == ctx.client && s == job.payload.text_at("service"@) && entity_set
            == entity && etag == job.payload.text_at("etag"@) && key_text(
            JsonV::Obj(keys),
            known_types(md, entity),
        ) == Ok::<Seq<char>, Seq<char>>(key_segment),
{
    lemma_key_names_hold(keys);
    reveal_strlit("update");
    reveal_strlit("delete");
    assert("update"@[0] != "delete"@[0]);
}

/// Changes and ends of entities wait for the metadata of their service, where none is kept, so
/// that their keys can be written.
pub proof fn keyed_writes_use_the_metadata(
    h: HandlerV,
    env: Vars,
    ctx: CtxV,
    job: ExecJobV,
    entity: Seq<char>,
    now: u64,
)
    requires
        job.payload.get("operation"@) == Some(JsonV::Str("update"@)) || job.payload.get(
            "operation"@,
        ) == Some(JsonV::Str("delete"@)),
        job.payload.get("model"@) == Some(JsonV::Str(entity)),
        odata_name(entity),
        entity_open(env, entity),
        fresh(
            h.cache,
            h.cache_secs,
            cache_key(ctx.instance, job.payload.text_at("service"@)),
            now,
        ) is None,
    ensures
        payload_begun(h, env, ctx, job, now).1 == StepV::Wait(
            DemandV::Call(
                ctx.client,
                CallV::Metadata { service: job.payload.text_at("service"@) },
            ),
            TaskV::Op {
                ctx,
                stage: OpStageV::Meta {
                    stage: MetaStageV::ExecKey(job),
                    service: job.payload.text_at("service"@),
                },
            },
        ),
{
    reveal_strlit("update");
    reveal_strlit("delete");
    reveal_strlit("create");
    assert("update"@[0] == 'u' && "delete"@[0] == 'd' && "create"@[0] == 'c');
}

/// What was validated is what is sent: the values that `validate_write` was given are the
/// body of the request that creates, when the approval is used in time.
pub proof fn validated_values_are_sent(
    h: HandlerV,
    env: Vars,
    ctx: CtxV,
    md: JsonV,
    at: u64,
    later: HandlerV,
    call: CtxV,
    now: u64,
    entity: Seq<char>,
    vals: JsonV,
)
    requires
        sorted_keys(h.approvals),
        ctx.entity() == Ok::<Seq<char>, Seq<char>>(entity),
        ctx.operation() == Ok::<Seq<char>, Seq<char>>("create"@),
        ctx.get("values"@) == Some(vals),
        validate_done(h, ctx, md, at).1 matches StepV::Done(Ok(_)),
        !hopeless(meta_of(md, entity), "create"@, ctx.get("keys"@), ctx.get("values"@)),
        later.approvals == validate_done(h, ctx, md, at).0.approvals,
        call.instance == ctx.instance,
        credential_mark(call.args) == credential_mark(ctx.args),
        now < at + h.approval_secs * 1_000_000_000,
        entity_open(env, entity),
    ensures
        execute_checked(
            later,
            env,
            call,
            token_of(ctx.payload(entity, "create"@)),
            ctx.payload(entity, "create"@),
            now,
        ).1 matches StepV::Wait(DemandV::Call(client, CallV::Create { service, entity_set, body }), _)
            && client == call.client && service == ctx.text("service"@) && entity_set == entity
            && body == vals,
{
    let payload = ctx.payload(entity, "create"@);
    validated_writes_can_be_executed(h, env, ctx, md, at, later, call, now, entity, "create"@);
    payloads_hold_what_was_given(ctx, entity, "create"@);
    let h1 = HandlerV {
        approvals: used_up(later.approvals, token_of(payload), payload, now),
        ..later
    };
    approved_creates_send_their_values(
        h1,
        env,
        call,
        ExecJobV { payload, token: token_of(payload), direct: false },
        entity,
        vals,
        now,
    );
}

/// An approval that is passed with `confirm`, where writes are enabled, is looked at with its
/// own token and its own write.
pub proof fn approvals_are_taken_as_given(
    h: HandlerV,
    env: Vars,
    ctx: CtxV,
    token: Seq<char>,
    payload: JsonV,
    approval: JsonV,
    now: u64,
)
    requires
        ctx.op == "execute_approved_write"@,
        flag(env, "SAP_MCP_ENABLE_WRITES"@),
        ctx.text("entity"@) is None,
        ctx.get("approval"@) == Some(approval),
        approval.get("token"@) == Some(JsonV::Str(token)),
        approval.get("payload"@) == Some(payload),
        ctx.get("confirm"@) == Some(JsonV::Bool(true)),
    ensures
        op_opened(h, env, ctx, now) == execute_checked(h, env, ctx, token, payload, now),
{
    lemma_op_names();
}

proof fn lemma_op_names()
    ensures
        "discover"@ != "entity_metadata"@,
        "discover"@ != "read"@,
        "discover"@ != "read_one"@,
        "discover"@ != "preview_write"@,
        "discover"@ != "validate_write"@,
        "discover"@ != "execute_approved_write"@,
        "discover"@ != "create"@,
        "discover"@ != "update"@,
        "discover"@ != "delete"@,
        "entity_metadata"@ != "read"@,
        "entity_metadata"@ != "read_one"@,
        "entity_metadata"@ != "preview_write"@,
        "entity_metadata"@ != "validate_write"@,
        "entity_metadata"@ != "execute_approved_write"@,
        "entity_metadata"@ != "create"@,
        "entity_metadata"@ != "update"@,
        "entity_metadata"@ != "delete"@,
        "read"@ != "read_one"@,
        "read"@ != "preview_write"@,
        "read"@ != "validate_write"@,
        "read"@ != "execute_approved_write"@,
        "read"@ != "create"@,
        "read"@ != "update"@,
        "read"@ != "delete"@,
        "read_one"@ != "preview_write"@,
        "read_one"@ != "validate_write"@,
        "read_one"@ != "execute_approved_write"@,
        "read_one"@ != "create"@,
        "read_one"@ != "update"@,
        "read_one"@ != "delete"@,
        "preview_write"@ != "validate_write"@,
        "preview_write"@ != "execute_approved_write"@,
        "preview_write"@ != "create"@,
        "preview_write"@ != "update"@,
        "preview_write"@ != "delete"@,
        "validate_write"@ != "execute_approved_write"@,
        "validate_write"@ != "create"@,
        "validate_write"@ != "update"@,
        "validate_write"@ != "delete"@,
        "execute_approved_write"@ != "create"@,
        "execute_approved_write"@ != "update"@,
        "execute_approved_write"@ != "delete"@,
        "create"@ != "update"@,
        "create"@ != "delete"@,
        "update"@ != "delete"@,
{
    reveal_strlit("discover");
    reveal_strlit("entity_metadata");
    reveal_strlit("read");
    reveal_strlit("read_one");
    reveal_strlit("preview_write");
    reveal_strlit("validate_write");
    reveal_strlit("execute_approved_write");
    reveal_strlit("create");
    reveal_strlit("update");
    reveal_strlit("delete");
    assert("discover"@.len() == 8);
    assert("entity_metadata"@.len() == 15);
    assert("read"@.len() == 4);
    assert("read_one"@.len() == 8);
    assert("preview_write"@.len() == 13);
    assert("validate_write"@.len() == 14);
    assert("execute_approved_write"@.len() == 22);
    assert("create"@.len() == 6);
    assert("update"@.len() == 6);
    assert("delete"@.len() == 6);
    assert("discover"@[0] != "read_one"@[0]);
    assert("create"@[0] != "update"@[0]);
    assert("create"@[0] != "delete"@[0]);
    assert("update"@[0] != "delete"@[0]);
}

/// The tools that write at once carry out the write of the approval that they are given,
/// where it is for the entity, the operation, the system and the credentials of the call.
pub proof fn direct_writes_carry_out_their_approval(
    h: HandlerV,
    env: Vars,
    ctx: CtxV,
    entity: Seq<char>,
    token: Seq<char>,
    payload: JsonV,
    approval: JsonV,
    now: u64,
)
    requires
        ctx.op == "create"@ || ctx.op == "update"@ || ctx.op == "delete"@,
        flag(env, "SAP_MCP_ENABLE_WRITES"@),
        ctx.entity() == Ok::<Seq<char>, Seq<char>>(entity),
        entity_open(env, entity),
        ctx.get("approval"@) == Some(approval),
        approval.get("token"@) == Some(JsonV::Str(token)),
        approval.get("payload"@) == Some(payload),
        ctx.get("confirm"@) == Some(JsonV::Bool(true)),
        approved(h.approvals, token, payload, now),
        payload.get("instance"@) == Some(JsonV::Str(ctx.instance)),
        payload.get("auth_fp"@) == Some(JsonV::Str(credential_mark(ctx.args))),
        payload.get("model"@) == Some(JsonV::Str(entity)),
        payload.get("operation"@) == Some(JsonV::Str(ctx.op)),
    ensures
        op_opened(h, env, ctx, now) == payload_begun(
            HandlerV { approvals: used_up(h.approvals, token, payload, now), ..h },
            env,
            ctx,
            ExecJobV { payload, token, direct: true },
            now,
        ),
{
    lemma_op_names();
}

/// A write that was carried out is answered with what the system answered, and leaves a line
/// in the audit log.
pub proof fn results_of_writes_are_handed_on(
    h: HandlerV,
    env: Vars,
    ctx: CtxV,
    job: ExecJobV,
    result: JsonV,
    now: u64,
)
    ensures
        op_resumed(h, env, ctx, OpStageV::Exec(job), Ok(result), now).1 matches StepV::Done(Ok(v))
            && v.get("success"@) == Some(JsonV::Bool(true)) && v.get("result"@) == Some(result),
        op_resumed(h, env, ctx, OpStageV::Exec(job), Ok(result), now).0.notes.len()
            == h.notes.len() + 1,
        op_resumed(h, env, ctx, OpStageV::Exec(job), Ok(result), now).0.notes.last() matches NoteV::Audit(
            a,
        ) && a.event == "execute"@ && a.ok && a.token == job.token && a.instance == ctx.instance
            && a.actor == ctx.tenant.label() && (job.payload.text_at("model"@) matches Some(m)
            ==> a.model == m) && (job.payload.text_at("operation"@) matches Some(o)
            ==> a.operation == o),
{
    broadcast use put_is_found;

    reveal_strlit("success");
    reveal_strlit("result");
    assert("success"@.len() != "result"@.len());
}

/// A write that the system refused is answered with the error, and nothing else.
pub proof fn failures_of_writes_are_handed_on(
    h: HandlerV,
    env: Vars,
    ctx: CtxV,
    job: ExecJobV,
    error: Seq<char>,
    now: u64,
)
    ensures
        op_resumed(h, env, ctx, OpStageV::Exec(job), Err(error), now) == (
            h,
            StepV::Done(Err(error)),
        ),
{
}

proof fn lemma_answer_names()
    ensures
        "approval"@ != "approval_status"@,
        "approval"@ != "issues"@,
        "approval"@ != "metadata_source"@,
        "approval"@ != "token"@,
        "approval"@ != "payload"@,
        "approval"@ != "stored"@,
        "approval"@ != "expires_in_seconds"@,
        "approval"@ != "preview"@,
        "approval"@ != "next"@,
        "approval"@ != "field"@,
        "approval"@ != "issue"@,
        "approval_status"@ != "issues"@,
        "approval_status"@ != "metadata_source"@,
        "approval_status"@ != "token"@,
        "approval_status"@ != "payload"@,
        "approval_status"@ != "stored"@,
        "approval_status"@ != "expires_in_seconds"@,
        "approval_status"@ != "preview"@,
        "approval_status"@ != "next"@,
        "approval_status"@ != "field"@,
        "approval_status"@ != "issue"@,
        "issues"@ != "metadata_source"@,
        "issues"@ != "token"@,
        "issues"@ != "payload"@,
        "issues"@ != "stored"@,
        "issues"@ != "expires_in_seconds"@,
        "issues"@ != "preview"@,
        "issues"@ != "next"@,
        "issues"@ != "field"@,
        "issues"@ != "issue"@,
        "metadata_source"@ != "token"@,
        "metadata_source"@ != "payload"@,
        "metadata_source"@ != "stored"@,
        "metadata_source"@ != "expires_in_seconds"@,
        "metadata_source"@ != "preview"@,
        "metadata_source"@ != "next"@,
        "metadata_source"@ != "field"@,
        "metadata_source"@ != "issue"@,
        "token"@ != "payload"@,
        "token"@ != "stored"@,
        "token"@ != "expires_in_seconds"@,
        "token"@ != "preview"@,
        "token"@ != "next"@,
        "token"@ != "field"@,
        "token"@ != "issue"@,
        "payload"@ != "stored"@,
        "payload"@ != "expires_in_seconds"@,
        "payload"@ != "preview"@,
        "payload"@ != "next"@,
        "payload"@ != "field"@,
        "payload"@ != "issue"@,
        "stored"@ != "expires_in_seconds"@,
        "stored"@ != "preview"@,
        "stored"@ != "next"@,
        "stored"@ != "field"@,
        "stored"@ != "issue"@,
        "expires_in_seconds"@ != "preview"@,
        "expires_in_seconds"@ != "next"@,
        "expires_in_seconds"@ != "field"@,
        "expires_in_seconds"@ != "issue"@,
        "preview"@ != "next"@,
        "preview"@ != "field"@,
        "preview"@ != "issue"@,
        "next"@ != "field"@,
        "next"@ != "issue"@,
        "field"@ != "issue"@,
{
    reveal_strlit("approval");
    reveal_strlit("approval_status");
    reveal_strlit("issues");
    reveal_strlit("metadata_source");
    reveal_strlit("token");
    reveal_strlit("payload");
    reveal_strlit("stored");
    reveal_strlit("expires_in_seconds");
    reveal_strlit("preview");
    reveal_strlit("next");
    reveal_strlit("field");
    reveal_strlit("issue");
    assert("approval"@.len() == 8);
    assert("approval_status"@.len() == 15);
    assert("issues"@.len() == 6);
    assert("metadata_source"@.len() == 15);
    assert("token"@.len() == 5);
    assert("payload"@.len() == 7);
    assert("stored"@.len() == 6);
    assert("expires_in_seconds"@.len() == 18);
    assert("preview"@.len() == 7);
    assert("next"@.len() == 4);
    assert("field"@.len() == 5);
    assert("issue"@.len() == 5);
    assert("approval_status"@[0] != "metadata_source"@[0]);
    assert("issues"@[0] != "stored"@[0]);
    assert("token"@[0] != "field"@[0]);
    assert("token"@[0] != "issue"@[0]);
    assert("payload"@[1] != "preview"@[1]);
    assert("field"@[0] != "issue"@[0]);
}

/// A preview shows the write as it would be approved, with its token.
pub proof fn previews_show_the_write(h: HandlerV, env: Vars, ctx: CtxV, entity: Seq<char>, operation: Seq<char>, now: u64)
    requires
        ctx.op == "preview_write"@,
        ctx.entity() == Ok::<Seq<char>, Seq<char>>(entity),
        ctx.operation() == Ok::<Seq<char>, Seq<char>>(operation),
        entity_open(env, entity),
    ensures
        op_opened(h, env, ctx, now).1 matches StepV::Done(Ok(v)) && v.get("preview"@) == Some(
            ctx.payload(entity, operation),
        ) && (v.get("approval"@) matches Some(a) && a.get("payload"@) == Some(
            ctx.payload(entity, operation),
        ) && a.get("token"@) == Some(JsonV::Str(token_of(ctx.payload(entity, operation))))),
        op_opened(h, env, ctx, now).0.approvals == h.approvals,
{
    broadcast use put_is_found;

    lemma_op_names();
    lemma_answer_names();
}

/// Whether a value is given for a field.
pub open spec fn gives_field(vals: Option<JsonV>, field: Seq<char>) -> bool {
    vals matches Some(JsonV::Obj(m)) && exists|i: int| 0 <= i < m.len() && (#[trigger] m[i]).0
        == field
}

/// Whether the metadata of an entity names a property.
pub open spec fn names_property(meta: JsonV, field: Seq<char>) -> bool {
    meta.get("properties"@) matches Some(JsonV::Arr(a)) && exists|i: int|
        0 <= i < a.len() && (#[trigger] a[i]).get("name"@) == Some(JsonV::Str(field))
}

/// Whether keys are given for an entity.
pub open spec fn gives_keys(keys: Option<JsonV>) -> bool {
    keys matches Some(JsonV::Obj(m)) && m.len() > 0
}

/// Whether issues report a thing.
pub open spec fn reports(issues: Seq<JsonV>, what: Seq<char>) -> bool {
    exists|i: int| 0 <= i < issues.len() && (#[trigger] issues[i]).get("issue"@) == Some(
        JsonV::Str(what),
    )
}

/// Whether issues report a field as unknown.
pub open spec fn reports_field(issues: Seq<JsonV>, field: Seq<char>) -> bool {
    exists|i: int|
        0 <= i < issues.len() && (#[trigger] issues[i]).get("field"@) == Some(JsonV::Str(field))
            && issues[i].get("issue"@) == Some(JsonV::Str("unknown_property"@))
}

proof fn lemma_property_names(a: Seq<JsonV>, n: Seq<char>)
    ensures
        property_names(a).contains(n) <==> exists|i: int|
            0 <= i < a.len() && (#[trigger] a[i]).get("name"@) == Some(JsonV::Str(n)),
    decreases a.len(),
{
    if a.len() > 0 {
        let b = a.drop_last();
        lemma_property_names(b, n);
        let head = property_names(b);
        if let Some(x) = a.last().text_at("name"@) {
            let p = head.push(x);
            if p.contains(n) {
                let j = choose|j: int| 0 <= j < p.len() && p[j] == n;
                if j < head.len() {
                    assert(head[j] == n);
                    let i = choose|i: int|
                        0 <= i < b.len() && (#[trigger] b[i]).get("name"@) == Some(JsonV::Str(n));
                    assert(a[i] == b[i]);
                } else {
                    assert(a[a.len() - 1].get("name"@) == Some(JsonV::Str(n)));
                }
            }
        }
        if property_names(a).contains(n) && !(a.last().text_at("name"@) is Some) {
            let i = choose|i: int|
                0 <= i < b.len() && (#[trigger] b[i]).get("name"@) == Some(JsonV::Str(n));
            assert(a[i] == b[i]);
        }
        if exists|i: int| 0 <= i < a.len() && (#[trigger] a[i]).get("name"@) == Some(JsonV::Str(n)) {
            let i = choose|i: int|
                0 <= i < a.len() && (#[trigger] a[i]).get("name"@) == Some(JsonV::Str(n));
            if i < b.len() {
                assert(b[i] == a[i]);
                assert(head.contains(n));
                let j = choose|j: int| 0 <= j < head.len() && head[j] == n;
                assert(property_names(a)[j] == n);
            } else {
                assert(property_names(a)[head.len() as int] == n);
            }
        }
    }
}

proof fn lemma_unknown(m: Members, known: Seq<Seq<char>>)
    ensures
        forall|k: Seq<char>|
            #[trigger] reports_field(unknown_properties(m, known), k) <==> !known.contains(k) && exists|
                i: int,
            | 0 <= i < m.len() && (#[trigger] m[i]).0 == k,
        forall|j: int|
            0 <= j < unknown_properties(m, known).len() ==> (#[trigger] unknown_properties(
                m,
                known,
            )[j]).get("issue"@) == Some(JsonV::Str("unknown_property"@)) && unknown_properties(
                m,
                known,
            )[j].get("field"@) is Some,
        unknown_properties(m, known).len() > 0 <==> exists|i: int|
            0 <= i < m.len() && !known.contains((#[trigger] m[i]).0),
    decreases m.len(),
{
    broadcast use put_is_found;

    lemma_answer_names();
    if m.len() > 0 {
        let b = m.drop_last();
        let head = unknown_properties(b, known);
        let all = unknown_properties(m, known);
        let last = m.last().0;
        lemma_unknown(b, known);
        assert forall|k: Seq<char>|
            #[trigger] reports_field(all, k) <==> !known.contains(k) && exists|i: int|
                0 <= i < m.len() && (#[trigger] m[i]).0 == k by {
            let inside = exists|i: int| 0 <= i < m.len() && (#[trigger] m[i]).0 == k;
            if reports_field(all, k) {
                let j = choose|j: int|
                    0 <= j < all.len() && (#[trigger] all[j]).get("field"@) == Some(JsonV::Str(k))
                        && all[j].get("issue"@) == Some(JsonV::Str("unknown_property"@));
                if j < head.len() {
                    assert(head[j] == all[j]);
                    assert(reports_field(head, k));
                    let i = choose|i: int| 0 <= i < b.len() && (#[trigger] b[i]).0 == k;
                    assert(m[i] == b[i]);
                } else {
                    assert(m[m.len() - 1].0 == k);
                }
            }
            if !known.contains(k) && inside {
                let i = choose|i: int| 0 <= i < m.len() && (#[trigger] m[i]).0 == k;
                if i < b.len() {
                    assert(b[i] == m[i]);
                    assert(reports_field(head, k));
                    let j = choose|j: int|
                        0 <= j < head.len() && (#[trigger] head[j]).get("field"@) == Some(
                            JsonV::Str(k),
                        ) && head[j].get("issue"@) == Some(JsonV::Str("unknown_property"@));
                    assert(all[j] == head[j]);
                } else {
                    assert(all[head.len() as int].get("field"@) == Some(JsonV::Str(k)));
                }
            }
        }
        assert forall|j: int| 0 <= j < all.len() implies (#[trigger] all[j]).get("issue"@) == Some(
            JsonV::Str("unknown_property"@),
        ) && all[j].get("field"@) is Some by {
            if j < head.len() {
                assert(all[j] == head[j]);
            }
        }
        if exists|i: int| 0 <= i < m.len() && !known.contains((#[trigger] m[i]).0) {
            let i = choose|i: int| 0 <= i < m.len() && !known.contains((#[trigger] m[i]).0);
            if i < b.len() {
                assert(b[i] == m[i]);
            }
        }
        if all.len() > 0 {
            if head.len() > 0 {
                let i = choose|i: int| 0 <= i < b.len() && !known.contains((#[trigger] b[i]).0);
                assert(m[i] == b[i]);
            } else {
                assert(m[m.len() - 1].0 == last);
            }
        }
    }
}

/// A value is for an unknown property if and only if no property in the metadata has its
/// name; where every value is for a property, and keys are given where they are needed, the
/// write can be approved, and only there.
pub proof fn values_are_held_against_the_properties(
    meta: JsonV,
    operation: Seq<char>,
    keys: Option<JsonV>,
    vals: Option<JsonV>,
    field: Seq<char>,
)
    ensures
        reports_field(value_issues(meta, vals), field) <==> gives_field(vals, field)
            && !names_property(meta, field),
        hopeless(meta, operation, keys, vals) <==> (exists|k: Seq<char>|
            gives_field(vals, k) && !#[trigger] names_property(meta, k)) || (operation != "create"@
            && !gives_keys(keys)),
{
    if let Some(JsonV::Obj(m)) = vals {
        let a = crate::entity::array_at(meta, "properties"@);
        let known = property_names(a);
        lemma_unknown(m, known);
        lemma_property_names(a, field);
        assert(known.contains(field) <==> names_property(meta, field));
        if value_issues(meta, vals).len() > 0 {
            let i = choose|i: int| 0 <= i < m.len() && !known.contains((#[trigger] m[i]).0);
            lemma_property_names(a, m[i].0);
            assert(gives_field(vals, m[i].0) && !names_property(meta, m[i].0));
        }
        if exists|k: Seq<char>| gives_field(vals, k) && !#[trigger] names_property(meta, k) {
            let k = choose|k: Seq<char>| gives_field(vals, k) && !#[trigger] names_property(meta, k);
            lemma_property_names(a, k);
            let i = choose|i: int| 0 <= i < m.len() && (#[trigger] m[i]).0 == k;
            assert(!known.contains(m[i].0));
        }
    }
}

proof fn lemma_issue_names()
    ensures
        "unknown_property"@ != "keys_required_for_update_delete"@,
        "unknown_property"@ != "entity_not_creatable_per_metadata"@,
        "unknown_property"@ != "entity_not_updatable_per_metadata"@,
        "unknown_property"@ != "entity_not_deletable_per_metadata"@,
        "keys_required_for_update_delete"@ != "entity_not_creatable_per_metadata"@,
        "keys_required_for_update_delete"@ != "entity_not_updatable_per_metadata"@,
        "keys_required_for_update_delete"@ != "entity_not_deletable_per_metadata"@,
        "entity_not_creatable_per_metadata"@ != "entity_not_updatable_per_metadata"@,
        "entity_not_creatable_per_metadata"@ != "entity_not_deletable_per_metadata"@,
        "entity_not_updatable_per_metadata"@ != "entity_not_deletable_per_metadata"@,
{
    reveal_strlit("unknown_property");
    reveal_strlit("keys_required_for_update_delete");
    reveal_strlit("entity_not_creatable_per_metadata");
    reveal_strlit("entity_not_updatable_per_metadata");
    reveal_strlit("entity_not_deletable_per_metadata");
    assert("unknown_property"@.len() == 16);
    assert("keys_required_for_update_delete"@.len() == 31);
    assert("entity_not_creatable_per_metadata"@.len() == 33);
    assert("entity_not_updatable_per_metadata"@.len() == 33);
    assert("entity_not_deletable_per_metadata"@.len() == 33);
    assert("entity_not_creatable_per_metadata"@[11] != "entity_not_updatable_per_metadata"@[11]);
    assert("entity_not_creatable_per_metadata"@[11] != "entity_not_deletable_per_metadata"@[11]);
    assert("entity_not_updatable_per_metadata"@[11] != "entity_not_deletable_per_metadata"@[11]);
}

proof fn lemma_capability_texts()
    ensures
        "entity_not_"@ + "creatable"@ + "_per_metadata"@ == "entity_not_creatable_per_metadata"@,
        "entity_not_"@ + "updatable"@ + "_per_metadata"@ == "entity_not_updatable_per_metadata"@,
        "entity_not_"@ + "deletable"@ + "_per_metadata"@ == "entity_not_deletable_per_metadata"@,
{
    reveal_strlit("entity_not_");
    reveal_strlit("_per_metadata");
    reveal_strlit("creatable");
    reveal_strlit("updatable");
    reveal_strlit("deletable");
    reveal_strlit("entity_not_creatable_per_metadata");
    reveal_strlit("entity_not_updatable_per_metadata");
    reveal_strlit("entity_not_deletable_per_metadata");
    assert("entity_not_"@ + "creatable"@ + "_per_metadata"@
        =~= "entity_not_creatable_per_metadata"@);
    assert("entity_not_"@ + "updatable"@ + "_per_metadata"@
        =~= "entity_not_updatable_per_metadata"@);
    assert("entity_not_"@ + "deletable"@ + "_per_metadata"@
        =~= "entity_not_deletable_per_metadata"@);
}

/// Whether the first entity set with a name denies a capability.
pub open spec fn denies(md: JsonV, entity: Seq<char>, capability: Seq<char>) -> bool {
    md.get("entity_sets"@) matches Some(JsonV::Arr(sets)) && exists|i: int|
        0 <= i < sets.len() && (#[trigger] sets[i]).get("name"@) == Some(JsonV::Str(entity))
            && sets[i].get(capability) == Some(JsonV::Bool(false)) && forall|j: int|
            0 <= j < i ==> (#[trigger] sets[j]).get("name"@) != Some(JsonV::Str(entity))
}

proof fn lemma_set_named(sets: Seq<JsonV>, name: Seq<char>)
    ensures
        (match set_named(sets, name) {
            Some(s) => exists|i: int|
                0 <= i < sets.len() && #[trigger] sets[i] == s && s.get("name"@) == Some(
                    JsonV::Str(name),
                ) && forall|j: int|
                    0 <= j < i ==> (#[trigger] sets[j]).get("name"@) != Some(JsonV::Str(name)),
            None => forall|j: int|
                0 <= j < sets.len() ==> (#[trigger] sets[j]).get("name"@) != Some(JsonV::Str(name)),
        }),
    decreases sets.len(),
{
    if sets.len() > 0 {
        let rest = sets.drop_first();
        lemma_set_named(rest, name);
        if sets[0].text_at("name"@) == Some(name) {
            assert(sets[0] == set_named(sets, name)->0);
        } else {
            match set_named(sets, name) {
                Some(s) => {
                    let i = choose|i: int|
                        0 <= i < rest.len() && #[trigger] rest[i] == s && s.get("name"@) == Some(
                            JsonV::Str(name),
                        ) && forall|j: int|
                            0 <= j < i ==> (#[trigger] rest[j]).get("name"@) != Some(
                                JsonV::Str(name),
                            );
                    assert(sets[i + 1] == s);
                    assert forall|j: int| 0 <= j < i + 1 implies (#[trigger] sets[j]).get("name"@)
                        != Some(JsonV::Str(name)) by {
                        if j > 0 {
                            assert(rest[j - 1] == sets[j]);
                        }
                    }
                },
                None => {
                    assert forall|j: int| 0 <= j < sets.len() implies (#[trigger] sets[j]).get(
                        "name"@,
                    ) != Some(JsonV::Str(name)) by {
                        if j > 0 {
                            assert(rest[j - 1] == sets[j]);
                        }
                    }
                },
            }
        }
    }
}

proof fn lemma_incapable(md: JsonV, entity: Seq<char>, operation: Seq<char>)
    ensures
        incapable(md, entity, operation) <==> denies(md, entity, capability(operation)),
{
    let sets = crate::entity::array_at(md, "entity_sets"@);
    lemma_set_named(sets, entity);
    let c = capability(operation);
    if let Some(s) = set_named(sets, entity) {
        let k = choose|i: int|
            0 <= i < sets.len() && #[trigger] sets[i] == s && s.get("name"@) == Some(
                JsonV::Str(entity),
            ) && forall|j: int|
                0 <= j < i ==> (#[trigger] sets[j]).get("name"@) != Some(JsonV::Str(entity));
        if denies(md, entity, c) {
            let i = choose|i: int|
                0 <= i < sets.len() && (#[trigger] sets[i]).get("name"@) == Some(
                    JsonV::Str(entity),
                ) && sets[i].get(c) == Some(JsonV::Bool(false)) && forall|j: int|
                    0 <= j < i ==> (#[trigger] sets[j]).get("name"@) != Some(JsonV::Str(entity));
            assert(!(k < i) && !(i < k));
        }
    }
}

/// What is found wrong with a write: a value for a property that the metadata does not name,
/// keys that are missing, and what the entity set denies that it can do.
pub proof fn issues_are_what_is_wrong(
    md: JsonV,
    meta: JsonV,
    entity: Seq<char>,
    operation: Seq<char>,
    keys: Option<JsonV>,
    vals: Option<JsonV>,
    field: Seq<char>,
)
    requires
        operation == "create"@ || operation == "update"@ || operation == "delete"@,
    ensures
        ({
            let issues = write_issues(md, meta, entity, operation, keys, vals);
            &&& reports_field(issues, field) <==> gives_field(vals, field) && !names_property(
                meta,
                field,
            )
            &&& reports(issues, "unknown_property"@) <==> exists|k: Seq<char>|
                gives_field(vals, k) && !#[trigger] names_property(meta, k)
            &&& reports(issues, "keys_required_for_update_delete"@) <==> operation != "create"@
                && !gives_keys(keys)
            &&& reports(issues, "entity_not_creatable_per_metadata"@) <==> operation == "create"@
                && denies(md, entity, "creatable"@)
            &&& reports(issues, "entity_not_updatable_per_metadata"@) <==> operation == "update"@
                && denies(md, entity, "updatable"@)
            &&& reports(issues, "entity_not_deletable_per_metadata"@) <==> operation == "delete"@
                && denies(md, entity, "deletable"@)
        }),
{
    broadcast use put_is_found;

    lemma_answer_names();
    lemma_issue_names();
    lemma_capability_texts();
    lemma_op_names();
    lemma_incapable(md, entity, operation);
    values_are_held_against_the_properties(meta, operation, keys, vals, field);
    let a = value_issues(meta, vals);
    let issues = write_issues(md, meta, entity, operation, keys, vals);
    if let Some(JsonV::Obj(m)) = vals {
        lemma_unknown(m, property_names(crate::entity::array_at(meta, "properties"@)));
    }
    let n = a.len() as int;
    assert(issues.take(n) =~= a);
    assert forall|j: int| 0 <= j < n implies #[trigger] issues[j] == a[j] by {}
    if reports_field(a, field) {
        let j = choose|j: int|
            0 <= j < a.len() && (#[trigger] a[j]).get("field"@) == Some(JsonV::Str(field))
                && a[j].get("issue"@) == Some(JsonV::Str("unknown_property"@));
        assert(issues[j] == a[j]);
    }
    if reports_field(issues, field) {
        let j = choose|j: int|
            0 <= j < issues.len() && (#[trigger] issues[j]).get("field"@) == Some(
                JsonV::Str(field),
            ) && issues[j].get("issue"@) == Some(JsonV::Str("unknown_property"@));
        if j < n {
            assert(a[j] == issues[j]);
        } else {
            assert(issues[j].get("field"@) is None);
        }
    }
    if a.len() > 0 {
        assert(issues[0] == a[0]);
    }
    let late = operation != "create"@ && !gives_keys(keys);
    if late {
        assert(issues[n].get("issue"@) == Some(JsonV::Str("keys_required_for_update_delete"@)));
    }
    if incapable(md, entity, operation) {
        let k = if late {
            n + 1
        } else {
            n
        };
        assert(issues[k].get("issue"@) == Some(
            JsonV::Str("entity_not_"@ + capability(operation) + "_per_metadata"@),
        ));
    }
    assert forall|j: int| n <= j < issues.len() implies (late && j == n && #[trigger] issues[j]
        == issue("keys_required_for_update_delete"@)) || (incapable(md, entity, operation)
        && issues[j] == issue("entity_not_"@ + capability(operation) + "_per_metadata"@)) by {}
    let cap = "entity_not_"@ + capability(operation) + "_per_metadata"@;
    assert forall|what: Seq<char>| #[trigger] reports(issues, what) implies (what
        == "unknown_property"@ && a.len() > 0) || (late && what
        == "keys_required_for_update_delete"@) || (incapable(md, entity, operation) && what == cap) by {
        let j = choose|j: int|
            0 <= j < issues.len() && (#[trigger] issues[j]).get("issue"@) == Some(
                JsonV::Str(what),
            );
        if j < n {
            assert(a[j] == issues[j]);
        }
    }
    assert(reports(issues, "unknown_property"@) <==> a.len() > 0);
    assert(a.len() > 0 <==> exists|k: Seq<char>|
        gives_field(vals, k) && !#[trigger] names_property(meta, k)) by {
        values_are_held_against_the_properties(meta, "create"@, keys, vals, field);
    }
    assert(reports(issues, "keys_required_for_update_delete"@) <==> late);
    assert(incapable(md, entity, operation) ==> reports(issues, cap));
}

/// What `validate_write` answers, given the metadata of the entity: the write with its token,
/// what is wrong with it, and whether it is approved. It is approved if and only if every value
/// is for a property and keys are given where they are needed; then the approval is kept under
/// its token until its time is over.
pub proof fn validation_answers_what_was_found(
    h: HandlerV,
    ctx: CtxV,
    md: JsonV,
    entity: Seq<char>,
    operation: Seq<char>,
    now: u64,
)
    requires
        ctx.entity() == Ok::<Seq<char>, Seq<char>>(entity),
        ctx.operation() == Ok::<Seq<char>, Seq<char>>(operation),
        meta_of(md, entity) != JsonV::Null,
        ctx.get("values"@) is None || ctx.get("values"@)->0 is Obj,
    ensures
        ({
            let meta = meta_of(md, entity);
            let payload = ctx.payload(entity, operation);
            let good = !(exists|k: Seq<char>|
                gives_field(ctx.get("values"@), k) && !#[trigger] names_property(meta, k)) && (
            operation == "create"@ || gives_keys(ctx.get("keys"@)));
            let r = validate_done(h, ctx, md, now);
            &&& r.1 matches StepV::Done(Ok(v)) && v.get("issues"@) == Some(
                JsonV::Arr(
                    write_issues(
                        md,
                        meta,
                        entity,
                        operation,
                        ctx.get("keys"@),
                        ctx.get("values"@),
                    ),
                ),
            ) && (v.get("approval"@) matches Some(a) && a.get("payload"@) == Some(payload)
                && a.get("token"@) == Some(JsonV::Str(token_of(payload)))) && (v.get(
                "approval_status"@,
            ) matches Some(s) && s.get("stored"@) == Some(JsonV::Bool(good)) && s.get(
                "expires_in_seconds"@,
            ) == Some(JsonV::Num(NumV::Pos(600)))) && v.get("metadata_source"@) == Some(
                JsonV::Str("server"@),
            )
            &&& good ==> find(r.0.approvals, token_of(payload)) == Some(
                (payload, now + h.approval_secs * 1_000_000_000),
            )
            &&& !good ==> r.0.approvals == h.approvals
            &&& r.0.notes.len() == h.notes.len() + 1
            &&& r.0.notes.last() matches NoteV::Audit(e) && e.event == "validate"@ && e.ok == good
                && e.model == entity && e.operation == operation && e.instance == ctx.instance
                && e.actor == ctx.tenant.label() && e.token == token_of(payload)
        }),
{
    broadcast use put_is_found;

    lemma_answer_names();
    values_are_held_against_the_properties(
        meta_of(md, entity),
        operation,
        ctx.get("keys"@),
        ctx.get("values"@),
        ""@,
    );
}

/// A write on an entity that the metadata does not have is refused, and so are values that
/// are no object where they are needed.
pub proof fn unknown_entities_are_not_validated(
    h: HandlerV,
    ctx: CtxV,
    md: JsonV,
    entity: Seq<char>,
    operation: Seq<char>,
    now: u64,
)
    requires
        ctx.entity() == Ok::<Seq<char>, Seq<char>>(entity),
        ctx.operation() == Ok::<Seq<char>, Seq<char>>(operation),
        meta_of(md, entity) == JsonV::Null || (operation != "delete"@ && ctx.get("values"@) is Some
            && !(ctx.get("values"@)->0 is Obj)),
    ensures
        validate_done(h, ctx, md, now).0 == h,
        validate_done(h, ctx, md, now).1 matches StepV::Done(Err(_)),
        meta_of(md, entity) == JsonV::Null ==> validate_done(h, ctx, md, now).1 == StepV::Done(
            Err("unknown entity '"@ + entity + "'"@),
        ),
{
}

} // verus!
