//! What holds of the server as a whole: whose systems a request reaches, which entities
//! it touches, and what has to come before a write.

use vstd::prelude::*;
use vstd::string::*;
use crate::cache::{cached_value_comes_back, fresh};
use crate::config::{entity_open, flag, Vars};
use crate::entity::{answers_hold_nothing_hidden, credential_mark, text_member};
use crate::field_acl::{denied, redacted, redacted_all};
use crate::gated::{approval_holds_until_it_ends, approval_is_single_use, approved, token_of, used_up};
use crate::handler::{approved_mark, direct_begun, execute_begun, execute_checked, handled, cache_key, metadata_came, metadata_wanted, with_metadata, op_begun, op_opened, op_resumed, payload_begun, payload_values, rate_checked, request_id, response, resumed, tool_called, validate_done, DemandV, ExecJobV, HandlerV, MetaStageV, NoteV, OpStageV, PendingV, StepV, TaskV, TurnV};
use crate::json::{no_members, JsonV, Members, NumV};
use crate::odata::{normalized, normalized_answers_count_their_records, records_of, single_entities_are_unwrapped};
use crate::ops::{brings_credentials, hopeless, input_text, may_override, CtxV, RefV};
use crate::registry::offered_tool;
use crate::sap_client::CallV;
use crate::strmap::{find, lemma_put_find, put, sorted_keys};
use crate::tenant::{home_may_be_used, older, TenantV};

verus! {

/// The caller for whom something is under way. Resources are read for whoever may use the
/// system.
pub open spec fn task_of(t: TenantV, task: TaskV) -> bool {
    match task {
        TaskV::Op { ctx, .. } => {
            &&& ctx.tenant == t
            &&& t.may_use(ctx.instance)
            &&& ctx.client == RefV::Pooled(ctx.instance) || (ctx.client is Override && t is Full)
        },
        TaskV::Resource { instance, .. } => t.may_use(instance),
    }
}

/// The client that a demand is for.
pub open spec fn client_of(d: DemandV) -> RefV {
    match d {
        DemandV::OpenClient(c) => c,
        DemandV::Call(c, _) => c,
    }
}

/// Whether a client is that of a system that a caller may use, or, for a caller who may
/// use everything, one with the caller's own credentials.
pub open spec fn client_allowed(t: TenantV, c: RefV) -> bool {
    match c {
        RefV::Pooled(name) => t.may_use(name),
        RefV::Override(_) => t is Full,
    }
}

/// A request never reaches a system that its caller may not use.
pub proof fn requests_stay_with_their_tenant(
    h: HandlerV,
    env: Vars,
    req: JsonV,
    t: TenantV,
    now: u64,
)
    ensures
        handled(h, env, req, t, now).1 matches TurnV::Wait(d, p) ==> task_of(t, p.task)
            && client_allowed(t, client_of(d)),
{
    home_may_be_used(t, h.pool.default);
}

/// Whether a step goes on with the same operation, through its client.
pub open spec fn same_op(ctx: CtxV, s: StepV) -> bool {
    s matches StepV::Wait(d, task) ==> (task matches TaskV::Op { ctx: c, .. } && c == ctx
        && client_of(d) == ctx.client)
}

proof fn lemma_metadata_same_op(
    h: HandlerV,
    env: Vars,
    ctx: CtxV,
    service: Option<Seq<char>>,
    stage: MetaStageV,
    md: Result<JsonV, Seq<char>>,
    now: u64,
)
    ensures
        same_op(ctx, metadata_came(h, env, ctx, stage, md, now).1),
        same_op(ctx, metadata_wanted(h, env, ctx, service, stage, now).1),
{
    match stage {
        MetaStageV::Validate => {
            assert(validate_done(h, ctx, md->Ok_0, now).1 is Done);
            if let Some(m) = fresh(h.cache, h.cache_secs, cache_key(ctx.instance, service), now) {
                assert(validate_done(h, ctx, m, now).1 is Done);
            }
        },
        _ => {},
    }
}

proof fn lemma_payload_same_op(h: HandlerV, env: Vars, ctx: CtxV, job: ExecJobV, now: u64)
    ensures
        same_op(ctx, payload_begun(h, env, ctx, job, now).1),
{
    lemma_metadata_same_op(
        h,
        env,
        ctx,
        job.payload.text_at("service"@),
        MetaStageV::ExecKey(job),
        Err(""@),
        now,
    );
}

proof fn lemma_execute_same_op(h: HandlerV, env: Vars, ctx: CtxV, now: u64)
    ensures
        same_op(ctx, execute_begun(h, env, ctx, now).1),
        same_op(ctx, direct_begun(h, env, ctx, now).1),
{
    assert forall|h1: HandlerV, job: ExecJobV| same_op(
        ctx,
        #[trigger] payload_begun(h1, env, ctx, job, now).1,
    ) by {
        lemma_payload_same_op(h1, env, ctx, job, now);
    }
}

proof fn lemma_opened_same_op(h: HandlerV, env: Vars, ctx: CtxV, now: u64)
    ensures
        same_op(ctx, op_opened(h, env, ctx, now).1),
{
    lemma_execute_same_op(h, env, ctx, now);
    let service = ctx.text("service"@);
    lemma_metadata_same_op(h, env, ctx, service, MetaStageV::Discover, Err(""@), now);
    lemma_metadata_same_op(h, env, ctx, service, MetaStageV::EntityMetadata, Err(""@), now);
    lemma_metadata_same_op(h, env, ctx, service, MetaStageV::ReadOneKey, Err(""@), now);
    lemma_metadata_same_op(h, env, ctx, service, MetaStageV::Validate, Err(""@), now);
}

/// Nor does it when it goes on.
pub proof fn resumed_requests_stay_with_their_tenant(
    h: HandlerV,
    env: Vars,
    p: PendingV,
    answer: Result<JsonV, Seq<char>>,
    t: TenantV,
    now: u64,
)
    requires
        task_of(t, p.task),
    ensures
        resumed(h, env, p, answer, now).1 matches TurnV::Wait(d, p2) ==> task_of(t, p2.task)
            && client_allowed(t, client_of(d)),
{
    if let TaskV::Op { ctx, stage } = p.task {
        lemma_opened_same_op(h, env, ctx, now);
        if let OpStageV::Meta { stage, service } = stage {
            let h1 = with_metadata(h, ctx, service, answer, now);
            lemma_metadata_same_op(h1, env, ctx, service, stage, answer, now);
        }
    }
}

/// A call for a system that the caller may not use is refused before anything is counted
/// or demanded.
pub proof fn other_systems_are_refused(
    h: HandlerV,
    env: Vars,
    op: Seq<char>,
    map: Seq<(Seq<char>, Seq<char>)>,
    args: JsonV,
    t: TenantV,
    now: u64,
)
    requires
        op != "list_instances"@,
        !t.may_use(h.pool.resolved(input_text(map, args, "instance"@))),
    ensures
        op_begun(h, env, op, map, args, t, now).0 == h,
        op_begun(h, env, op, map, args, t, now).1 matches StepV::Done(Err(_)),
{
}

/// A call over the limit demands nothing.
pub proof fn calls_over_the_limit_demand_nothing(
    h: HandlerV,
    env: Vars,
    op: Seq<char>,
    map: Seq<(Seq<char>, Seq<char>)>,
    args: JsonV,
    t: TenantV,
    now: u64,
)
    requires
        op != "list_instances"@,
        !rate_checked(
            h,
            env,
            t,
            h.pool.resolved(input_text(map, args, "instance"@)),
            op,
            now,
        ).1,
    ensures
        op_begun(h, env, op, map, args, t, now).1 matches StepV::Done(Err(_)),
{
}

/// A call that brings its own credentials goes through only for a caller who may use
/// everything, where the server was told to allow it; otherwise it is refused.
pub proof fn own_credentials_need_leave(
    h: HandlerV,
    env: Vars,
    op: Seq<char>,
    map: Seq<(Seq<char>, Seq<char>)>,
    args: JsonV,
    t: TenantV,
    now: u64,
)
    ensures
        op_begun(h, env, op, map, args, t, now).1 matches StepV::Wait(d, _) ==> (client_of(
            d,
        ) is Override == brings_credentials(args)) && (brings_credentials(args) ==> may_override(
            env,
            t,
        )),
        brings_credentials(args) && !may_override(env, t) && op != "list_instances"@ ==> op_begun(
            h,
            env,
            op,
            map,
            args,
            t,
            now,
        ).1 matches StepV::Done(Err(_)),
{
}

/// Metadata that came is kept: while it is good, nothing is asked of a system for it.
pub proof fn kept_metadata_is_not_fetched_again(
    h: HandlerV,
    env: Vars,
    ctx: CtxV,
    service: Option<Seq<char>>,
    md: JsonV,
    at: u64,
    stage: MetaStageV,
    now: u64,
)
    requires
        h.cache_secs > 0,
        !older(at, now, h.cache_secs),
    ensures
        ({
            let kept = with_metadata(h, ctx, service, Ok(md), at);
            metadata_wanted(kept, env, ctx, service, stage, now) == metadata_came(
                kept,
                env,
                ctx,
                stage,
                Ok(md),
                now,
            )
        }),
{
    cached_value_comes_back(
        h.cache,
        h.cache_secs,
        cache_key(ctx.instance, service),
        md,
        at,
        now,
    );
}

/// Whatever a system answers to a read, no record that is given back holds a field that is
/// hidden from the system and the entity.
pub proof fn reads_hide_what_is_denied(
    h: HandlerV,
    env: Vars,
    ctx: CtxV,
    entity: Seq<char>,
    raw: JsonV,
    i: int,
    field: Seq<char>,
    now: u64,
)
    requires
        ctx.entity() == Ok::<Seq<char>, Seq<char>>(entity),
        0 <= i < records_of(normalized(raw)).len(),
        denied(h.acl.rules, ctx.instance, entity, field),
    ensures
        op_resumed(h, env, ctx, OpStageV::Read, Ok(normalized(raw)), now).1 matches StepV::Done(
            Ok(v),
        ) && (v.get("records"@) matches Some(JsonV::Arr(out)) && out.len() == records_of(
            normalized(raw),
        ).len() && out[i].get(field) is None),
{
    normalized_answers_count_their_records(raw);
    let a = records_of(normalized(raw));
    let p = h.acl.rules;
    if let JsonV::Obj(m) = normalized(raw) {
        lemma_put_find(
            m,
            "records"@,
            JsonV::Arr(redacted_all(p, ctx.instance, entity, a)),
            "records"@,
        );
        if let JsonV::Obj(rec) = a[i] {
            answers_hold_nothing_hidden(p, ctx.instance, entity, m, a, i, rec, field);
        }
    }
}

/// Nor does a single entity in the envelope of the second version of the protocol: it is
/// given back as the one record, without what is hidden.
pub proof fn single_reads_hide_what_is_denied(
    h: HandlerV,
    env: Vars,
    ctx: CtxV,
    entity: Seq<char>,
    raw: JsonV,
    m: Members,
    now: u64,
)
    requires
        ctx.entity() == Ok::<Seq<char>, Seq<char>>(entity),
        raw == JsonV::Obj(seq![("d"@, JsonV::Obj(m))]),
        find(m, "results"@) is None,
    ensures
        op_resumed(h, env, ctx, OpStageV::Read, Ok(normalized(raw)), now).1 matches StepV::Done(
            Ok(v),
        ) && v.get("records"@) == Some(
            JsonV::Arr(seq![JsonV::Obj(redacted(h.acl.rules, ctx.instance, entity, m))]),
        ),
{
    normalized_answers_count_their_records(raw);
    single_entities_are_unwrapped(raw, m);
    let p = h.acl.rules;
    let a = seq![JsonV::Obj(m)];
    let out = redacted_all(p, ctx.instance, entity, a);
    assert(out =~= seq![JsonV::Obj(redacted(p, ctx.instance, entity, m))]);
    if let JsonV::Obj(o) = normalized(raw) {
        lemma_put_find(o, "records"@, JsonV::Arr(out), "records"@);
    }
}

/// Whether a call touches no entity that is closed.
pub open spec fn call_open(env: Vars, call: CallV) -> bool {
    match call {
        CallV::Query(q) => entity_open(env, q.entity_set),
        CallV::Create { entity_set, .. } => entity_open(env, entity_set),
        CallV::Update { entity_set, .. } => entity_open(env, entity_set),
        CallV::Delete { entity_set, .. } => entity_open(env, entity_set),
        _ => true,
    }
}

/// Whether the entity that an operation names is open.
pub open spec fn names_open(env: Vars, ctx: CtxV) -> bool {
    ctx.text("entity"@) matches Some(e) ==> entity_open(env, e)
}

/// Whether the entity of an approved write is open.
pub open spec fn job_open(env: Vars, job: ExecJobV) -> bool {
    entity_open(env, text_member(job.payload, "model"@))
}

/// Whether something that is under way has to do with open entities only.
pub open spec fn task_open(env: Vars, task: TaskV) -> bool {
    match task {
        TaskV::Op { ctx, stage } => match stage {
            OpStageV::Opening => true,
            OpStageV::Meta { stage, .. } => names_open(env, ctx) && (stage matches
                MetaStageV::ExecKey(job) ==> job_open(env, job)),
            OpStageV::Read => names_open(env, ctx),
            OpStageV::Exec(job) => job_open(env, job),
        },
        TaskV::Resource { .. } => true,
    }
}

/// A request never touches an entity that is closed: it is refused before anything is
/// asked of a system.
pub proof fn closed_entities_are_not_touched(
    h: HandlerV,
    env: Vars,
    req: JsonV,
    t: TenantV,
    now: u64,
)
    ensures
        handled(h, env, req, t, now).1 matches TurnV::Wait(d, p) ==> task_open(env, p.task)
            && (d matches DemandV::Call(_, call) ==> call_open(env, call)),
{
}

/// Whether a step has to do with open entities only.
pub open spec fn step_open(env: Vars, s: StepV) -> bool {
    s matches StepV::Wait(d, task) ==> task_open(env, task) && (d matches DemandV::Call(_, call)
        ==> call_open(env, call))
}

proof fn lemma_metadata_open(
    h: HandlerV,
    env: Vars,
    ctx: CtxV,
    service: Option<Seq<char>>,
    stage: MetaStageV,
    md: Result<JsonV, Seq<char>>,
    now: u64,
)
    requires
        names_open(env, ctx),
        stage matches MetaStageV::ExecKey(job) ==> job_open(env, job),
    ensures
        step_open(env, metadata_came(h, env, ctx, stage, md, now).1),
        step_open(env, metadata_wanted(h, env, ctx, service, stage, now).1),
{
    match stage {
        MetaStageV::Validate => {
            assert(validate_done(h, ctx, md->Ok_0, now).1 is Done);
            if let Some(m) = fresh(h.cache, h.cache_secs, cache_key(ctx.instance, service), now) {
                assert(validate_done(h, ctx, m, now).1 is Done);
            }
        },
        _ => {},
    }
}

proof fn lemma_payload_open(h: HandlerV, env: Vars, ctx: CtxV, job: ExecJobV, now: u64)
    requires
        names_open(env, ctx),
    ensures
        step_open(env, payload_begun(h, env, ctx, job, now).1),
{
    if job_open(env, job) {
        lemma_metadata_open(
            h,
            env,
            ctx,
            job.payload.text_at("service"@),
            MetaStageV::ExecKey(job),
            Err(""@),
            now,
        );
    }
}

proof fn lemma_execute_open(h: HandlerV, env: Vars, ctx: CtxV, now: u64)
    requires
        names_open(env, ctx),
    ensures
        step_open(env, execute_begun(h, env, ctx, now).1),
        step_open(env, direct_begun(h, env, ctx, now).1),
{
    assert forall|h1: HandlerV, job: ExecJobV| step_open(
        env,
        #[trigger] payload_begun(h1, env, ctx, job, now).1,
    ) by {
        lemma_payload_open(h1, env, ctx, job, now);
    }
}

proof fn lemma_opened_open(h: HandlerV, env: Vars, ctx: CtxV, now: u64)
    ensures
        step_open(env, op_opened(h, env, ctx, now).1),
{
    if names_open(env, ctx) {
        lemma_execute_open(h, env, ctx, now);
        let service = ctx.text("service"@);
        lemma_metadata_open(h, env, ctx, service, MetaStageV::Discover, Err(""@), now);
        lemma_metadata_open(h, env, ctx, service, MetaStageV::EntityMetadata, Err(""@), now);
        lemma_metadata_open(h, env, ctx, service, MetaStageV::ReadOneKey, Err(""@), now);
        lemma_metadata_open(h, env, ctx, service, MetaStageV::Validate, Err(""@), now);
    }
}

/// Nor does it when it goes on.
pub proof fn closed_entities_are_not_touched_later(
    h: HandlerV,
    env: Vars,
    p: PendingV,
    answer: Result<JsonV, Seq<char>>,
    now: u64,
)
    requires
        task_open(env, p.task),
    ensures
        resumed(h, env, p, answer, now).1 matches TurnV::Wait(d, p2) ==> task_open(env, p2.task)
            && (d matches DemandV::Call(_, call) ==> call_open(env, call)),
{
    if let TaskV::Op { ctx, stage } = p.task {
        lemma_opened_open(h, env, ctx, now);
        if let OpStageV::Meta { stage, service } = stage {
            let h1 = with_metadata(h, ctx, service, answer, now);
            lemma_metadata_open(h1, env, ctx, service, stage, answer, now);
        }
    }
}

/// Whether a call writes.
pub open spec fn writes(call: CallV) -> bool {
    call is Create || call is Update || call is Delete
}

/// The approved write that is under way, if any.
pub open spec fn write_under_way(task: TaskV) -> Option<ExecJobV> {
    match task {
        TaskV::Op { stage: OpStageV::Exec(job), .. } => Some(job),
        TaskV::Op { stage: OpStageV::Meta { stage: MetaStageV::ExecKey(job), .. }, .. } => Some(
            job,
        ),
        _ => None,
    }
}

/// A write gets under way only where writes are enabled, the call confirms it, and an
/// approval for exactly that write, with the credentials of the call, is good; and the
/// approval is used up by that.
pub proof fn writes_need_an_approval(h: HandlerV, env: Vars, ctx: CtxV, now: u64)
    ensures
        op_opened(h, env, ctx, now).1 matches StepV::Wait(_, task) && (write_under_way(
            task,
        ) matches Some(job) ==> {
            &&& flag(env, "SAP_MCP_ENABLE_WRITES"@)
            &&& ctx.truth("confirm"@)
            &&& approved(h.approvals, job.token, job.payload, now)
            &&& approved_mark(job.payload) == credential_mark(ctx.args)
            &&& op_opened(h, env, ctx, now).0.approvals == used_up(
                h.approvals,
                job.token,
                job.payload,
                now,
            )
        }) || op_opened(h, env, ctx, now).1 is Done,
{
}

/// Whether a call carries out an approved write: the entity, the service, the operation
/// and the values are those that were approved.
pub open spec fn carries_out(call: CallV, job: ExecJobV) -> bool {
    let entity = text_member(job.payload, "model"@);
    let operation = text_member(job.payload, "operation"@);
    match call {
        CallV::Create { service, entity_set, body } => {
            &&& operation == "create"@
            &&& entity_set == entity
            &&& service == job.payload.text_at("service"@)
            &&& body == payload_values(job.payload)
        },
        CallV::Update { service, entity_set, body, etag, .. } => {
            &&& operation == "update"@
            &&& entity_set == entity
            &&& service == job.payload.text_at("service"@)
            &&& body == payload_values(job.payload)
            &&& etag == job.payload.text_at("etag"@)
        },
        CallV::Delete { service, entity_set, etag, .. } => {
            &&& operation == "delete"@
            &&& entity_set == entity
            &&& service == job.payload.text_at("service"@)
            &&& etag == job.payload.text_at("etag"@)
        },
        _ => false,
    }
}

/// Whether a write for whose key metadata is needed is a change or an end.
pub open spec fn keyed(task: TaskV) -> bool {
    match task {
        TaskV::Op { stage: OpStageV::Meta { stage, .. }, .. } => stage_keyed(stage),
        _ => true,
    }
}

/// Whether a write for whose key metadata is needed is a change or an end.
pub open spec fn stage_keyed(stage: MetaStageV) -> bool {
    match stage {
        MetaStageV::ExecKey(job) => {
            let operation = text_member(job.payload, "operation"@);
            operation == "update"@ || operation == "delete"@
        },
        _ => true,
    }
}

/// Whether a step sends no write but one that carries out what is under way.
pub open spec fn sends_what_is_approved(s: StepV) -> bool {
    match s {
        StepV::Wait(DemandV::Call(_, call), task) => keyed(task) && (writes(call) ==> (
        write_under_way(task) matches Some(job) && carries_out(call, job))),
        StepV::Wait(_, task) => keyed(task),
        _ => true,
    }
}

/// Whether a step goes on with a write that was under way, and with no other.
pub open spec fn goes_on_with(s: StepV, was: Option<ExecJobV>) -> bool {
    s matches StepV::Wait(_, task) ==> (write_under_way(task) is Some ==> write_under_way(task)
        == was)
}

/// The approved write for which metadata is needed, if any.
pub open spec fn write_of_stage(stage: MetaStageV) -> Option<ExecJobV> {
    match stage {
        MetaStageV::ExecKey(job) => Some(job),
        _ => None,
    }
}

proof fn lemma_metadata_writes(
    h: HandlerV,
    env: Vars,
    ctx: CtxV,
    service: Option<Seq<char>>,
    stage: MetaStageV,
    md: Result<JsonV, Seq<char>>,
    now: u64,
)
    requires
        stage_keyed(stage),
    ensures
        sends_what_is_approved(metadata_came(h, env, ctx, stage, md, now).1),
        sends_what_is_approved(metadata_wanted(h, env, ctx, service, stage, now).1),
        goes_on_with(metadata_came(h, env, ctx, stage, md, now).1, write_of_stage(stage)),
        goes_on_with(metadata_wanted(h, env, ctx, service, stage, now).1, write_of_stage(stage)),
{
    match stage {
        MetaStageV::Validate => {
            assert(validate_done(h, ctx, md->Ok_0, now).1 is Done);
            if let Some(m) = fresh(h.cache, h.cache_secs, cache_key(ctx.instance, service), now) {
                assert(validate_done(h, ctx, m, now).1 is Done);
            }
        },
        _ => {},
    }
}

proof fn lemma_execute_writes(h: HandlerV, env: Vars, ctx: CtxV, now: u64)
    ensures
        sends_what_is_approved(execute_begun(h, env, ctx, now).1),
        sends_what_is_approved(direct_begun(h, env, ctx, now).1),
{
    assert forall|h1: HandlerV, job: ExecJobV| sends_what_is_approved(
        #[trigger] payload_begun(h1, env, ctx, job, now).1,
    ) by {
        if stage_keyed(MetaStageV::ExecKey(job)) {
            lemma_metadata_writes(
                h1,
                env,
                ctx,
                job.payload.text_at("service"@),
                MetaStageV::ExecKey(job),
                Err(""@),
                now,
            );
        }
    }
}

proof fn lemma_opened_writes(h: HandlerV, env: Vars, ctx: CtxV, now: u64)
    ensures
        sends_what_is_approved(op_opened(h, env, ctx, now).1),
{
    lemma_execute_writes(h, env, ctx, now);
    let service = ctx.text("service"@);
    lemma_metadata_writes(h, env, ctx, service, MetaStageV::Discover, Err(""@), now);
    lemma_metadata_writes(h, env, ctx, service, MetaStageV::EntityMetadata, Err(""@), now);
    lemma_metadata_writes(h, env, ctx, service, MetaStageV::ReadOneKey, Err(""@), now);
    lemma_metadata_writes(h, env, ctx, service, MetaStageV::Validate, Err(""@), now);
}

/// Nothing is written but what was approved: a call that writes carries out the write
/// that is under way, and a write gets under way only as the operation begins.
pub proof fn only_approved_writes_are_sent(
    h: HandlerV,
    env: Vars,
    ctx: CtxV,
    stage: OpStageV,
    answer: Result<JsonV, Seq<char>>,
    now: u64,
)
    requires
        keyed(TaskV::Op { ctx, stage }),
    ensures
        sends_what_is_approved(op_resumed(h, env, ctx, stage, answer, now).1),
        !(stage is Opening) ==> goes_on_with(
            op_resumed(h, env, ctx, stage, answer, now).1,
            write_under_way(TaskV::Op { ctx, stage }),
        ),
{
    lemma_opened_writes(h, env, ctx, now);
    if let OpStageV::Meta { stage, service } = stage {
        let h1 = with_metadata(h, ctx, service, answer, now);
        lemma_metadata_writes(h1, env, ctx, service, stage, answer, now);
    }
}

/// A request does not begin with a write.
pub proof fn no_request_begins_with_a_write(
    h: HandlerV,
    env: Vars,
    req: JsonV,
    t: TenantV,
    now: u64,
)
    ensures
        handled(h, env, req, t, now).1 matches TurnV::Wait(d, p) ==> d is OpenClient
            && write_under_way(p.task) is None,
{
}

/// Where writes are not enabled, no write gets under way.
pub proof fn disabled_writes_do_not_begin(h: HandlerV, env: Vars, ctx: CtxV, now: u64)
    requires
        !flag(env, "SAP_MCP_ENABLE_WRITES"@),
    ensures
        op_opened(h, env, ctx, now).1 matches StepV::Wait(_, task) ==> write_under_way(
            task,
        ) is None,
{
    writes_need_an_approval(h, env, ctx, now);
}

/// The members of the write that is approved.
proof fn lemma_payload(ctx: CtxV, entity: Seq<char>, operation: Seq<char>)
    ensures
        ctx.payload(entity, operation).text_at("instance"@) == Some(ctx.instance),
        ctx.payload(entity, operation).text_at("auth_fp"@) == Some(credential_mark(ctx.args)),
{
    reveal_strlit("instance");
    reveal_strlit("service");
    reveal_strlit("model");
    reveal_strlit("operation");
    reveal_strlit("keys");
    reveal_strlit("values");
    reveal_strlit("etag");
    reveal_strlit("auth_fp");
    let i = "instance"@;
    assert(i.len() == 8 && "service"@.len() == 7 && "model"@.len() == 5 && "operation"@.len() == 9);
    assert("keys"@.len() == 4 && "values"@.len() == 6 && "etag"@.len() == 4 && "auth_fp"@.len()
        == 7);
    let a = put(no_members(), i, JsonV::Str(ctx.instance));
    let sv = crate::json::opt_str_v(ctx.text("service"@));
    let b = put(a, "service"@, sv);
    let c = put(b, "model"@, JsonV::Str(entity));
    let d = put(c, "operation"@, JsonV::Str(operation));
    let kv = crate::json::opt_json_v(ctx.get("keys"@));
    let e = put(d, "keys"@, kv);
    let vv = crate::json::opt_json_v(ctx.get("values"@));
    let f = put(e, "values"@, vv);
    let ev = crate::json::opt_json_v(ctx.get("etag"@));
    let g = put(f, "etag"@, ev);
    let m = JsonV::Str(credential_mark(ctx.args));
    lemma_put_find(no_members(), i, JsonV::Str(ctx.instance), i);
    lemma_put_find(a, "service"@, sv, i);
    lemma_put_find(b, "model"@, JsonV::Str(entity), i);
    lemma_put_find(c, "operation"@, JsonV::Str(operation), i);
    lemma_put_find(d, "keys"@, kv, i);
    lemma_put_find(e, "values"@, vv, i);
    lemma_put_find(f, "etag"@, ev, i);
    lemma_put_find(g, "auth_fp"@, m, i);
    lemma_put_find(g, "auth_fp"@, m, "auth_fp"@);
}

/// A write that was validated without hard faults can be executed while its approval
/// holds: by a call for the same system and with the same credentials, the write gets
/// under way.
pub proof fn validated_writes_can_be_executed(
    h: HandlerV,
    env: Vars,
    ctx: CtxV,
    md: JsonV,
    at: u64,
    later: HandlerV,
    call: CtxV,
    now: u64,
    entity: Seq<char>,
    operation: Seq<char>,
)
    requires
        sorted_keys(h.approvals),
        ctx.entity() == Ok::<Seq<char>, Seq<char>>(entity),
        ctx.operation() == Ok::<Seq<char>, Seq<char>>(operation),
        validate_done(h, ctx, md, at).1 matches StepV::Done(Ok(_)),
        !hopeless(
            crate::entity::meta_of(md, entity),
            operation,
            ctx.get("keys"@),
            ctx.get("values"@),
        ),
        later.approvals == validate_done(h, ctx, md, at).0.approvals,
        call.instance == ctx.instance,
        credential_mark(call.args) == credential_mark(ctx.args),
        now < at + h.approval_secs * 1_000_000_000,
    ensures
        ({
            let payload = ctx.payload(entity, operation);
            let token = token_of(payload);
            execute_checked(later, env, call, token, payload, now) == payload_begun(
                HandlerV { approvals: used_up(later.approvals, token, payload, now), ..later },
                env,
                call,
                ExecJobV { payload, token, direct: false },
                now,
            )
        }),
{
    let payload = ctx.payload(entity, operation);
    lemma_payload(ctx, entity, operation);
    approval_holds_until_it_ends(
        h.approvals,
        h.approval_secs,
        token_of(payload),
        payload,
        at,
        now,
    );
}

/// An approval is good for one execution: a second call with it is refused.
pub proof fn approvals_are_good_once(
    h: HandlerV,
    env: Vars,
    ctx: CtxV,
    token: Seq<char>,
    payload: JsonV,
    now: u64,
    later: HandlerV,
    call: CtxV,
    later_now: u64,
)
    requires
        sorted_keys(h.approvals),
        approved(h.approvals, token, payload, now),
        later.approvals == used_up(h.approvals, token, payload, now),
    ensures
        execute_checked(later, env, call, token, payload, later_now).1 matches StepV::Done(Err(_)),
{
    approval_is_single_use(h.approvals, token, payload, now, payload, later_now);
}

/// An approval that was given for one system cannot be used for another, and stays good.
pub proof fn approvals_are_bound_to_a_system(
    h: HandlerV,
    env: Vars,
    ctx: CtxV,
    token: Seq<char>,
    payload: JsonV,
    now: u64,
    instance: Seq<char>,
)
    requires
        payload.text_at("instance"@) == Some(instance),
        instance != ctx.instance,
    ensures
        execute_checked(h, env, ctx, token, payload, now).1 matches StepV::Done(Err(_)),
        execute_checked(h, env, ctx, token, payload, now).0.approvals == h.approvals,
{
}

/// An approval that was given with some credentials cannot be used with others, and stays
/// good.
pub proof fn approvals_are_bound_to_credentials(
    h: HandlerV,
    env: Vars,
    ctx: CtxV,
    token: Seq<char>,
    payload: JsonV,
    now: u64,
)
    requires
        approved_mark(payload) != credential_mark(ctx.args),
    ensures
        execute_checked(h, env, ctx, token, payload, now).1 matches StepV::Done(Err(_)),
        execute_checked(h, env, ctx, token, payload, now).0.approvals == h.approvals,
{
}

/// A write that was carried out leaves a line for the audit log, with the caller, the
/// system, the entity and the operation.
pub proof fn writes_are_audited(
    h: HandlerV,
    env: Vars,
    ctx: CtxV,
    job: ExecJobV,
    result: JsonV,
    now: u64,
)
    ensures
        ({
            let notes = op_resumed(h, env, ctx, OpStageV::Exec(job), Ok(result), now).0.notes;
            &&& notes.len() == h.notes.len() + 1
            &&& notes.drop_last() == h.notes
            &&& notes.last() matches NoteV::Audit(e)
            &&& e.ok
            &&& e.actor == ctx.tenant.label()
            &&& e.instance == ctx.instance
            &&& e.model == text_member(job.payload, "model"@)
            &&& e.operation == text_member(job.payload, "operation"@)
        }),
{
    let notes = op_resumed(h, env, ctx, OpStageV::Exec(job), Ok(result), now).0.notes;
    assert(notes.drop_last() =~= h.notes);
}

/// How often something that is under way can still have to wait.
pub open spec fn waits_left(task: TaskV) -> nat {
    match task {
        TaskV::Op { stage, .. } => match stage {
            OpStageV::Opening => 3,
            OpStageV::Meta { .. } => 2,
            OpStageV::Read => 1,
            OpStageV::Exec(_) => 1,
        },
        TaskV::Resource { opened, .. } => if opened {
            1
        } else {
            2
        },
    }
}

/// Whether a step waits for something after which there are at most `n` waits left.
pub open spec fn waits_at_most(s: StepV, n: nat) -> bool {
    s matches StepV::Wait(_, task) ==> waits_left(task) <= n
}

proof fn lemma_metadata_waits(
    h: HandlerV,
    env: Vars,
    ctx: CtxV,
    service: Option<Seq<char>>,
    stage: MetaStageV,
    md: Result<JsonV, Seq<char>>,
    now: u64,
)
    ensures
        waits_at_most(metadata_came(h, env, ctx, stage, md, now).1, 1),
        waits_at_most(metadata_wanted(h, env, ctx, service, stage, now).1, 2),
{
    match stage {
        MetaStageV::Validate => {
            assert(validate_done(h, ctx, md->Ok_0, now).1 is Done);
            if let Some(m) = fresh(h.cache, h.cache_secs, cache_key(ctx.instance, service), now) {
                assert(validate_done(h, ctx, m, now).1 is Done);
            }
        },
        _ => {},
    }
}

proof fn lemma_execute_waits(h: HandlerV, env: Vars, ctx: CtxV, now: u64)
    ensures
        waits_at_most(execute_begun(h, env, ctx, now).1, 2),
        waits_at_most(direct_begun(h, env, ctx, now).1, 2),
{
    assert forall|h1: HandlerV, job: ExecJobV| waits_at_most(
        #[trigger] payload_begun(h1, env, ctx, job, now).1,
        2,
    ) by {
        lemma_metadata_waits(
            h1,
            env,
            ctx,
            job.payload.text_at("service"@),
            MetaStageV::ExecKey(job),
            Err(""@),
            now,
        );
    }
}

proof fn lemma_opened_waits(h: HandlerV, env: Vars, ctx: CtxV, now: u64)
    ensures
        waits_at_most(op_opened(h, env, ctx, now).1, 2),
{
    lemma_execute_waits(h, env, ctx, now);
    let service = ctx.text("service"@);
    lemma_metadata_waits(h, env, ctx, service, MetaStageV::Discover, Err(""@), now);
    lemma_metadata_waits(h, env, ctx, service, MetaStageV::EntityMetadata, Err(""@), now);
    lemma_metadata_waits(h, env, ctx, service, MetaStageV::ReadOneKey, Err(""@), now);
    lemma_metadata_waits(h, env, ctx, service, MetaStageV::Validate, Err(""@), now);
}

/// A request comes to an end after at most three demands, whatever comes of them: each
/// time it goes on, it has fewer left.
pub proof fn requests_come_to_an_end(
    h: HandlerV,
    env: Vars,
    req: JsonV,
    t: TenantV,
    p: PendingV,
    answer: Result<JsonV, Seq<char>>,
    now: u64,
)
    ensures
        handled(h, env, req, t, now).1 matches TurnV::Wait(_, p1) ==> waits_left(p1.task) <= 3,
        resumed(h, env, p, answer, now).1 matches TurnV::Wait(_, p2) ==> waits_left(p2.task)
            < waits_left(p.task),
{
    if let TaskV::Op { ctx, stage } = p.task {
        lemma_opened_waits(h, env, ctx, now);
        if let OpStageV::Meta { stage, service } = stage {
            let h1 = with_metadata(h, ctx, service, answer, now);
            lemma_metadata_waits(h1, env, ctx, service, stage, answer, now);
        }
    }
}

/// A tool that is not offered cannot be called: the server stays as it is.
pub proof fn tools_that_are_not_offered_cannot_be_called(
    h: HandlerV,
    env: Vars,
    params: JsonV,
    t: TenantV,
    now: u64,
)
    requires
        offered_tool(env, h.registry.tools, text_member(params, "name"@)) is None,
    ensures
        tool_called(h, env, params, t, now) == (
            h,
            StepV::Done(Err("unknown tool "@ + text_member(params, "name"@))),
        ),
{
}

/// A notification is never answered, whatever comes of it.
pub proof fn notifications_are_not_answered(
    h: HandlerV,
    env: Vars,
    req: JsonV,
    t: TenantV,
    p: PendingV,
    answer: Result<JsonV, Seq<char>>,
    now: u64,
)
    requires
        req.get("id"@) is None,
        p.is_notification,
    ensures
        handled(h, env, req, t, now).1 matches TurnV::Done(r) ==> r is None,
        handled(h, env, req, t, now).1 matches TurnV::Wait(_, p2) ==> p2.is_notification,
        resumed(h, env, p, answer, now).1 matches TurnV::Done(r) ==> r is None,
        resumed(h, env, p, answer, now).1 matches TurnV::Wait(_, p2) ==> p2.is_notification,
{
}

/// Every other request is answered, in the end, under its own identifier.
pub proof fn answers_carry_the_identifier(
    h: HandlerV,
    env: Vars,
    req: JsonV,
    t: TenantV,
    p: PendingV,
    answer: Result<JsonV, Seq<char>>,
    now: u64,
)
    requires
        req.get("id"@) is Some,
        !p.is_notification,
    ensures
        handled(h, env, req, t, now).1 matches TurnV::Done(r) ==> r matches Some(v) && v.get(
            "id"@,
        ) == Some(request_id(req)),
        handled(h, env, req, t, now).1 matches TurnV::Wait(_, p2) ==> !p2.is_notification && p2.id
            == request_id(req),
        resumed(h, env, p, answer, now).1 matches TurnV::Done(r) ==> r matches Some(v) && v.get(
            "id"@,
        ) == Some(p.id),
        resumed(h, env, p, answer, now).1 matches TurnV::Wait(_, p2) ==> !p2.is_notification
            && p2.id == p.id,
{
    assert forall|id: JsonV, r: Result<JsonV, Seq<char>>| #[trigger]
        response(id, r).get("id"@) == Some(id) by {
        lemma_response_id(id, r);
    }
}

proof fn lemma_response_id(id: JsonV, r: Result<JsonV, Seq<char>>)
    ensures
        response(id, r).get("id"@) == Some(id),
{
    reveal_strlit("id");
    reveal_strlit("result");
    reveal_strlit("error");
    reveal_strlit("jsonrpc");
    assert("id"@.len() == 2 && "result"@.len() == 6 && "error"@.len() == 5);
    let a = put(no_members(), "jsonrpc"@, JsonV::Str("2.0"@));
    let b = put(a, "id"@, id);
    lemma_put_find(a, "id"@, id, "id"@);
    match r {
        Ok(v) => {
            lemma_put_find(b, "result"@, v, "id"@);
        },
        Err(e) => {
            let x = put(no_members(), "code"@, JsonV::Num(NumV::Neg((-32603) as i64)));
            lemma_put_find(
                b,
                "error"@,
                JsonV::Obj(put(x, "message"@, JsonV::Str(e))),
                "id"@,
            );
        },
    }
}

} // verus!
