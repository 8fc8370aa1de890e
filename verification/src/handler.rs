//! The requests that the server answers.
//!
//! `Handler::handle` takes a request. Where it needs nothing from a SAP system, the
//! response comes at once. Otherwise the handler demands something (a client, or a call
//! of one), and `Handler::resume` goes on with what came of it. What has to be written to
//! the audit log or reported to the operator is kept as notes until it is taken.

use vstd::prelude::*;
use vstd::string::*;
use crate::cache::{cached, fresh, Cached, MetadataCache};
use crate::config::{clamp_skip, clamp_top, entity_allowed, entity_open, env_number, flag, instance_name, metadata_cache_ttl, odata_name, opt_json, opt_slice, page_skip, page_top, valid_instance_name, valid_odata_name, writes_enabled, Env, Vars};
use crate::entity::{annotate_acl, annotated, auth_fp, cap_error, check_query_caps, credential_mark, entity_meta, key_segment_typed, key_text, meta_of, prop_types, redact_collection, redacted_answer, text_member, text_of_member, types_in, array_at};
use crate::field_acl::{policy_status, FieldPolicy, FieldPolicyV};
use crate::gated::{approved, build_approval_token, registered, token_of, used_up, ApprovalStore, Approvals, AuditEvent, AuditV, APPROVAL_TTL_SECS};
use crate::json::{json_parse, json_text, no_members, push_value, values, Json, JsonV, Number, NumV, Object};
use crate::numeral::{dec, dec_u64};
use crate::ops::{approval, blocked, blocked_message, brings_credentials, check_write, discover, discovered, executed, executed_json, get_text, has_credentials, hopeless, input_text, list_sets, may_override, overridden, override_config, preview_json, previewed, shown_sets, validate_json, validated, write_issues, ClientRef, CtxV, OpCtx, RefV};
use crate::pool::{described, unknown_instance, PoolV, SapPool};
use crate::registry::{copy_map, offered_tool, offered_tools, prompts_of, strings_of_map, tools_of, PromptV, Registry, RegistryV, ToolV};
use crate::sap_client::{ClientCall, CallV, QueryCall, QueryV};
use crate::strmap::{find, put, StrMap};
use crate::tenant::{calls_after, rate_alarm, rate_verdict, rate_warning, Calls, RateLimiter, Tenant, TenantV};
use crate::text::{after_prefix, cat2, cat3, cat5, copy_opt, opt_text, same, strip_prefix};

verus! {

/// What has to be written or reported.
pub enum Note {
    /// A line of the audit log.
    Audit(AuditEvent),
    /// A warning for the operator.
    Warn(String),
}

/// What has to be written or reported.
pub enum NoteV {
    Audit(AuditV),
    Warn(Seq<char>),
}

impl Note {
    /// What it is.
    pub open spec fn view(&self) -> NoteV {
        match self {
            Note::Audit(e) => NoteV::Audit(e@),
            Note::Warn(t) => NoteV::Warn(t@),
        }
    }
}

/// What notes are.
pub open spec fn notes_of(v: Seq<Note>) -> Seq<NoteV> {
    Seq::new(v.len(), |i: int| v[i]@)
}

/// An approved write that is being carried out.
pub struct ExecJob {
    pub payload: Json,
    pub token: String,
    /// Whether it was asked for by its own operation.
    pub direct: bool,
}

/// An approved write that is being carried out.
pub struct ExecJobV {
    pub payload: JsonV,
    pub token: Seq<char>,
    pub direct: bool,
}

impl ExecJob {
    /// What it is.
    pub open spec fn view(&self) -> ExecJobV {
        ExecJobV { payload: self.payload@, token: self.token@, direct: self.direct }
    }
}

/// What metadata is needed for.
pub enum MetaStage {
    Discover,
    EntityMetadata,
    ReadOneKey,
    Validate,
    ExecKey(ExecJob),
}

/// What metadata is needed for.
pub enum MetaStageV {
    Discover,
    EntityMetadata,
    ReadOneKey,
    Validate,
    ExecKey(ExecJobV),
}

impl MetaStage {
    /// What it is.
    pub open spec fn view(&self) -> MetaStageV {
        match self {
            MetaStage::Discover => MetaStageV::Discover,
            MetaStage::EntityMetadata => MetaStageV::EntityMetadata,
            MetaStage::ReadOneKey => MetaStageV::ReadOneKey,
            MetaStage::Validate => MetaStageV::Validate,
            MetaStage::ExecKey(j) => MetaStageV::ExecKey(j@),
        }
    }
}

/// What an operation waits for.
pub enum OpStage {
    /// A client.
    Opening,
    /// Metadata.
    Meta { stage: MetaStage, service: Option<String> },
    /// Entities.
    Read,
    /// A write.
    Exec(ExecJob),
}

/// What an operation waits for.
pub enum OpStageV {
    Opening,
    Meta { stage: MetaStageV, service: Option<Seq<char>> },
    Read,
    Exec(ExecJobV),
}

impl OpStage {
    /// What it is.
    pub open spec fn view(&self) -> OpStageV {
        match self {
            OpStage::Opening => OpStageV::Opening,
            OpStage::Meta { stage, service } => OpStageV::Meta {
                stage: stage@,
                service: opt_text(*service),
            },
            OpStage::Read => OpStageV::Read,
            OpStage::Exec(j) => OpStageV::Exec(j@),
        }
    }
}

/// What is under way.
pub enum Task {
    /// An operation of a tool.
    Op { ctx: OpCtx, stage: OpStage },
    /// The reading of a resource: with a client (`opened`), metadata is waited for.
    Resource { uri: String, instance: String, opened: bool },
}

/// What is under way.
pub enum TaskV {
    Op { ctx: CtxV, stage: OpStageV },
    Resource { uri: Seq<char>, instance: Seq<char>, opened: bool },
}

impl Task {
    /// What it is.
    pub open spec fn view(&self) -> TaskV {
        match self {
            Task::Op { ctx, stage } => TaskV::Op { ctx: ctx@, stage: stage@ },
            Task::Resource { uri, instance, opened } => TaskV::Resource {
                uri: uri@,
                instance: instance@,
                opened: *opened,
            },
        }
    }
}

/// What the handler needs.
pub enum Demand {
    /// A client that is ready. The answer is any value, or why there is none.
    OpenClient(ClientRef),
    /// A call of a client. The answer is what the call came to.
    Call(ClientRef, ClientCall),
}

/// What the handler needs.
pub enum DemandV {
    OpenClient(RefV),
    Call(RefV, CallV),
}

impl Demand {
    /// What it is.
    pub open spec fn view(&self) -> DemandV {
        match self {
            Demand::OpenClient(c) => DemandV::OpenClient(c@),
            Demand::Call(c, call) => DemandV::Call(c@, call@),
        }
    }
}

/// What a value or an error is.
pub open spec fn json_result(r: Result<Json, String>) -> Result<JsonV, Seq<char>> {
    match r {
        Ok(v) => Ok(v@),
        Err(e) => Err(e@),
    }
}

/// A step of what is under way.
pub enum Step {
    Done(Result<Json, String>),
    Wait(Demand, Task),
}

/// A step of what is under way.
pub enum StepV {
    Done(Result<JsonV, Seq<char>>),
    Wait(DemandV, TaskV),
}

impl Step {
    /// What it is.
    pub open spec fn view(&self) -> StepV {
        match self {
            Step::Done(r) => StepV::Done(json_result(*r)),
            Step::Wait(d, t) => StepV::Wait(d@, t@),
        }
    }
}

/// A request that waits.
pub struct Pending {
    id: Json,
    is_notification: bool,
    task: Task,
}

/// A request that waits.
pub struct PendingV {
    pub id: JsonV,
    pub is_notification: bool,
    pub task: TaskV,
}

impl Pending {
    /// What it is.
    pub closed spec fn view(&self) -> PendingV {
        PendingV { id: self.id@, is_notification: self.is_notification, task: self.task@ }
    }
}

/// What comes of a request: a response, if one is due, or a demand.
pub enum Turn {
    Done(Option<Json>),
    Wait(Demand, Pending),
}

/// What comes of a request.
pub enum TurnV {
    Done(Option<JsonV>),
    Wait(DemandV, PendingV),
}

impl Turn {
    /// What it is.
    pub open spec fn view(&self) -> TurnV {
        match self {
            Turn::Done(Some(v)) => TurnV::Done(Some(v@)),
            Turn::Done(None) => TurnV::Done(None),
            Turn::Wait(d, p) => TurnV::Wait(d@, p@),
        }
    }
}

/// The server.
pub struct Handler {
    pub pool: SapPool,
    pub registry: Registry,
    pub approvals: ApprovalStore,
    pub cache: MetadataCache,
    pub acl: FieldPolicy,
    pub limiter: RateLimiter,
    /// How often each operation was called for.
    pub metrics: StrMap<u64>,
    pub version: String,
    pub notes: Vec<Note>,
}

/// The server.
#[verifier::ext_equal]
pub struct HandlerV {
    pub pool: PoolV,
    pub registry: RegistryV,
    pub approvals: Approvals,
    pub approval_secs: nat,
    pub cache: Cached,
    pub cache_secs: nat,
    pub acl: FieldPolicyV,
    pub limiter: Calls,
    pub metrics: Seq<(Seq<char>, u64)>,
    pub version: Seq<char>,
    pub notes: Seq<NoteV>,
}

/// An operation that failed.
pub open spec fn fails(message: Seq<char>) -> StepV {
    StepV::Done(Err(message))
}

/// An operation that succeeded.
pub open spec fn gives(v: JsonV) -> StepV {
    StepV::Done(Ok(v))
}

/// With one more note.
pub open spec fn noted(h: HandlerV, n: NoteV) -> HandlerV {
    HandlerV { notes: h.notes.push(n), ..h }
}

/// With one more line for the audit log.
pub open spec fn audited(
    h: HandlerV,
    event: Seq<char>,
    ctx: CtxV,
    model: Seq<char>,
    operation: Seq<char>,
    instance: Seq<char>,
    token: Seq<char>,
    ok: bool,
    detail: Seq<char>,
) -> HandlerV {
    noted(
        h,
        NoteV::Audit(
            AuditV {
                event,
                actor: ctx.tenant.label(),
                instance,
                model,
                operation,
                token,
                ok,
                detail,
            },
        ),
    )
}

/// After a call was counted against its limit: whether it is let through, and how many
/// calls there are with it.
pub open spec fn rate_checked(
    h: HandlerV,
    env: Vars,
    t: TenantV,
    instance: Seq<char>,
    tool: Seq<char>,
    now: u64,
) -> (HandlerV, bool, nat) {
    let key = seq![t.label(), instance, tool];
    let verdict = rate_verdict(env, h.limiter, key, now);
    let h1 = HandlerV { limiter: calls_after(env, h.limiter, key, now), ..h };
    let h2 = match rate_alarm(env, t.label(), instance, tool, verdict.1) {
        Some(w) => noted(h1, NoteV::Warn(w)),
        None => h1,
    };
    (h2, verdict.0, verdict.1)
}

/// After an operation was counted.
pub open spec fn counted(h: HandlerV, op: Seq<char>) -> HandlerV {
    let n = match find(h.metrics, op) {
        Some(x) => if x < u64::MAX {
            (x + 1) as u64
        } else {
            0u64
        },
        None => 1u64,
    };
    HandlerV { metrics: put(h.metrics, op, n), ..h }
}

/// What a call over the limit is answered.
pub open spec fn rate_message(
    t: TenantV,
    instance: Seq<char>,
    op: Seq<char>,
    count: nat,
) -> Seq<char> {
    "rate limited: tenant '"@ + t.label() + "' instance '"@ + instance + "' op '"@ + op + "' ("@
        + dec(count) + " calls in window)"@
}

/// Which client an operation goes through, or why it cannot.
pub open spec fn client_chosen(
    h: HandlerV,
    env: Vars,
    t: TenantV,
    instance: Seq<char>,
    args: JsonV,
) -> (HandlerV, Result<RefV, Seq<char>>) {
    if !brings_credentials(args) {
        match h.pool.client(instance) {
            Some(c) => (
                HandlerV { pool: h.pool.with_client(instance, c), ..h },
                Ok(RefV::Pooled(instance)),
            ),
            None => (h, Err(unknown_instance(instance))),
        }
    } else if !may_override(env, t) {
        (
            h,
            Err(
                "per-request SAP credentials require a Full tenant and SAP_MCP_ALLOW_AUTH_OVERRIDE=1"@,
            ),
        )
    } else {
        match find(h.pool.configs, instance) {
            Some(cfg) => (h, Ok(RefV::Override(overridden(cfg, args)))),
            None => (h, Err(unknown_instance(instance))),
        }
    }
}

/// The start of an operation: who calls has to be allowed to use the system, and within
/// the limit.
pub open spec fn op_begun(
    h: HandlerV,
    env: Vars,
    op: Seq<char>,
    map: Seq<(Seq<char>, Seq<char>)>,
    args: JsonV,
    t: TenantV,
    now: u64,
) -> (HandlerV, StepV) {
    let wanted = input_text(map, args, "instance"@);
    let instance = h.pool.resolved(wanted);
    if wanted matches Some(n) && !instance_name(n) {
        (h, fails("invalid instance name '"@ + wanted->0 + "'"@))
    } else if op == "list_instances"@ {
        (h, gives(described(h.pool, t)))
    } else if !t.may_use(instance) {
        (h, fails(t.refusal(instance)))
    } else {
        let r = rate_checked(h, env, t, instance, op, now);
        if !r.1 {
            (r.0, fails(rate_message(t, instance, op, r.2)))
        } else {
            let c = client_chosen(counted(r.0, op), env, t, instance, args);
            match c.1 {
                Err(e) => (c.0, fails(e)),
                Ok(client) => (
                    c.0,
                    StepV::Wait(
                        DemandV::OpenClient(client),
                        TaskV::Op {
                            ctx: CtxV { op, map, args, instance, tenant: t, client },
                            stage: OpStageV::Opening,
                        },
                    ),
                ),
            }
        }
    }
}

/// The service under which metadata is kept.
pub open spec fn cache_key(instance: Seq<char>, service: Option<Seq<char>>) -> Seq<Seq<char>> {
    seq![
        instance,
        match service {
            Some(s) => s,
            None => "*default*"@,
        },
    ]
}

/// Goes on with metadata that is kept, or calls for it.
pub open spec fn metadata_wanted(
    h: HandlerV,
    env: Vars,
    ctx: CtxV,
    service: Option<Seq<char>>,
    stage: MetaStageV,
    now: u64,
) -> (HandlerV, StepV) {
    match fresh(h.cache, h.cache_secs, cache_key(ctx.instance, service), now) {
        Some(md) => metadata_came(h, env, ctx, stage, Ok(md), now),
        None => (
            h,
            StepV::Wait(
                DemandV::Call(ctx.client, CallV::Metadata { service }),
                TaskV::Op { ctx, stage: OpStageV::Meta { stage, service } },
            ),
        ),
    }
}

/// The query of `read`.
pub open spec fn read_query(ctx: CtxV, entity: Seq<char>) -> QueryV {
    QueryV {
        service: ctx.text("service"@),
        entity_set: entity,
        key_segment: None,
        filter: ctx.text("filter"@),
        select: ctx.text("select"@),
        expand: ctx.text("expand"@),
        orderby: ctx.text("orderby"@),
        top: page_top(ctx.get("top"@), 25) as i64,
        skip: page_skip(ctx.get("skip"@)) as i64,
        count: ctx.truth("count"@),
    }
}

/// The query of `read_one`.
pub open spec fn read_one_query(ctx: CtxV, entity: Seq<char>, key: Seq<char>) -> QueryV {
    QueryV {
        service: ctx.text("service"@),
        entity_set: entity,
        key_segment: Some(key),
        filter: None,
        select: ctx.text("select"@),
        expand: ctx.text("expand"@),
        orderby: None,
        top: 1,
        skip: 0,
        count: false,
    }
}

/// The start of `read`.
pub open spec fn read_begun(h: HandlerV, ctx: CtxV) -> (HandlerV, StepV) {
    match ctx.entity() {
        Err(e) => (h, fails(e)),
        Ok(entity) => match cap_error(
            ctx.text("filter"@),
            ctx.text("select"@),
            ctx.text("expand"@),
        ) {
            Some(m) => (h, fails(m)),
            None => (
                h,
                StepV::Wait(
                    DemandV::Call(ctx.client, CallV::Query(read_query(ctx, entity))),
                    TaskV::Op { ctx, stage: OpStageV::Read },
                ),
            ),
        },
    }
}

/// The start of `read_one`.
pub open spec fn read_one_begun(h: HandlerV, env: Vars, ctx: CtxV, now: u64) -> (HandlerV, StepV) {
    match ctx.entity() {
        Err(e) => (h, fails(e)),
        Ok(_) => match cap_error(None, ctx.text("select"@), ctx.text("expand"@)) {
            Some(m) => (h, fails(m)),
            None => match ctx.get("keys"@) {
                None => (h, fails("missing 'keys' object"@)),
                Some(_) => metadata_wanted(
                    h,
                    env,
                    ctx,
                    ctx.text("service"@),
                    MetaStageV::ReadOneKey,
                    now,
                ),
            },
        },
    }
}

/// `preview_write`.
pub open spec fn preview_done(h: HandlerV, ctx: CtxV) -> (HandlerV, StepV) {
    match ctx.entity() {
        Err(e) => (h, fails(e)),
        Ok(entity) => match ctx.operation() {
            Err(e) => (h, fails(e)),
            Ok(operation) => {
                let payload = ctx.payload(entity, operation);
                (
                    audited(
                        h,
                        "preview"@,
                        ctx,
                        entity,
                        operation,
                        ctx.instance,
                        token_of(payload),
                        true,
                        "preview created"@,
                    ),
                    gives(previewed(payload)),
                )
            },
        },
    }
}

/// The start of `validate_write`.
pub open spec fn validate_begun(h: HandlerV, env: Vars, ctx: CtxV, now: u64) -> (HandlerV, StepV) {
    match ctx.entity() {
        Err(e) => (h, fails(e)),
        Ok(_) => match ctx.operation() {
            Err(e) => (h, fails(e)),
            Ok(_) => metadata_wanted(
                h,
                env,
                ctx,
                ctx.text("service"@),
                MetaStageV::Validate,
                now,
            ),
        },
    }
}

/// The end of `validate_write`: a write without hard faults is approved.
pub open spec fn validate_done(h: HandlerV, ctx: CtxV, md: JsonV, now: u64) -> (HandlerV, StepV) {
    match (ctx.entity(), ctx.operation()) {
        (Ok(entity), Ok(operation)) => {
            let meta = meta_of(md, entity);
            let keys = ctx.get("keys"@);
            let vals = ctx.get("values"@);
            if meta == JsonV::Null {
                (h, fails("unknown entity '"@ + entity + "'"@))
            } else if operation != "delete"@ && (vals matches Some(v) && v.members() is None) {
                (h, fails("'values' must be an object for "@ + operation))
            } else {
                let payload = ctx.payload(entity, operation);
                let issues = write_issues(md, meta, entity, operation, keys, vals);
                let stored = !hopeless(meta, operation, keys, vals);
                let h1 = if stored {
                    HandlerV {
                        approvals: registered(
                            h.approvals,
                            h.approval_secs,
                            token_of(payload),
                            payload,
                            now,
                        ),
                        ..h
                    }
                } else {
                    h
                };
                (
                    audited(
                        h1,
                        "validate"@,
                        ctx,
                        entity,
                        operation,
                        ctx.instance,
                        token_of(payload),
                        stored,
                        "issues="@ + dec(issues.len()),
                    ),
                    gives(validated(payload, stored, issues)),
                )
            }
        },
        (Err(e), _) => (h, fails(e)),
        (_, Err(e)) => (h, fails(e)),
    }
}

/// Why an approval cannot be used.
pub open spec fn not_approved() -> Seq<char> {
    "invalid, expired, or already-consumed approval token. Re-run preview->validate."@
}

/// The credentials that a write was approved with.
pub open spec fn approved_mark(payload: JsonV) -> Seq<char> {
    match payload.text_at("auth_fp"@) {
        Some(s) => s,
        None => "none"@,
    }
}

/// `execute_approved_write`, up to the write.
pub open spec fn execute_begun(h: HandlerV, env: Vars, ctx: CtxV, now: u64) -> (HandlerV, StepV) {
    if !flag(env, "SAP_MCP_ENABLE_WRITES"@) {
        (h, fails("writes disabled: set SAP_MCP_ENABLE_WRITES=1"@))
    } else {
        match ctx.get("approval"@) {
            None => (h, fails("missing 'approval' (need token from validate_write)"@)),
            Some(a) => match a.text_at("token"@) {
                None => (h, fails("approval.token missing"@)),
                Some(token) => match a.get("payload"@) {
                    None => (h, fails("approval.payload missing"@)),
                    Some(payload) => if !ctx.truth("confirm"@) {
                        (h, fails("confirm=true required"@))
                    } else {
                        execute_checked(h, env, ctx, token, payload, now)
                    },
                },
            },
        }
    }
}

/// `execute_approved_write`, with an approval: it has to be for the system and the
/// credentials of the call, and is used up.
pub open spec fn execute_checked(
    h: HandlerV,
    env: Vars,
    ctx: CtxV,
    token: Seq<char>,
    payload: JsonV,
    now: u64,
) -> (HandlerV, StepV) {
    let instance = match payload.text_at("instance"@) {
        Some(s) => s,
        None => ctx.instance,
    };
    if instance != ctx.instance {
        (
            audited(
                h,
                "execute"@,
                ctx,
                ""@,
                ""@,
                instance,
                token,
                false,
                "instance mismatch"@,
            ),
            fails(
                "approval was issued for instance '"@ + instance + "', not '"@ + ctx.instance
                    + "'"@,
            ),
        )
    } else if credential_mark(ctx.args) != approved_mark(payload) {
        (
            audited(
                h,
                "execute"@,
                ctx,
                ""@,
                ""@,
                instance,
                token,
                false,
                "auth override mismatch"@,
            ),
            fails("approval was validated with different SAP credentials"@),
        )
    } else {
        let h1 = HandlerV { approvals: used_up(h.approvals, token, payload, now), ..h };
        if !approved(h.approvals, token, payload, now) {
            (
                audited(
                    h1,
                    "execute"@,
                    ctx,
                    ""@,
                    ""@,
                    instance,
                    token,
                    false,
                    not_approved(),
                ),
                fails(not_approved()),
            )
        } else {
            payload_begun(h1, env, ctx, ExecJobV { payload, token, direct: false }, now)
        }
    }
}

/// `create`, `update` and `delete`, up to the write: what is asked for has to be what
/// was approved.
pub open spec fn direct_begun(h: HandlerV, env: Vars, ctx: CtxV, now: u64) -> (HandlerV, StepV) {
    if !flag(env, "SAP_MCP_ENABLE_WRITES"@) {
        (h, fails("writes disabled: set SAP_MCP_ENABLE_WRITES=1"@))
    } else {
        match ctx.get("approval"@) {
            None => (
                h,
                fails(
                    "gated write: call sap_preview_write + sap_validate_write first, then pass approval + confirm:true"@,
                ),
            ),
            Some(a) => {
                let token = text_member(a, "token"@);
                let payload = match a.get("payload"@) {
                    Some(p) => p,
                    None => JsonV::Obj(no_members()),
                };
                let h1 = HandlerV { approvals: used_up(h.approvals, token, payload, now), ..h };
                let instance = text_member(payload, "instance"@);
                if !ctx.truth("confirm"@) {
                    (h, fails("confirm=true required with approval"@))
                } else if !approved(h.approvals, token, payload, now) {
                    (h1, fails("invalid, expired, or already-consumed approval token"@))
                } else if instance != ctx.instance {
                    (
                        h1,
                        fails(
                            "approval was issued for instance '"@ + instance + "', not '"@
                                + ctx.instance + "'"@,
                        ),
                    )
                } else if approved_mark(payload) != credential_mark(ctx.args) {
                    (h1, fails("approval was validated with different SAP credentials"@))
                } else {
                    match ctx.entity() {
                        Err(e) => (h1, fails(e)),
                        Ok(entity) => if text_member(payload, "model"@) != entity || text_member(
                            payload,
                            "operation"@,
                        ) != ctx.op {
                            (
                                h1,
                                fails(
                                    "request does not match validated approval (entity/operation mismatch)"@,
                                ),
                            )
                        } else {
                            payload_begun(
                                h1,
                                env,
                                ctx,
                                ExecJobV { payload, token, direct: true },
                                now,
                            )
                        },
                    }
                }
            },
        }
    }
}

/// The values of an approved write.
pub open spec fn payload_values(payload: JsonV) -> JsonV {
    match payload.get("values"@) {
        Some(v) => v,
        None => JsonV::Obj(no_members()),
    }
}

/// An approved write, up to the call, or to the metadata that its key needs.
pub open spec fn payload_begun(h: HandlerV, env: Vars, ctx: CtxV, job: ExecJobV, now: u64) -> (
    HandlerV,
    StepV,
) {
    let entity = text_member(job.payload, "model"@);
    let service = job.payload.text_at("service"@);
    let operation = text_member(job.payload, "operation"@);
    if !odata_name(entity) {
        (h, fails("invalid entity name in approval"@))
    } else if !entity_open(env, entity) {
        (h, fails(blocked_message(entity)))
    } else if operation == "create"@ {
        (
            h,
            StepV::Wait(
                DemandV::Call(
                    ctx.client,
                    CallV::Create {
                        service,
                        entity_set: entity,
                        body: payload_values(job.payload),
                    },
                ),
                TaskV::Op { ctx, stage: OpStageV::Exec(job) },
            ),
        )
    } else if operation == "update"@ || operation == "delete"@ {
        metadata_wanted(h, env, ctx, service, MetaStageV::ExecKey(job), now)
    } else {
        (h, fails("unknown operation "@ + operation))
    }
}

/// The types of the properties of an entity, none where there is no metadata.
pub open spec fn known_types(md: Result<JsonV, Seq<char>>, entity: Seq<char>) -> Seq<
    (Seq<char>, Seq<char>),
> {
    match md {
        Ok(v) => types_in(array_at(meta_of(v, entity), "properties"@)),
        Err(_) => Seq::empty(),
    }
}

/// An approved change or end of an entity, up to the call.
pub open spec fn keyed_begun(
    h: HandlerV,
    ctx: CtxV,
    job: ExecJobV,
    md: Result<JsonV, Seq<char>>,
) -> (HandlerV, StepV) {
    let entity = text_member(job.payload, "model"@);
    let service = job.payload.text_at("service"@);
    let keys = match job.payload.get("keys"@) {
        Some(k) => k,
        None => JsonV::Null,
    };
    match key_text(keys, known_types(md, entity)) {
        Err(e) => (h, fails(e)),
        Ok(key_segment) => (
            h,
            StepV::Wait(
                DemandV::Call(
                    ctx.client,
                    if text_member(job.payload, "operation"@) == "update"@ {
                        CallV::Update {
                            service,
                            entity_set: entity,
                            key_segment,
                            body: payload_values(job.payload),
                            etag: job.payload.text_at("etag"@),
                        }
                    } else {
                        CallV::Delete {
                            service,
                            entity_set: entity,
                            key_segment,
                            etag: job.payload.text_at("etag"@),
                        }
                    },
                ),
                TaskV::Op { ctx, stage: OpStageV::Exec(job) },
            ),
        ),
    }
}

/// Goes on when metadata came, or the lack of it.
pub open spec fn metadata_came(
    h: HandlerV,
    env: Vars,
    ctx: CtxV,
    stage: MetaStageV,
    md: Result<JsonV, Seq<char>>,
    now: u64,
) -> (HandlerV, StepV) {
    match stage {
        MetaStageV::Discover => match md {
            Err(e) => (h, fails(e)),
            Ok(v) => (h, gives(discovered(env, ctx.text("query"@), v))),
        },
        MetaStageV::EntityMetadata => match (md, ctx.entity()) {
            (Err(e), _) => (h, fails(e)),
            (_, Err(e)) => (h, fails(e)),
            (Ok(v), Ok(entity)) => {
                let meta = meta_of(v, entity);
                if meta == JsonV::Null {
                    (h, fails("unknown entity '"@ + entity + "'"@))
                } else {
                    let a = annotated(h.acl.rules, ctx.instance, entity, meta);
                    let o = put(no_members(), "entity"@, JsonV::Str(entity));
                    let o = put(o, "metadata"@, a);
                    (h, gives(JsonV::Obj(put(o, "field_acl"@, policy_status(h.acl)))))
                }
            },
        },
        MetaStageV::ReadOneKey => match (ctx.entity(), ctx.get("keys"@)) {
            (Err(e), _) => (h, fails(e)),
            (_, None) => (h, fails("missing 'keys' object"@)),
            (Ok(entity), Some(keys)) => match key_text(keys, known_types(md, entity)) {
                Err(e) => (h, fails(e)),
                Ok(key) => (
                    h,
                    StepV::Wait(
                        DemandV::Call(
                            ctx.client,
                            CallV::Query(read_one_query(ctx, entity, key)),
                        ),
                        TaskV::Op { ctx, stage: OpStageV::Read },
                    ),
                ),
            },
        },
        MetaStageV::Validate => match md {
            Err(e) => (h, fails(e)),
            Ok(v) => validate_done(h, ctx, v, now),
        },
        MetaStageV::ExecKey(job) => keyed_begun(h, ctx, job, md),
    }
}

/// An operation with a client: the entity that it names has to be one that may be
/// touched.
pub open spec fn op_opened(h: HandlerV, env: Vars, ctx: CtxV, now: u64) -> (HandlerV, StepV) {
    if ctx.text("entity"@) matches Some(e) && !entity_open(env, e) {
        (h, fails(blocked_message(ctx.text("entity"@)->0)))
    } else if ctx.op == "discover"@ {
        metadata_wanted(h, env, ctx, ctx.text("service"@), MetaStageV::Discover, now)
    } else if ctx.op == "entity_metadata"@ {
        match ctx.entity() {
            Err(e) => (h, fails(e)),
            Ok(_) => metadata_wanted(
                h,
                env,
                ctx,
                ctx.text("service"@),
                MetaStageV::EntityMetadata,
                now,
            ),
        }
    } else if ctx.op == "read"@ {
        read_begun(h, ctx)
    } else if ctx.op == "read_one"@ {
        read_one_begun(h, env, ctx, now)
    } else if ctx.op == "preview_write"@ {
        preview_done(h, ctx)
    } else if ctx.op == "validate_write"@ {
        validate_begun(h, env, ctx, now)
    } else if ctx.op == "execute_approved_write"@ {
        execute_begun(h, env, ctx, now)
    } else if ctx.op == "create"@ || ctx.op == "update"@ || ctx.op == "delete"@ {
        direct_begun(h, env, ctx, now)
    } else {
        (h, fails("unknown op.type "@ + ctx.op))
    }
}

/// After a write was carried out.
pub open spec fn exec_done(h: HandlerV, ctx: CtxV, job: ExecJobV, result: JsonV) -> (
    HandlerV,
    StepV,
) {
    (
        audited(
            h,
            "execute"@,
            ctx,
            text_member(job.payload, "model"@),
            text_member(job.payload, "operation"@),
            ctx.instance,
            job.token,
            true,
            if job.direct {
                "ok (direct op)"@
            } else {
                "ok"@
            },
        ),
        gives(executed(result)),
    )
}

/// With metadata that came kept.
pub open spec fn with_metadata(
    h: HandlerV,
    ctx: CtxV,
    service: Option<Seq<char>>,
    answer: Result<JsonV, Seq<char>>,
    now: u64,
) -> HandlerV {
    match answer {
        Ok(md) => HandlerV {
            cache: cached(h.cache, h.cache_secs, cache_key(ctx.instance, service), md, now),
            ..h
        },
        Err(_) => h,
    }
}

/// An operation goes on with what it waited for.
pub open spec fn op_resumed(
    h: HandlerV,
    env: Vars,
    ctx: CtxV,
    stage: OpStageV,
    answer: Result<JsonV, Seq<char>>,
    now: u64,
) -> (HandlerV, StepV) {
    match stage {
        OpStageV::Opening => match answer {
            Err(e) => (h, fails(e)),
            Ok(_) => op_opened(h, env, ctx, now),
        },
        OpStageV::Meta { stage, service } => {
            metadata_came(
                with_metadata(h, ctx, service, answer, now),
                env,
                ctx,
                stage,
                answer,
                now,
            )
        },
        OpStageV::Read => match answer {
            Err(e) => (h, fails(e)),
            Ok(v) => match ctx.entity() {
                Err(e) => (h, fails(e)),
                Ok(entity) => (
                    h,
                    gives(redacted_answer(h.acl.rules, ctx.instance, entity, v)),
                ),
            },
        },
        OpStageV::Exec(job) => match answer {
            Err(e) => (h, fails(e)),
            Ok(v) => exec_done(h, ctx, job, v),
        },
    }
}

/// What reading a resource answers.
pub open spec fn contents(uri: Seq<char>, text: Seq<char>) -> JsonV {
    let c = put(no_members(), "uri"@, JsonV::Str(uri));
    let c = put(c, "text"@, JsonV::Str(text));
    JsonV::Obj(put(no_members(), "contents"@, JsonV::Arr(seq![JsonV::Obj(c)])))
}

/// The start of reading a resource.
pub open spec fn resource_begun(h: HandlerV, env: Vars, uri: Seq<char>, t: TenantV, now: u64) -> (
    HandlerV,
    StepV,
) {
    if uri == "sap://instances"@ {
        (h, gives(contents(uri, json_text(described(h.pool, t)))))
    } else {
        match t.home(h.pool.default) {
            None => (h, fails("tenant has no accessible instances"@)),
            Some(instance) => {
                let r = rate_checked(h, env, t, instance, "resources/read"@, now);
                if !r.1 {
                    (r.0, fails("rate limited"@))
                } else {
                    match r.0.pool.client(instance) {
                        None => (r.0, fails(unknown_instance(instance))),
                        Some(c) => (
                            HandlerV { pool: r.0.pool.with_client(instance, c), ..r.0 },
                            StepV::Wait(
                                DemandV::OpenClient(RefV::Pooled(instance)),
                                TaskV::Resource { uri, instance, opened: false },
                            ),
                        ),
                    }
                }
            },
        }
    }
}

/// What is wrong with the name of a resource, if anything.
pub open spec fn resource_error(env: Vars, uri: Seq<char>) -> Option<Seq<char>> {
    if uri == "sap://entities"@ {
        None
    } else {
        match after_prefix(uri, "sap://entity/"@) {
            Some(e) => if !odata_name(e) {
                Some("invalid entity name"@)
            } else if !entity_open(env, e) {
                Some(blocked_message(e))
            } else {
                None
            },
            None => Some("unknown resource "@ + uri),
        }
    }
}

/// A resource, read from metadata.
pub open spec fn resource_text(
    h: HandlerV,
    env: Vars,
    uri: Seq<char>,
    instance: Seq<char>,
    md: JsonV,
) -> Seq<char> {
    if uri == "sap://entities"@ {
        json_text(JsonV::Arr(shown_sets(env, ""@, array_at(md, "entity_sets"@))))
    } else {
        let e = match after_prefix(uri, "sap://entity/"@) {
            Some(x) => x,
            None => ""@,
        };
        json_text(annotated(h.acl.rules, instance, e, meta_of(md, e)))
    }
}

/// The reading of a resource with a client: from metadata that is kept, or after a call
/// for it.
pub open spec fn resource_opened(
    h: HandlerV,
    env: Vars,
    uri: Seq<char>,
    instance: Seq<char>,
    now: u64,
) -> (HandlerV, StepV) {
    match resource_error(env, uri) {
        Some(e) => (h, fails(e)),
        None => match fresh(h.cache, h.cache_secs, cache_key(instance, None), now) {
            Some(md) => (h, gives(contents(uri, resource_text(h, env, uri, instance, md)))),
            None => (
                h,
                StepV::Wait(
                    DemandV::Call(
                        RefV::Pooled(instance),
                        CallV::Metadata { service: None },
                    ),
                    TaskV::Resource { uri, instance, opened: true },
                ),
            ),
        },
    }
}

/// The reading of a resource goes on with what it waited for.
pub open spec fn resource_resumed(
    h: HandlerV,
    env: Vars,
    uri: Seq<char>,
    instance: Seq<char>,
    opened: bool,
    answer: Result<JsonV, Seq<char>>,
    now: u64,
) -> (HandlerV, StepV) {
    match answer {
        Err(e) => (h, fails(e)),
        Ok(md) => if opened {
            let h1 = HandlerV {
                cache: cached(h.cache, h.cache_secs, cache_key(instance, None), md, now),
                ..h
            };
            (h1, gives(contents(uri, resource_text(h1, env, uri, instance, md))))
        } else {
            resource_opened(h, env, uri, instance, now)
        },
    }
}

/// What a tool answers.
pub open spec fn content(out: JsonV) -> JsonV {
    let c = put(no_members(), "type"@, JsonV::Str("text"@));
    let c = put(c, "text"@, JsonV::Str(json_text(out)));
    JsonV::Obj(put(no_members(), "content"@, JsonV::Arr(seq![JsonV::Obj(c)])))
}

/// A step of a tool: its result is wrapped as content.
pub open spec fn tool_step(r: (HandlerV, StepV)) -> (HandlerV, StepV) {
    match r.1 {
        StepV::Done(Ok(out)) => (r.0, gives(content(out))),
        _ => r,
    }
}

/// The arguments of a tool. A text is read as JSON.
pub open spec fn tool_args(params: JsonV) -> JsonV {
    match params.get("arguments"@) {
        Some(JsonV::Str(s)) => match json_parse(s) {
            Ok(v) => v,
            Err(_) => JsonV::Obj(no_members()),
        },
        Some(v) => v,
        None => JsonV::Obj(no_members()),
    }
}

/// The call of a tool.
pub open spec fn tool_called(h: HandlerV, env: Vars, params: JsonV, t: TenantV, now: u64) -> (
    HandlerV,
    StepV,
) {
    let name = text_member(params, "name"@);
    match offered_tool(env, h.registry.tools, name) {
        None => (h, fails("unknown tool "@ + name)),
        Some(tool) => tool_step(
            op_begun(h, env, tool.op_type, tool.map, tool_args(params), t, now),
        ),
    }
}

/// A response.
pub open spec fn response(id: JsonV, result: Result<JsonV, Seq<char>>) -> JsonV {
    let o = put(no_members(), "jsonrpc"@, JsonV::Str("2.0"@));
    let o = put(o, "id"@, id);
    JsonV::Obj(
        match result {
            Ok(r) => put(o, "result"@, r),
            Err(e) => {
                let x = put(no_members(), "code"@, JsonV::Num(NumV::Neg((-32603) as i64)));
                put(o, "error"@, JsonV::Obj(put(x, "message"@, JsonV::Str(e))))
            },
        },
    )
}

/// What comes of a step: a notification gets no response.
pub open spec fn turned(id: JsonV, is_notification: bool, s: StepV) -> TurnV {
    match s {
        StepV::Done(r) => if is_notification {
            TurnV::Done(None)
        } else {
            TurnV::Done(Some(response(id, r)))
        },
        StepV::Wait(d, task) => TurnV::Wait(d, PendingV { id, is_notification, task }),
    }
}

/// No changes are announced.
pub open spec fn unchanging() -> JsonV {
    JsonV::Obj(put(no_members(), "listChanged"@, JsonV::Bool(false)))
}

/// What `initialize` answers.
pub open spec fn initialized(h: HandlerV) -> JsonV {
    let c = put(no_members(), "tools"@, unchanging());
    let c = put(c, "prompts"@, unchanging());
    let c = put(c, "resources"@, unchanging());
    let s = put(no_members(), "name"@, JsonV::Str(h.registry.server_name));
    let s = put(s, "version"@, JsonV::Str(h.version));
    let o = put(no_members(), "protocolVersion"@, JsonV::Str("2025-11-05"@));
    let o = put(o, "capabilities"@, JsonV::Obj(c));
    let o = put(o, "serverInfo"@, JsonV::Obj(s));
    JsonV::Obj(put(o, "instructions"@, JsonV::Str(h.registry.instructions)))
}

/// What is listed of a tool.
pub open spec fn tool_entry(t: ToolV) -> JsonV {
    let o = put(no_members(), "name"@, JsonV::Str(t.name));
    let o = put(o, "description"@, JsonV::Str(t.description));
    JsonV::Obj(put(o, "inputSchema"@, t.input_schema))
}

/// What `tools/list` answers.
pub open spec fn tools_listed(env: Vars, tools: Seq<ToolV>) -> JsonV {
    let l = offered_tools(env, tools);
    JsonV::Obj(
        put(no_members(), "tools"@, JsonV::Arr(Seq::new(l.len(), |i: int| tool_entry(l[i])))),
    )
}

/// What is listed of a prompt.
pub open spec fn prompt_entry(p: PromptV) -> JsonV {
    let o = put(no_members(), "name"@, JsonV::Str(p.name));
    JsonV::Obj(put(o, "description"@, JsonV::Str(p.description)))
}

/// What `prompts/list` answers.
pub open spec fn prompts_listed(prompts: Seq<PromptV>) -> JsonV {
    JsonV::Obj(
        put(
            no_members(),
            "prompts"@,
            JsonV::Arr(Seq::new(prompts.len(), |i: int| prompt_entry(prompts[i]))),
        ),
    )
}

/// The first prompt with a name.
pub open spec fn prompt_named(prompts: Seq<PromptV>, name: Seq<char>) -> Option<PromptV>
    decreases prompts.len(),
{
    if prompts.len() == 0 {
        None
    } else if prompts[0].name == name {
        Some(prompts[0])
    } else {
        prompt_named(prompts.drop_first(), name)
    }
}

/// What `prompts/get` answers.
pub open spec fn prompt_given(p: Option<PromptV>) -> JsonV {
    match p {
        Some(x) => {
            let c = put(no_members(), "type"@, JsonV::Str("text"@));
            let c = put(c, "text"@, JsonV::Str(x.content));
            let m = put(no_members(), "role"@, JsonV::Str("user"@));
            let m = put(m, "content"@, JsonV::Obj(c));
            let o = put(no_members(), "description"@, JsonV::Str(x.description));
            JsonV::Obj(put(o, "messages"@, JsonV::Arr(seq![JsonV::Obj(m)])))
        },
        None => {
            let o = put(no_members(), "description"@, JsonV::Str(""@));
            JsonV::Obj(put(o, "messages"@, JsonV::Arr(Seq::empty())))
        },
    }
}

/// What is listed of a resource.
pub open spec fn resource_entry(uri: Seq<char>, name: Seq<char>, description: Seq<char>) -> JsonV {
    let o = put(no_members(), "uri"@, JsonV::Str(uri));
    let o = put(o, "name"@, JsonV::Str(name));
    JsonV::Obj(put(o, "description"@, JsonV::Str(description)))
}

/// What `resources/list` answers.
pub open spec fn resources_listed() -> JsonV {
    JsonV::Obj(
        put(
            no_members(),
            "resources"@,
            JsonV::Arr(
                seq![
                    resource_entry(
                        "sap://instances"@,
                        "instances"@,
                        "List configured SAP systems"@,
                    ),
                    resource_entry(
                        "sap://entities"@,
                        "entities"@,
                        "List entity sets (default instance/service)"@,
                    ),
                ],
            ),
        ),
    )
}

/// The parameters of a request.
pub open spec fn params_of(req: JsonV) -> JsonV {
    match req.get("params"@) {
        Some(p) => p,
        None => JsonV::Obj(no_members()),
    }
}

/// The first step of a request.
pub open spec fn dispatched(h: HandlerV, env: Vars, req: JsonV, t: TenantV, now: u64) -> (
    HandlerV,
    StepV,
) {
    let method = text_member(req, "method"@);
    let params = params_of(req);
    if method == "initialize"@ {
        (h, gives(initialized(h)))
    } else if method == "notifications/initialized"@ || method == "initialized"@ || method
        == "ping"@ {
        (h, gives(JsonV::Obj(no_members())))
    } else if method == "tools/list"@ {
        (h, gives(tools_listed(env, h.registry.tools)))
    } else if method == "tools/call"@ {
        tool_called(h, env, params, t, now)
    } else if method == "prompts/list"@ {
        (h, gives(prompts_listed(h.registry.prompts)))
    } else if method == "prompts/get"@ {
        (
            h,
            gives(
                prompt_given(prompt_named(h.registry.prompts, text_member(params, "name"@))),
            ),
        )
    } else if method == "resources/list"@ {
        (h, gives(resources_listed()))
    } else if method == "resources/read"@ {
        resource_begun(h, env, text_member(params, "uri"@), t, now)
    } else {
        (h, fails("unknown method "@ + method))
    }
}

/// The identifier of a request, null where there is none.
pub open spec fn request_id(req: JsonV) -> JsonV {
    match req.get("id"@) {
        Some(v) => v,
        None => JsonV::Null,
    }
}

/// What comes of a request.
pub open spec fn handled(h: HandlerV, env: Vars, req: JsonV, t: TenantV, now: u64) -> (
    HandlerV,
    TurnV,
) {
    let r = dispatched(h, env, req, t, now);
    (r.0, turned(request_id(req), req.get("id"@) is None, r.1))
}

/// What comes of a request that waited.
pub open spec fn resumed(
    h: HandlerV,
    env: Vars,
    p: PendingV,
    answer: Result<JsonV, Seq<char>>,
    now: u64,
) -> (HandlerV, TurnV) {
    let r = match p.task {
        TaskV::Op { ctx, stage } => tool_step(op_resumed(h, env, ctx, stage, answer, now)),
        TaskV::Resource { uri, instance, opened } => resource_resumed(
            h,
            env,
            uri,
            instance,
            opened,
            answer,
            now,
        ),
    };
    (r.0, turned(p.id, p.is_notification, r.1))
}

fn fail(message: String) -> (r: Step)
    ensures
        r@ == fails(message@),
{
    Step::Done(Err(message))
}

fn give(v: Json) -> (r: Step)
    ensures
        r@ == gives(v@),
{
    Step::Done(Ok(v))
}

fn wait(demand: Demand, ctx: OpCtx, stage: OpStage) -> (r: Step)
    ensures
        (r@ == StepV::Wait(demand@, TaskV::Op { ctx: ctx@, stage: stage@ })),
{
    Step::Wait(demand, Task::Op { ctx, stage })
}

fn one(v: Json) -> (r: Json)
    ensures
        r@ == JsonV::Arr(seq![v@]),
{
    let mut a: Vec<Json> = Vec::new();
    assert(values(a@) =~= Seq::<JsonV>::empty());
    push_value(&mut a, v);
    assert(values(a@) =~= seq![v@]);
    Json::Array(a)
}

fn contents_json(uri: &str, text: &str) -> (r: Json)
    ensures
        r@ == contents(uri@, text@),
{
    let mut c = Object::new();
    c.set("uri", Json::str(uri));
    c.set("text", Json::str(text));
    let mut o = Object::new();
    o.set("contents", one(Json::Object(c)));
    Json::Object(o)
}

fn content_json(out: &Json) -> (r: Json)
    ensures
        r@ == content(out@),
{
    let mut c = Object::new();
    c.set("type", Json::str("text"));
    c.set("text", Json::str(out.to_text().as_str()));
    let mut o = Object::new();
    o.set("content", one(Json::Object(c)));
    Json::Object(o)
}

fn response_json(id: Json, result: Result<Json, String>) -> (r: Json)
    ensures
        r@ == response(id@, json_result(result)),
{
    let mut o = Object::new();
    o.set("jsonrpc", Json::str("2.0"));
    o.set("id", id);
    match result {
        Ok(v) => {
            o.set("result", v);
        },
        Err(e) => {
            let mut x = Object::new();
            x.set("code", Json::Number(Number::NegInt(-32603)));
            x.set("message", Json::Str(e));
            o.set("error", Json::Object(x));
        },
    }
    Json::Object(o)
}

fn copy_or_empty(v: Option<&Json>) -> (r: Json)
    ensures
        r@ == (match opt_json(v) {
            Some(x) => x,
            None => JsonV::Obj(no_members()),
        }),
{
    match v {
        Some(x) => x.copy(),
        None => Json::Object(Object::new()),
    }
}

fn turn(id: Json, is_notification: bool, s: Step) -> (r: Turn)
    ensures
        r@ == turned(id@, is_notification, s@),
{
    match s {
        Step::Done(result) => if is_notification {
            Turn::Done(None)
        } else {
            Turn::Done(Some(response_json(id, result)))
        },
        Step::Wait(demand, task) => Turn::Wait(demand, Pending { id, is_notification, task }),
    }
}

fn wrap_tool(s: Step) -> (r: Step)
    ensures
        forall|h: HandlerV| (h, r@) == #[trigger] tool_step((h, s@)),
{
    match s {
        Step::Done(Ok(out)) => Step::Done(Ok(content_json(&out))),
        other => other,
    }
}

fn read_call(ctx: &OpCtx, entity: &str) -> (r: QueryCall)
    ensures
        r@ == read_query(ctx@, entity@),
{
    QueryCall {
        service: ctx.text("service"),
        entity_set: entity.to_owned(),
        key_segment: None,
        filter: ctx.text("filter"),
        select: ctx.text("select"),
        expand: ctx.text("expand"),
        orderby: ctx.text("orderby"),
        top: clamp_top(ctx.get("top"), 25),
        skip: clamp_skip(ctx.get("skip")),
        count: ctx.truth("count"),
    }
}

fn read_one_call(ctx: &OpCtx, entity: &str, key: String) -> (r: QueryCall)
    ensures
        r@ == read_one_query(ctx@, entity@, key@),
{
    QueryCall {
        service: ctx.text("service"),
        entity_set: entity.to_owned(),
        key_segment: Some(key),
        filter: None,
        select: ctx.text("select"),
        expand: ctx.text("expand"),
        orderby: None,
        top: 1,
        skip: 0,
        count: false,
    }
}

fn as_slice(o: &Option<String>) -> (r: Option<&str>)
    ensures
        opt_slice(r) == opt_text(*o),
{
    match o {
        Some(s) => Some(s.as_str()),
        None => None,
    }
}

fn types_for(md: &Result<Json, String>, entity: &str) -> (r: StrMap<String>)
    ensures
        strings_of_map(r@) == known_types(json_result(*md), entity@),
{
    match md {
        Ok(v) => prop_types(&entity_meta(v, entity)),
        Err(_) => {
            let none: StrMap<String> = StrMap::new();
            assert(strings_of_map(none@) =~= Seq::<(Seq<char>, Seq<char>)>::empty());
            none
        },
    }
}

fn opt_text_at(v: &Json, key: &str) -> (r: Option<String>)
    ensures
        opt_text(r) == v@.text_at(key@),
{
    match v.str_at(key) {
        Some(s) => Some(s.clone()),
        None => None,
    }
}

fn mark_in(payload: &Json) -> (r: String)
    ensures
        r@ == approved_mark(payload@),
{
    match payload.str_at("auth_fp") {
        Some(s) => s.clone(),
        None => "none".to_owned(),
    }
}

impl Handler {
    /// What the server is.
    pub open spec fn view(&self) -> HandlerV {
        HandlerV {
            pool: self.pool@,
            registry: self.registry@,
            approvals: self.approvals@,
            approval_secs: self.approvals.ttl(),
            cache: self.cache@,
            cache_secs: self.cache.ttl(),
            acl: self.acl@,
            limiter: self.limiter@,
            metrics: self.metrics@,
            version: self.version@,
            notes: notes_of(self.notes@),
        }
    }

    /// A server that has answered nothing yet.
    pub fn new(pool: SapPool, registry: Registry, acl: FieldPolicy, env: &Env, version: &str) -> (r:
        Handler)
        ensures
            (r@ == HandlerV {
                pool: pool@,
                registry: registry@,
                approvals: Seq::empty(),
                approval_secs: APPROVAL_TTL_SECS as nat,
                cache: Seq::empty(),
                cache_secs: env_number(env@, "SAP_METADATA_CACHE_TTL_SECS"@, 600),
                acl: acl@,
                limiter: Seq::empty(),
                metrics: Seq::empty(),
                version: version@,
                notes: Seq::empty(),
            }),
    {
        let notes: Vec<Note> = Vec::new();
        assert(notes_of(notes@) =~= Seq::<NoteV>::empty());
        Handler {
            pool,
            registry,
            approvals: ApprovalStore::new(APPROVAL_TTL_SECS),
            cache: MetadataCache::new(metadata_cache_ttl(env)),
            acl,
            limiter: RateLimiter::new(),
            metrics: StrMap::new(),
            version: version.to_owned(),
            notes,
        }
    }

    /// The name of the server.
    pub fn server_name(&self) -> (r: &String)
        ensures
            r@ == self@.registry.server_name,
    {
        &self.registry.server_name
    }

    /// Takes the notes.
    pub fn take_notes(&mut self) -> (r: Vec<Note>)
        ensures
            notes_of(r@) == old(self)@.notes,
            (final(self)@ == HandlerV { notes: Seq::empty(), ..old(self)@ }),
    {
        let mut out: Vec<Note> = Vec::new();
        assert(notes_of(out@) =~= Seq::<NoteV>::empty());
        std::mem::swap(&mut out, &mut self.notes);
        out
    }

    fn note(&mut self, n: Note)
        ensures
            final(self)@ == noted(old(self)@, n@),
    {
        let ghost before_note = notes_of(self.notes@);
        self.notes.push(n);
        assert(notes_of(self.notes@) =~= before_note.push(n@));
    }

    fn audit(
        &mut self,
        event: &str,
        ctx: &OpCtx,
        model: &str,
        operation: &str,
        instance: &str,
        token: &str,
        ok: bool,
        detail: &str,
    )
        ensures
            final(self)@ == audited(
                old(self)@,
                event@,
                ctx@,
                model@,
                operation@,
                instance@,
                token@,
                ok,
                detail@,
            ),
    {
        let e = AuditEvent {
            event: event.to_owned(),
            actor: ctx.tenant.id().clone(),
            instance: instance.to_owned(),
            model: model.to_owned(),
            operation: operation.to_owned(),
            token: token.to_owned(),
            ok,
            detail: detail.to_owned(),
        };
        self.note(Note::Audit(e));
    }

    /// How often each operation was called for, as a JSON array in the order of the
    /// operations.
    pub fn metrics_snapshot(&self) -> (r: Json)
        ensures
            r@ == metrics_listed(self@.metrics),
    {
        let mut out: Vec<Json> = Vec::new();
        let n: usize = self.metrics.len();
        let mut i: usize = 0;
        while i < n
            invariant
                i <= n,
                n == self.metrics@.len(),
                out@.len() == i,
                forall|k: int| 0 <= k < i ==> #[trigger] out@[k]@ == metric_entry(self.metrics@[k]),
            decreases n - i,
        {
            let mut o = Object::new();
            o.set("op", Json::str(self.metrics.key_at(i).as_str()));
            o.set("calls", Json::num(*self.metrics.value_at(i)));
            out.push(Json::Object(o));
            i = i + 1;
        }
        proof {
            crate::json::lemma_values(out@);
            assert(values(out@) =~= Seq::new(n as nat, |i: int| metric_entry(self.metrics@[i])));
        }
        Json::Array(out)
    }

    fn count_op(&mut self, op: &str)
        ensures
            final(self)@ == counted(old(self)@, op@),
    {
        let n: u64 = match self.metrics.get(op) {
            Some(x) => if *x < u64::MAX {
                *x + 1
            } else {
                0
            },
            None => 1,
        };
        self.metrics.insert(op.to_owned(), n);
    }

    fn check_rate(&mut self, env: &Env, tenant: &Tenant, instance: &str, tool: &str, now: u64) -> (r: (
        bool,
        usize,
    ))
        ensures
            (final(self)@, r.0, r.1 as nat) == rate_checked(
                old(self)@,
                env@,
                tenant@,
                instance@,
                tool@,
                now,
            ),
    {
        let (ok, count) = self.limiter.check(env, tenant.id().as_str(), instance, tool, now);
        if let Some(w) = rate_warning(env, tenant.id().as_str(), instance, tool, count) {
            self.note(Note::Warn(w));
        }
        (ok, count)
    }

    /// The client that an operation goes through: that of the system, or one of its own
    /// where the call brings credentials and may do so.
    pub fn client_for(&mut self, env: &Env, tenant: &Tenant, instance: &str, args: &Json) -> (r: Result<
        ClientRef,
        String,
    >)
        ensures
            (match r {
                Ok(c) => (final(self)@, Ok::<RefV, Seq<char>>(c@)),
                Err(e) => (final(self)@, Err::<RefV, Seq<char>>(e@)),
            }) == client_chosen(old(self)@, env@, tenant@, instance@, args@),
    {
        if !has_credentials(args) {
            return match self.pool.get(instance) {
                Ok(()) => Ok(ClientRef::Pooled(instance.to_owned())),
                Err(e) => Err(e),
            };
        }
        if !tenant.is_full() || !crate::config::auth_override_allowed(env) {
            return Err(
                "per-request SAP credentials require a Full tenant and SAP_MCP_ALLOW_AUTH_OVERRIDE=1".to_owned(),
            );
        }
        match self.pool.config_for(instance) {
            Ok(cfg) => Ok(ClientRef::Override(override_config(cfg, args))),
            Err(e) => Err(e),
        }
    }

    /// Starts an operation.
    pub fn execute_op(
        &mut self,
        env: &Env,
        op: &str,
        map: &StrMap<String>,
        args: Json,
        tenant: &Tenant,
        now: u64,
    ) -> (r: Step)
        ensures
            (final(self)@, r@) == op_begun(
                old(self)@,
                env@,
                op@,
                strings_of_map(map@),
                args@,
                tenant@,
                now,
            ),
    {
        let wanted = get_text(map, &args, "instance");
        if let Some(n) = &wanted {
            if !valid_instance_name(n.as_str()) {
                return fail(cat3("invalid instance name '", n.as_str(), "'"));
            }
        }
        let instance = self.pool.resolve_name(as_slice(&wanted));
        if same(op, "list_instances") {
            return give(self.pool.describe_for(tenant));
        }
        if let Err(e) = tenant.check(instance.as_str()) {
            return fail(e);
        }
        let (ok, count) = self.check_rate(env, tenant, instance.as_str(), op, now);
        if !ok {
            let mut m = cat5(
                "rate limited: tenant '",
                tenant.id().as_str(),
                "' instance '",
                instance.as_str(),
                "' op '",
            );
            m.append(op);
            m.append("' (");
            m.append(dec_u64(count as u64).as_str());
            m.append(" calls in window)");
            return fail(m);
        }
        self.count_op(op);
        match self.client_for(env, tenant, instance.as_str(), &args) {
            Err(e) => fail(e),
            Ok(client) => {
                let demand = Demand::OpenClient(client.copy());
                let ctx = OpCtx {
                    op: op.to_owned(),
                    map: copy_map(map),
                    args,
                    instance,
                    tenant: tenant.copy(),
                    client,
                };
                wait(demand, ctx, OpStage::Opening)
            },
        }
    }

    fn want_metadata(
        &mut self,
        env: &Env,
        ctx: OpCtx,
        service: Option<String>,
        stage: MetaStage,
        now: u64,
    ) -> (r: Step)
        ensures
            (final(self)@, r@) == metadata_wanted(
                old(self)@,
                env@,
                ctx@,
                opt_text(service),
                stage@,
                now,
            ),
    {
        let key: String = match &service {
            Some(s) => s.clone(),
            None => "*default*".to_owned(),
        };
        assert(seq![ctx.instance@, key@] =~= cache_key(ctx.instance@, opt_text(service)));
        match self.cache.get(ctx.instance.as_str(), key.as_str(), now) {
            Some(md) => self.go_on(env, ctx, stage, Ok(md), now),
            None => {
                let demand = Demand::Call(
                    ctx.client.copy(),
                    ClientCall::Metadata { service: copy_opt(&service) },
                );
                wait(demand, ctx, OpStage::Meta { stage, service })
            },
        }
    }

    fn begin_read(&mut self, ctx: OpCtx) -> (r: Step)
        ensures
            (final(self)@, r@) == read_begun(old(self)@, ctx@),
    {
        let entity = match ctx.entity() {
            Ok(e) => e,
            Err(e) => {
                return fail(e);
            },
        };
        let filter = ctx.text("filter");
        let select = ctx.text("select");
        let expand = ctx.text("expand");
        if let Err(e) = check_query_caps(as_slice(&filter), as_slice(&select), as_slice(&expand)) {
            return fail(e);
        }
        let demand = Demand::Call(
            ctx.client.copy(),
            ClientCall::Query(read_call(&ctx, entity.as_str())),
        );
        wait(demand, ctx, OpStage::Read)
    }

    fn begin_read_one(&mut self, env: &Env, ctx: OpCtx, now: u64) -> (r: Step)
        ensures
            (final(self)@, r@) == read_one_begun(old(self)@, env@, ctx@, now),
    {
        if let Err(e) = ctx.entity() {
            return fail(e);
        }
        let select = ctx.text("select");
        let expand = ctx.text("expand");
        if let Err(e) = check_query_caps(None, as_slice(&select), as_slice(&expand)) {
            return fail(e);
        }
        if ctx.get("keys").is_none() {
            return fail("missing 'keys' object".to_owned());
        }
        let service = ctx.text("service");
        self.want_metadata(env, ctx, service, MetaStage::ReadOneKey, now)
    }

    fn preview(&mut self, ctx: OpCtx) -> (r: Step)
        ensures
            (final(self)@, r@) == preview_done(old(self)@, ctx@),
    {
        let entity = match ctx.entity() {
            Ok(e) => e,
            Err(e) => {
                return fail(e);
            },
        };
        let operation = match ctx.operation() {
            Ok(o) => o,
            Err(e) => {
                return fail(e);
            },
        };
        let payload = ctx.payload(entity.as_str(), operation.as_str());
        let token = build_approval_token(&payload);
        self.audit(
            "preview",
            &ctx,
            entity.as_str(),
            operation.as_str(),
            ctx.instance.as_str(),
            token.as_str(),
            true,
            "preview created",
        );
        give(preview_json(token.as_str(), &payload))
    }

    fn begin_validate(&mut self, env: &Env, ctx: OpCtx, now: u64) -> (r: Step)
        ensures
            (final(self)@, r@) == validate_begun(old(self)@, env@, ctx@, now),
    {
        if let Err(e) = ctx.entity() {
            return fail(e);
        }
        if let Err(e) = ctx.operation() {
            return fail(e);
        }
        let service = ctx.text("service");
        self.want_metadata(env, ctx, service, MetaStage::Validate, now)
    }

    fn validate(&mut self, ctx: OpCtx, md: &Json, now: u64) -> (r: Step)
        ensures
            (final(self)@, r@) == validate_done(old(self)@, ctx@, md@, now),
    {
        let entity = match ctx.entity() {
            Ok(e) => e,
            Err(e) => {
                return fail(e);
            },
        };
        let operation = match ctx.operation() {
            Ok(o) => o,
            Err(e) => {
                return fail(e);
            },
        };
        let meta = entity_meta(md, entity.as_str());
        if meta.is_null() {
            return fail(cat3("unknown entity '", entity.as_str(), "'"));
        }
        if !same(operation.as_str(), "delete") {
            if let Some(v) = ctx.get("values") {
                if v.as_object().is_none() {
                    return fail(cat2("'values' must be an object for ", operation.as_str()));
                }
            }
        }
        let payload = ctx.payload(entity.as_str(), operation.as_str());
        let token = build_approval_token(&payload);
        let (issues, hard) = check_write(
            md,
            &meta,
            entity.as_str(),
            operation.as_str(),
            ctx.get("keys"),
            ctx.get("values"),
        );
        if !hard {
            self.approvals.register(token.clone(), payload.copy(), now);
        }
        proof {
            crate::json::lemma_values(issues@);
        }
        let detail = cat2("issues=", dec_u64(issues.len() as u64).as_str());
        self.audit(
            "validate",
            &ctx,
            entity.as_str(),
            operation.as_str(),
            ctx.instance.as_str(),
            token.as_str(),
            !hard,
            detail.as_str(),
        );
        give(validate_json(token.as_str(), &payload, !hard, issues))
    }

    /// Whether writes are enabled; if not, how to enable them.
    pub fn require_writes_enabled(env: &Env) -> (r: Result<(), String>)
        ensures
            r is Ok == flag(env@, "SAP_MCP_ENABLE_WRITES"@),
            r matches Err(e) ==> e@ == "writes disabled: set SAP_MCP_ENABLE_WRITES=1"@,
    {
        if writes_enabled(env) {
            Ok(())
        } else {
            Err("writes disabled: set SAP_MCP_ENABLE_WRITES=1".to_owned())
        }
    }

    fn begin_execute(&mut self, env: &Env, ctx: OpCtx, now: u64) -> (r: Step)
        ensures
            (final(self)@, r@) == execute_begun(old(self)@, env@, ctx@, now),
    {
        if let Err(e) = Self::require_writes_enabled(env) {
            return fail(e);
        }
        let a: Json = match ctx.get("approval") {
            Some(a) => a.copy(),
            None => {
                return fail("missing 'approval' (need token from validate_write)".to_owned());
            },
        };
        let token: String = match a.str_at("token") {
            Some(t) => t.clone(),
            None => {
                return fail("approval.token missing".to_owned());
            },
        };
        let payload: Json = match a.get("payload") {
            Some(p) => p.copy(),
            None => {
                return fail("approval.payload missing".to_owned());
            },
        };
        if !ctx.truth("confirm") {
            return fail("confirm=true required".to_owned());
        }
        self.check_execute(env, ctx, token, payload, now)
    }

    fn check_execute(&mut self, env: &Env, ctx: OpCtx, token: String, payload: Json, now: u64) -> (r:
        Step)
        ensures
            (final(self)@, r@) == execute_checked(
                old(self)@,
                env@,
                ctx@,
                token@,
                payload@,
                now,
            ),
    {
        let instance: String = match payload.str_at("instance") {
            Some(s) => s.clone(),
            None => ctx.instance.clone(),
        };
        if !same(instance.as_str(), ctx.instance.as_str()) {
            self.audit(
                "execute",
                &ctx,
                "",
                "",
                instance.as_str(),
                token.as_str(),
                false,
                "instance mismatch",
            );
            return fail(
                cat5(
                    "approval was issued for instance '",
                    instance.as_str(),
                    "', not '",
                    ctx.instance.as_str(),
                    "'",
                ),
            );
        }
        if !same(auth_fp(&ctx.args).as_str(), mark_in(&payload).as_str()) {
            self.audit(
                "execute",
                &ctx,
                "",
                "",
                instance.as_str(),
                token.as_str(),
                false,
                "auth override mismatch",
            );
            return fail("approval was validated with different SAP credentials".to_owned());
        }
        if !self.approvals.consume(token.as_str(), &payload, now) {
            let reason =
                "invalid, expired, or already-consumed approval token. Re-run preview->validate.";
            self.audit(
                "execute",
                &ctx,
                "",
                "",
                instance.as_str(),
                token.as_str(),
                false,
                reason,
            );
            return fail(reason.to_owned());
        }
        self.begin_payload(env, ctx, ExecJob { payload, token, direct: false }, now)
    }

    fn begin_direct(&mut self, env: &Env, ctx: OpCtx, now: u64) -> (r: Step)
        ensures
            (final(self)@, r@) == direct_begun(old(self)@, env@, ctx@, now),
    {
        if let Err(e) = Self::require_writes_enabled(env) {
            return fail(e);
        }
        let a: Json = match ctx.get("approval") {
            Some(a) => a.copy(),
            None => {
                return fail(
                    "gated write: call sap_preview_write + sap_validate_write first, then pass approval + confirm:true".to_owned(),
                );
            },
        };
        let token = text_of_member(&a, "token");
        let payload = copy_or_empty(a.get("payload"));
        if !ctx.truth("confirm") {
            return fail("confirm=true required with approval".to_owned());
        }
        if !self.approvals.consume(token.as_str(), &payload, now) {
            return fail("invalid, expired, or already-consumed approval token".to_owned());
        }
        let instance = text_of_member(&payload, "instance");
        if !same(instance.as_str(), ctx.instance.as_str()) {
            return fail(
                cat5(
                    "approval was issued for instance '",
                    instance.as_str(),
                    "', not '",
                    ctx.instance.as_str(),
                    "'",
                ),
            );
        }
        if !same(mark_in(&payload).as_str(), auth_fp(&ctx.args).as_str()) {
            return fail("approval was validated with different SAP credentials".to_owned());
        }
        let entity = match ctx.entity() {
            Ok(e) => e,
            Err(e) => {
                return fail(e);
            },
        };
        if !same(text_of_member(&payload, "model").as_str(), entity.as_str()) || !same(
            text_of_member(&payload, "operation").as_str(),
            ctx.op.as_str(),
        ) {
            return fail(
                "request does not match validated approval (entity/operation mismatch)".to_owned(),
            );
        }
        self.begin_payload(env, ctx, ExecJob { payload, token, direct: true }, now)
    }

    /// Carries out an approved write, up to the call, or to the metadata that its key
    /// needs.
    fn begin_payload(&mut self, env: &Env, ctx: OpCtx, job: ExecJob, now: u64) -> (r: Step)
        ensures
            (final(self)@, r@) == payload_begun(old(self)@, env@, ctx@, job@, now),
    {
        let entity = text_of_member(&job.payload, "model");
        if !valid_odata_name(entity.as_str()) {
            return fail("invalid entity name in approval".to_owned());
        }
        if !entity_allowed(env, entity.as_str()) {
            return fail(blocked(entity.as_str()));
        }
        let service = opt_text_at(&job.payload, "service");
        let operation = text_of_member(&job.payload, "operation");
        if same(operation.as_str(), "create") {
            let call = ClientCall::Create {
                service,
                entity_set: entity,
                body: copy_or_empty(job.payload.get("values")),
            };
            let demand = Demand::Call(ctx.client.copy(), call);
            wait(demand, ctx, OpStage::Exec(job))
        } else if same(operation.as_str(), "update") || same(operation.as_str(), "delete") {
            self.want_metadata(env, ctx, service, MetaStage::ExecKey(job), now)
        } else {
            fail(cat2("unknown operation ", operation.as_str()))
        }
    }

    fn begin_keyed(&mut self, ctx: OpCtx, job: ExecJob, md: &Result<Json, String>) -> (r: Step)
        ensures
            (final(self)@, r@) == keyed_begun(old(self)@, ctx@, job@, json_result(*md)),
    {
        let entity = text_of_member(&job.payload, "model");
        let service = opt_text_at(&job.payload, "service");
        let keys: Json = match job.payload.get("keys") {
            Some(k) => k.copy(),
            None => Json::Null,
        };
        let types = types_for(md, entity.as_str());
        let key_segment = match key_segment_typed(&keys, &types) {
            Ok(k) => k,
            Err(e) => {
                return fail(e);
            },
        };
        let etag = opt_text_at(&job.payload, "etag");
        let call: ClientCall = if same(
            text_of_member(&job.payload, "operation").as_str(),
            "update",
        ) {
            ClientCall::Update {
                service,
                entity_set: entity,
                key_segment,
                body: copy_or_empty(job.payload.get("values")),
                etag,
            }
        } else {
            ClientCall::Delete { service, entity_set: entity, key_segment, etag }
        };
        let demand = Demand::Call(ctx.client.copy(), call);
        wait(demand, ctx, OpStage::Exec(job))
    }

    fn go_on(
        &mut self,
        env: &Env,
        ctx: OpCtx,
        stage: MetaStage,
        md: Result<Json, String>,
        now: u64,
    ) -> (r: Step)
        ensures
            (final(self)@, r@) == metadata_came(
                old(self)@,
                env@,
                ctx@,
                stage@,
                json_result(md),
                now,
            ),
    {
        match stage {
            MetaStage::Discover => match md {
                Err(e) => fail(e),
                Ok(v) => give(discover(env, &ctx.text("query"), &v)),
            },
            MetaStage::EntityMetadata => {
                let v = match md {
                    Ok(v) => v,
                    Err(e) => {
                        return fail(e);
                    },
                };
                let entity = match ctx.entity() {
                    Ok(e) => e,
                    Err(e) => {
                        return fail(e);
                    },
                };
                let meta = entity_meta(&v, entity.as_str());
                if meta.is_null() {
                    return fail(cat3("unknown entity '", entity.as_str(), "'"));
                }
                let a = annotate_acl(&self.acl, ctx.instance.as_str(), entity.as_str(), meta);
                let mut o = Object::new();
                o.set("entity", Json::str(entity.as_str()));
                o.set("metadata", a);
                o.set("field_acl", self.acl.status());
                give(Json::Object(o))
            },
            MetaStage::ReadOneKey => {
                let entity = match ctx.entity() {
                    Ok(e) => e,
                    Err(e) => {
                        return fail(e);
                    },
                };
                let keys: Json = match ctx.get("keys") {
                    Some(k) => k.copy(),
                    None => {
                        return fail("missing 'keys' object".to_owned());
                    },
                };
                let types = types_for(&md, entity.as_str());
                match key_segment_typed(&keys, &types) {
                    Err(e) => fail(e),
                    Ok(key) => {
                        let call = ClientCall::Query(read_one_call(&ctx, entity.as_str(), key));
                        let demand = Demand::Call(ctx.client.copy(), call);
                        wait(demand, ctx, OpStage::Read)
                    },
                }
            },
            MetaStage::Validate => match md {
                Err(e) => fail(e),
                Ok(v) => self.validate(ctx, &v, now),
            },
            MetaStage::ExecKey(job) => self.begin_keyed(ctx, job, &md),
        }
    }

    fn open_op(&mut self, env: &Env, ctx: OpCtx, now: u64) -> (r: Step)
        ensures
            (final(self)@, r@) == op_opened(old(self)@, env@, ctx@, now),
    {
        if let Some(e) = ctx.text("entity") {
            if !entity_allowed(env, e.as_str()) {
                return fail(blocked(e.as_str()));
            }
        }
        let op = ctx.op.clone();
        let op: &str = op.as_str();
        if same(op, "discover") {
            let service = ctx.text("service");
            self.want_metadata(env, ctx, service, MetaStage::Discover, now)
        } else if same(op, "entity_metadata") {
            if let Err(e) = ctx.entity() {
                return fail(e);
            }
            let service = ctx.text("service");
            self.want_metadata(env, ctx, service, MetaStage::EntityMetadata, now)
        } else if same(op, "read") {
            self.begin_read(ctx)
        } else if same(op, "read_one") {
            self.begin_read_one(env, ctx, now)
        } else if same(op, "preview_write") {
            self.preview(ctx)
        } else if same(op, "validate_write") {
            self.begin_validate(env, ctx, now)
        } else if same(op, "execute_approved_write") {
            self.begin_execute(env, ctx, now)
        } else if same(op, "create") || same(op, "update") || same(op, "delete") {
            self.begin_direct(env, ctx, now)
        } else {
            fail(cat2("unknown op.type ", op))
        }
    }

    /// Goes on with an operation.
    pub fn resume_op(
        &mut self,
        env: &Env,
        ctx: OpCtx,
        stage: OpStage,
        answer: Result<Json, String>,
        now: u64,
    ) -> (r: Step)
        ensures
            (final(self)@, r@) == op_resumed(
                old(self)@,
                env@,
                ctx@,
                stage@,
                json_result(answer),
                now,
            ),
    {
        match stage {
            OpStage::Opening => match answer {
                Err(e) => fail(e),
                Ok(_) => self.open_op(env, ctx, now),
            },
            OpStage::Meta { stage, service } => {
                if let Ok(md) = &answer {
                    let key: String = match &service {
                        Some(s) => s.clone(),
                        None => "*default*".to_owned(),
                    };
                    assert(seq![ctx.instance@, key@] =~= cache_key(
                        ctx.instance@,
                        opt_text(service),
                    ));
                    self.cache.insert(ctx.instance.as_str(), key.as_str(), md.copy(), now);
                }
                self.go_on(env, ctx, stage, answer, now)
            },
            OpStage::Read => match answer {
                Err(e) => fail(e),
                Ok(v) => match ctx.entity() {
                    Err(e) => fail(e),
                    Ok(entity) => give(
                        redact_collection(&self.acl, ctx.instance.as_str(), entity.as_str(), v),
                    ),
                },
            },
            OpStage::Exec(job) => match answer {
                Err(e) => fail(e),
                Ok(v) => {
                    let entity = text_of_member(&job.payload, "model");
                    let operation = text_of_member(&job.payload, "operation");
                    let detail: &str = if job.direct {
                        "ok (direct op)"
                    } else {
                        "ok"
                    };
                    self.audit(
                        "execute",
                        &ctx,
                        entity.as_str(),
                        operation.as_str(),
                        ctx.instance.as_str(),
                        job.token.as_str(),
                        true,
                        detail,
                    );
                    give(executed_json(v))
                },
            },
        }
    }

    fn on_resource_read(&mut self, env: &Env, uri: &str, tenant: &Tenant, now: u64) -> (r: Step)
        ensures
            (final(self)@, r@) == resource_begun(old(self)@, env@, uri@, tenant@, now),
    {
        if same(uri, "sap://instances") {
            let text = self.pool.describe_for(tenant).to_text();
            return give(contents_json(uri, text.as_str()));
        }
        let instance: String = match tenant.resource_default(self.pool.default_name().as_str()) {
            Some(n) => n,
            None => {
                return fail("tenant has no accessible instances".to_owned());
            },
        };
        let (ok, _count) = self.check_rate(env, tenant, instance.as_str(), "resources/read", now);
        if !ok {
            return fail("rate limited".to_owned());
        }
        if let Err(e) = self.pool.get(instance.as_str()) {
            return fail(e);
        }
        Step::Wait(
            Demand::OpenClient(ClientRef::Pooled(instance.clone())),
            Task::Resource { uri: uri.to_owned(), instance, opened: false },
        )
    }

    fn resource_fault(env: &Env, uri: &str) -> (r: Option<String>)
        ensures
            opt_text(r) == resource_error(env@, uri@),
    {
        if same(uri, "sap://entities") {
            return None;
        }
        match strip_prefix(uri, "sap://entity/") {
            Some(e) => if !valid_odata_name(e.as_str()) {
                Some("invalid entity name".to_owned())
            } else if !entity_allowed(env, e.as_str()) {
                Some(blocked(e.as_str()))
            } else {
                None
            },
            None => Some(cat2("unknown resource ", uri)),
        }
    }

    fn read_resource(&self, env: &Env, uri: &str, instance: &str, md: &Json) -> (r: Json)
        ensures
            r@ == contents(uri@, resource_text(self@, env@, uri@, instance@, md@)),
    {
        let text: String = if same(uri, "sap://entities") {
            Json::Array(list_sets(env, "", md)).to_text()
        } else {
            let e: String = match strip_prefix(uri, "sap://entity/") {
                Some(x) => x,
                None => "".to_owned(),
            };
            annotate_acl(&self.acl, instance, e.as_str(), entity_meta(md, e.as_str())).to_text()
        };
        contents_json(uri, text.as_str())
    }

    fn resume_resource(
        &mut self,
        env: &Env,
        uri: String,
        instance: String,
        opened: bool,
        answer: Result<Json, String>,
        now: u64,
    ) -> (r: Step)
        ensures
            (final(self)@, r@) == resource_resumed(
                old(self)@,
                env@,
                uri@,
                instance@,
                opened,
                json_result(answer),
                now,
            ),
    {
        let md = match answer {
            Ok(v) => v,
            Err(e) => {
                return fail(e);
            },
        };
        assert(seq![instance@, "*default*"@] =~= cache_key(instance@, None));
        if opened {
            self.cache.insert(instance.as_str(), "*default*", md.copy(), now);
            return give(self.read_resource(env, uri.as_str(), instance.as_str(), &md));
        }
        if let Some(e) = Self::resource_fault(env, uri.as_str()) {
            return fail(e);
        }
        match self.cache.get(instance.as_str(), "*default*", now) {
            Some(md) => give(self.read_resource(env, uri.as_str(), instance.as_str(), &md)),
            None => Step::Wait(
                Demand::Call(
                    ClientRef::Pooled(instance.clone()),
                    ClientCall::Metadata { service: None },
                ),
                Task::Resource { uri, instance, opened: true },
            ),
        }
    }

    fn on_initialize(&self) -> (r: Json)
        ensures
            r@ == initialized(self@),
    {
        let mut c = Object::new();
        c.set("tools", unchanging_json());
        c.set("prompts", unchanging_json());
        c.set("resources", unchanging_json());
        let mut s = Object::new();
        s.set("name", Json::str(self.registry.server_name.as_str()));
        s.set("version", Json::str(self.version.as_str()));
        let mut o = Object::new();
        o.set("protocolVersion", Json::str("2025-11-05"));
        o.set("capabilities", Json::Object(c));
        o.set("serverInfo", Json::Object(s));
        o.set("instructions", Json::str(self.registry.instructions.as_str()));
        Json::Object(o)
    }

    fn on_tools_list(&self, env: &Env) -> (r: Json)
        ensures
            r@ == tools_listed(env@, self@.registry.tools),
    {
        let tools = self.registry.list_tools(env);
        let ghost all = tools_of(tools@);
        let mut out: Vec<Json> = Vec::new();
        let mut i: usize = 0;
        while i < tools.len()
            invariant
                i <= tools@.len(),
                all == tools_of(tools@),
                out@.len() == i,
                forall|k: int| 0 <= k < i ==> #[trigger] out@[k]@ == tool_entry(all[k]),
            decreases tools@.len() - i,
        {
            let mut o = Object::new();
            o.set("name", Json::str(tools[i].name.as_str()));
            o.set("description", Json::str(tools[i].description.as_str()));
            o.set("inputSchema", tools[i].input_schema.copy());
            out.push(Json::Object(o));
            i = i + 1;
        }
        proof {
            crate::json::lemma_values(out@);
            assert(values(out@) =~= Seq::new(all.len(), |i: int| tool_entry(all[i])));
        }
        let mut o = Object::new();
        o.set("tools", Json::Array(out));
        Json::Object(o)
    }

    fn on_prompts_list(&self) -> (r: Json)
        ensures
            r@ == prompts_listed(self@.registry.prompts),
    {
        let ghost all = self@.registry.prompts;
        let mut out: Vec<Json> = Vec::new();
        let mut i: usize = 0;
        while i < self.registry.prompts.len()
            invariant
                i <= self.registry.prompts@.len(),
                all == prompts_of(self.registry.prompts@),
                out@.len() == i,
                forall|k: int| 0 <= k < i ==> #[trigger] out@[k]@ == prompt_entry(all[k]),
            decreases self.registry.prompts@.len() - i,
        {
            let p = &self.registry.prompts[i];
            let mut o = Object::new();
            o.set("name", Json::str(p.name.as_str()));
            o.set("description", Json::str(p.description.as_str()));
            out.push(Json::Object(o));
            i = i + 1;
        }
        proof {
            crate::json::lemma_values(out@);
            assert(values(out@) =~= Seq::new(all.len(), |i: int| prompt_entry(all[i])));
        }
        let mut o = Object::new();
        o.set("prompts", Json::Array(out));
        Json::Object(o)
    }

    fn on_prompt_get(&self, params: &Json) -> (r: Json)
        ensures
            r@ == prompt_given(
                prompt_named(self@.registry.prompts, text_member(params@, "name"@)),
            ),
    {
        let name = text_of_member(params, "name");
        let ghost all = self@.registry.prompts;
        let mut i: usize = 0;
        assert(all.skip(0) =~= all);
        while i < self.registry.prompts.len()
            invariant
                i <= self.registry.prompts@.len(),
                all == prompts_of(self.registry.prompts@),
                all == self@.registry.prompts,
                name@ == text_member(params@, "name"@),
                prompt_named(all, name@) == prompt_named(all.skip(i as int), name@),
            decreases self.registry.prompts@.len() - i,
        {
            let ghost rest = all.skip(i as int);
            assert(rest[0] == all[i as int]);
            assert(rest.drop_first() =~= all.skip(i + 1));
            let p = &self.registry.prompts[i];
            if same(p.name.as_str(), name.as_str()) {
                let mut c = Object::new();
                c.set("type", Json::str("text"));
                c.set("text", Json::str(p.content.as_str()));
                let mut m = Object::new();
                m.set("role", Json::str("user"));
                m.set("content", Json::Object(c));
                let mut o = Object::new();
                o.set("description", Json::str(p.description.as_str()));
                o.set("messages", one(Json::Object(m)));
                return Json::Object(o);
            }
            i = i + 1;
        }
        let none: Vec<Json> = Vec::new();
        assert(values(none@) =~= Seq::<JsonV>::empty());
        let mut o = Object::new();
        o.set("description", Json::str(""));
        o.set("messages", Json::Array(none));
        Json::Object(o)
    }

    fn on_resources_list(&self) -> (r: Json)
        ensures
            r@ == resources_listed(),
    {
        let mut out: Vec<Json> = Vec::new();
        assert(values(out@) =~= Seq::<JsonV>::empty());
        push_value(
            &mut out,
            resource_json("sap://instances", "instances", "List configured SAP systems"),
        );
        push_value(
            &mut out,
            resource_json(
                "sap://entities",
                "entities",
                "List entity sets (default instance/service)",
            ),
        );
        assert(values(out@) =~= seq![
            resource_entry("sap://instances"@, "instances"@, "List configured SAP systems"@),
            resource_entry(
                "sap://entities"@,
                "entities"@,
                "List entity sets (default instance/service)"@,
            ),
        ]);
        let mut o = Object::new();
        o.set("resources", Json::Array(out));
        Json::Object(o)
    }

    fn on_tool_call(&mut self, env: &Env, params: &Json, tenant: &Tenant, now: u64) -> (r: Step)
        ensures
            (final(self)@, r@) == tool_called(old(self)@, env@, params@, tenant@, now),
    {
        let name = text_of_member(params, "name");
        let args: Json = match params.get("arguments") {
            Some(Json::Str(s)) => match Json::parse(s.as_str()) {
                Ok(v) => v,
                Err(_) => Json::Object(Object::new()),
            },
            other => copy_or_empty(other),
        };
        let (op, map): (String, StrMap<String>) = match self.registry.get_tool(
            env,
            name.as_str(),
        ) {
            Some(t) => (t.op.op_type.clone(), copy_map(&t.op.map)),
            None => {
                return fail(cat2("unknown tool ", name.as_str()));
            },
        };
        let s = self.execute_op(env, op.as_str(), &map, args, tenant, now);
        let ghost h = self@;
        let w = wrap_tool(s);
        assert((h, w@) == tool_step((h, s@)));
        w
    }

    fn dispatch(&mut self, env: &Env, req: &Json, tenant: &Tenant, now: u64) -> (r: Step)
        ensures
            (final(self)@, r@) == dispatched(old(self)@, env@, req@, tenant@, now),
    {
        let method = text_of_member(req, "method");
        let params = copy_or_empty(req.get("params"));
        let m: &str = method.as_str();
        if same(m, "initialize") {
            give(self.on_initialize())
        } else if same(m, "notifications/initialized") || same(m, "initialized") || same(
            m,
            "ping",
        ) {
            give(Json::Object(Object::new()))
        } else if same(m, "tools/list") {
            give(self.on_tools_list(env))
        } else if same(m, "tools/call") {
            self.on_tool_call(env, &params, tenant, now)
        } else if same(m, "prompts/list") {
            give(self.on_prompts_list())
        } else if same(m, "prompts/get") {
            give(self.on_prompt_get(&params))
        } else if same(m, "resources/list") {
            give(self.on_resources_list())
        } else if same(m, "resources/read") {
            let uri = text_of_member(&params, "uri");
            self.on_resource_read(env, uri.as_str(), tenant, now)
        } else {
            fail(cat2("unknown method ", m))
        }
    }

    /// Takes a request of a caller.
    pub fn handle(&mut self, env: &Env, req: &Json, tenant: &Tenant, now: u64) -> (r: Turn)
        ensures
            (final(self)@, r@) == handled(old(self)@, env@, req@, tenant@, now),
    {
        let id: Json = match req.get("id") {
            Some(v) => v.copy(),
            None => Json::Null,
        };
        let is_notification = req.get("id").is_none();
        let s = self.dispatch(env, req, tenant, now);
        turn(id, is_notification, s)
    }

    /// Goes on with a request when what was demanded came, or why it did not.
    pub fn resume(&mut self, env: &Env, p: Pending, answer: Result<Json, String>, now: u64) -> (r:
        Turn)
        ensures
            (final(self)@, r@) == resumed(old(self)@, env@, p@, json_result(answer), now),
    {
        let s: Step = match p.task {
            Task::Op { ctx, stage } => {
                let s = self.resume_op(env, ctx, stage, answer, now);
                let ghost h = self@;
                let w = wrap_tool(s);
                assert((h, w@) == tool_step((h, s@)));
                w
            },
            Task::Resource { uri, instance, opened } => self.resume_resource(
                env,
                uri,
                instance,
                opened,
                answer,
                now,
            ),
        };
        turn(p.id, p.is_notification, s)
    }
}

fn unchanging_json() -> (r: Json)
    ensures
        r@ == unchanging(),
{
    let mut o = Object::new();
    o.set("listChanged", Json::Bool(false));
    Json::Object(o)
}

fn resource_json(uri: &str, name: &str, description: &str) -> (r: Json)
    ensures
        r@ == resource_entry(uri@, name@, description@),
{
    let mut o = Object::new();
    o.set("uri", Json::str(uri));
    o.set("name", Json::str(name));
    o.set("description", Json::str(description));
    Json::Object(o)
}

/// What is reported of an operation.
pub open spec fn metric_entry(e: (Seq<char>, u64)) -> JsonV {
    let o = put(no_members(), "op"@, JsonV::Str(e.0));
    JsonV::Obj(put(o, "calls"@, JsonV::Num(NumV::Pos(e.1))))
}

/// What is reported of the operations.
pub open spec fn metrics_listed(m: Seq<(Seq<char>, u64)>) -> JsonV {
    JsonV::Arr(Seq::new(m.len(), |i: int| metric_entry(m[i])))
}

} // verus!
