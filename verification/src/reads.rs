//! What the tools that read do with what they are given, and what they answer.

use vstd::prelude::*;
use vstd::string::*;
use crate::cache::fresh;
use crate::config::{entity_open, odata_name, page_skip, page_top, Vars};
use crate::entity::{annotated, key_literal, key_text, meta_of, redacted_answer, segments_hold_every_key};
use crate::field_acl::policy_status;
use crate::handler::{cache_key, known_types, op_opened, op_resumed, DemandV, HandlerV, MetaStageV, OpStageV, StepV, TaskV};
use crate::json::JsonV;
use crate::ops::{discovered, CtxV};
use crate::sap_client::CallV;
use crate::strmap::{find, put_is_found};
use crate::text::list_items;

verus! {

proof fn lemma_read_ops()
    ensures
        "discover"@ != "entity_metadata"@,
        "discover"@ != "read"@,
        "discover"@ != "read_one"@,
        "entity_metadata"@ != "read"@,
        "entity_metadata"@ != "read_one"@,
        "read"@ != "read_one"@,
{
    reveal_strlit("discover");
    reveal_strlit("entity_metadata");
    reveal_strlit("read");
    reveal_strlit("read_one");
    assert("discover"@.len() == 8);
    assert("entity_metadata"@.len() == 15);
    assert("read"@.len() == 4);
    assert("read_one"@.len() == 8);
    assert("discover"@[0] != "read_one"@[0]);
}

/// A read of entities asks for what the call gives: the filter, the fields, the expansions
/// and the order as they are, a page of the size that is asked for, within bounds, from the
/// offset that is asked for, and the total where it is wanted.
pub proof fn reads_ask_for_what_is_given(
    h: HandlerV,
    env: Vars,
    ctx: CtxV,
    entity: Seq<char>,
    now: u64,
)
    requires
        ctx.op == "read"@,
        ctx.text("entity"@) == Some(entity),
        odata_name(entity),
        entity_open(env, entity),
        ctx.text("filter"@) matches Some(f) ==> f.len() <= 2000,
        ctx.text("select"@) matches Some(s) ==> list_items(s).len() <= 50,
        ctx.text("expand"@) matches Some(e) ==> list_items(e).len() <= 5,
    ensures
        op_opened(h, env, ctx, now).0 == h,
        op_opened(h, env, ctx, now).1 matches StepV::Wait(DemandV::Call(client, CallV::Query(q)), t)
            && client == ctx.client && t == (TaskV::Op { ctx, stage: OpStageV::Read })
            && q.entity_set == entity && q.key_segment is None && q.service == ctx.text(
            "service"@,
        ) && q.filter == ctx.text("filter"@) && q.select == ctx.text("select"@) && q.expand
            == ctx.text("expand"@) && q.orderby == ctx.text("orderby"@) && q.top == page_top(
            ctx.get("top"@),
            25,
        ) && q.skip == page_skip(ctx.get("skip"@)) && q.count == (ctx.get("count"@) == Some(
            JsonV::Bool(true),
        )),
{
    lemma_read_ops();
    crate::config::paging_stays_in_bounds(ctx.get("top"@), 25);
}

/// A read of one entity waits for the metadata of its service, where none is kept.
pub proof fn single_reads_use_the_metadata(
    h: HandlerV,
    env: Vars,
    ctx: CtxV,
    entity: Seq<char>,
    now: u64,
)
    requires
        ctx.op == "read_one"@,
        ctx.text("entity"@) == Some(entity),
        odata_name(entity),
        entity_open(env, entity),
        ctx.text("select"@) matches Some(s) ==> list_items(s).len() <= 50,
        ctx.text("expand"@) matches Some(e) ==> list_items(e).len() <= 5,
        ctx.get("keys"@) is Some,
        fresh(h.cache, h.cache_secs, cache_key(ctx.instance, ctx.text("service"@)), now) is None,
    ensures
        op_opened(h, env, ctx, now) == (
            h,
            StepV::Wait(
                DemandV::Call(ctx.client, CallV::Metadata { service: ctx.text("service"@) }),
                TaskV::Op {
                    ctx,
                    stage: OpStageV::Meta {
                        stage: MetaStageV::ReadOneKey,
                        service: ctx.text("service"@),
                    },
                },
            ),
        ),
{
    lemma_read_ops();
}

/// A read of one entity asks for the entity of its key, written by the types that the metadata
/// gives the properties, with the fields and expansions that the call gives.
pub proof fn single_reads_ask_for_their_key(
    h: HandlerV,
    env: Vars,
    ctx: CtxV,
    service: Option<Seq<char>>,
    md: Result<JsonV, Seq<char>>,
    entity: Seq<char>,
    keys: JsonV,
    segment: Seq<char>,
    now: u64,
)
    requires
        ctx.text("entity"@) == Some(entity),
        odata_name(entity),
        ctx.get("keys"@) == Some(keys),
        key_text(keys, known_types(md, entity)) == Ok::<Seq<char>, Seq<char>>(segment),
    ensures
        op_resumed(
            h,
            env,
            ctx,
            OpStageV::Meta { stage: MetaStageV::ReadOneKey, service },
            md,
            now,
        ).1 matches StepV::Wait(DemandV::Call(client, CallV::Query(q)), t) && client == ctx.client
            && t == (TaskV::Op { ctx, stage: OpStageV::Read }) && q.entity_set == entity
            && q.key_segment == Some(segment) && q.service == ctx.text("service"@) && q.select
            == ctx.text("select"@) && q.expand == ctx.text("expand"@) && q.filter is None
            && q.orderby is None && q.skip == 0 && !q.count,
{
}

/// With one key that is the property's name and its value, by the type of the property in the
/// metadata.
pub proof fn single_keys_go_by_their_type(
    h: HandlerV,
    env: Vars,
    ctx: CtxV,
    service: Option<Seq<char>>,
    md: JsonV,
    entity: Seq<char>,
    name: Seq<char>,
    v: JsonV,
    now: u64,
)
    requires
        ctx.text("entity"@) == Some(entity),
        odata_name(entity),
        odata_name(name),
        ctx.get("keys"@) == Some(JsonV::Obj(seq![(name, v)])),
    ensures
        op_resumed(
            h,
            env,
            ctx,
            OpStageV::Meta { stage: MetaStageV::ReadOneKey, service },
            Ok(md),
            now,
        ).1 matches StepV::Wait(DemandV::Call(_, CallV::Query(q)), _) && q.key_segment == Some(
            name + seq!['='] + key_literal(find(known_types(Ok(md), entity), name), v),
        ),
{
    segments_hold_every_key(Seq::empty(), known_types(Ok(md), entity), name, v);
}

/// The types that keys are written by are those of the properties in the metadata of the
/// entity; without metadata there are none.
pub proof fn keys_use_the_types_of_the_metadata(
    md: JsonV,
    e: Seq<char>,
    entity: Seq<char>,
    a: Seq<JsonV>,
    i: int,
    name: Seq<char>,
    ty: Seq<char>,
)
    requires
        meta_of(md, entity).get("properties"@) == Some(JsonV::Arr(a)),
        0 <= i < a.len(),
        a[i].get("name"@) == Some(JsonV::Str(name)),
        a[i].get("type"@) == Some(JsonV::Str(ty)),
        forall|j: int|
            i < j < a.len() ==> (#[trigger] a[j]).get("name"@) != Some(JsonV::Str(name)),
    ensures
        find(known_types(Ok(md), entity), name) == Some(ty),
        find(known_types(Err(e), entity), name) is None,
{
    crate::entity::properties_have_their_types(a, i, name, ty);
}

/// What a read answers is what the system answered, without what is hidden; where it failed,
/// the read fails with its error.
pub proof fn reads_answer_what_came(
    h: HandlerV,
    env: Vars,
    ctx: CtxV,
    entity: Seq<char>,
    v: JsonV,
    e: Seq<char>,
    now: u64,
)
    requires
        ctx.text("entity"@) == Some(entity),
        odata_name(entity),
    ensures
        op_resumed(h, env, ctx, OpStageV::Read, Ok(v), now) == (
            h,
            StepV::Done(Ok(redacted_answer(h.acl.rules, ctx.instance, entity, v))),
        ),
        op_resumed(h, env, ctx, OpStageV::Read, Err(e), now) == (h, StepV::Done(Err(e))),
{
}

proof fn lemma_metadata_members()
    ensures
        "entity"@ != "metadata"@,
        "entity"@ != "field_acl"@,
        "metadata"@ != "field_acl"@,
{
    reveal_strlit("entity");
    reveal_strlit("metadata");
    reveal_strlit("field_acl");
    assert("entity"@.len() == 6);
    assert("metadata"@.len() == 8);
    assert("field_acl"@.len() == 9);
}

/// The metadata of an entity is answered whole, with what is hidden marked, beside its name;
/// an entity that the metadata does not have is refused.
pub proof fn metadata_is_answered_whole(
    h: HandlerV,
    env: Vars,
    ctx: CtxV,
    service: Option<Seq<char>>,
    md: JsonV,
    entity: Seq<char>,
    now: u64,
)
    requires
        ctx.text("entity"@) == Some(entity),
        odata_name(entity),
    ensures
        ({
            let r = op_resumed(
                h,
                env,
                ctx,
                OpStageV::Meta { stage: MetaStageV::EntityMetadata, service },
                Ok(md),
                now,
            ).1;
            &&& meta_of(md, entity) != JsonV::Null ==> (r matches StepV::Done(Ok(v)) && v.get(
                "entity"@,
            ) == Some(JsonV::Str(entity)) && v.get("metadata"@) == Some(
                annotated(h.acl.rules, ctx.instance, entity, meta_of(md, entity)),
            ) && v.get("field_acl"@) == Some(policy_status(h.acl)))
            &&& meta_of(md, entity) == JsonV::Null ==> r == StepV::Done(
                Err("unknown entity '"@ + entity + "'"@),
            )
        }),
{
    broadcast use put_is_found;

    lemma_metadata_members();
}

/// A discovery answers the sets of the metadata that came.
pub proof fn discoveries_answer_the_metadata(
    h: HandlerV,
    env: Vars,
    ctx: CtxV,
    service: Option<Seq<char>>,
    md: JsonV,
    now: u64,
)
    ensures
        op_resumed(
            h,
            env,
            ctx,
            OpStageV::Meta { stage: MetaStageV::Discover, service },
            Ok(md),
            now,
        ).1 == StepV::Done(Ok(discovered(env, ctx.text("query"@), md))),
{
}

/// Discoveries and metadata are asked for with the metadata of the service that is named.
pub proof fn metadata_tools_ask_for_the_metadata(
    h: HandlerV,
    env: Vars,
    ctx: CtxV,
    entity: Seq<char>,
    now: u64,
)
    requires
        fresh(h.cache, h.cache_secs, cache_key(ctx.instance, ctx.text("service"@)), now) is None,
    ensures
        ctx.op == "discover"@ && ctx.text("entity"@) is None ==> (op_opened(h, env, ctx, now).1 matches StepV::Wait(
            DemandV::Call(c, CallV::Metadata { service }),
            t,
        ) && c == ctx.client && service == ctx.text("service"@) && t == (TaskV::Op {
            ctx,
            stage: OpStageV::Meta { stage: MetaStageV::Discover, service },
        })),
        ctx.op == "entity_metadata"@ && ctx.text("entity"@) == Some(entity) && odata_name(entity)
            && entity_open(env, entity) ==> (op_opened(h, env, ctx, now).1 matches StepV::Wait(
            DemandV::Call(c, CallV::Metadata { service }),
            t,
        ) && c == ctx.client && service == ctx.text("service"@) && t == (TaskV::Op {
            ctx,
            stage: OpStageV::Meta { stage: MetaStageV::EntityMetadata, service },
        })),
{
    lemma_read_ops();
}

/// An entity that may not be touched is refused by every tool that names it.
pub proof fn closed_entities_are_refused(
    h: HandlerV,
    env: Vars,
    ctx: CtxV,
    entity: Seq<char>,
    now: u64,
)
    requires
        ctx.text("entity"@) == Some(entity),
        !entity_open(env, entity),
    ensures
        op_opened(h, env, ctx, now) == (
            h,
            StepV::Done(
                Err("entity '"@ + entity + "' blocked by SAP_ENTITY_ALLOW/SAP_ENTITY_DENY"@),
            ),
        ),
{
}

} // verus!
