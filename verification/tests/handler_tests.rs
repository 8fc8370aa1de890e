use sa_mcp::config::{single_instance, Env};
use sa_mcp::edmx::parse_edmx;
use sa_mcp::entity::{
    annotate_acl, auth_fp, check_query_caps, entity_meta, find_set, key_segment,
    key_segment_typed, prop_types, redact_collection,
};
use sa_mcp::field_acl::{FieldPolicy, PolicySource};
use sa_mcp::handler::{Demand, Handler, Note, Pending, Turn};
use sa_mcp::json::Json;
use sa_mcp::odata::normalize_collection;
use sa_mcp::ops::{get_input, get_text, pointer_field, ClientRef};
use sa_mcp::pool::SapPool;
use sa_mcp::registry::{OpSpec, PromptDef, Registry, ToolDef};
use sa_mcp::sap_client::ClientCall;
use sa_mcp::strmap::StrMap;
use sa_mcp::tenant::Tenant;

const SECONDS: u64 = 1_000_000_000;

fn js(text: &str) -> Json {
    match Json::parse(text) {
        Ok(v) => v,
        Err(e) => panic!("{}", e),
    }
}

fn policy(text: &str) -> FieldPolicy {
    FieldPolicy::load(&PolicySource::Text {
        path: "p".to_string(),
        dedicated: true,
        text: text.to_string(),
    })
}

fn types(pairs: &[(&str, &str)]) -> StrMap<String> {
    let mut m = StrMap::new();
    for (k, v) in pairs {
        m.insert(k.to_string(), v.to_string());
    }
    m
}

#[test]
fn key_segments() {
    assert_eq!(
        key_segment(&js(r#"{"BusinessPartner": "1000001"}"#)).unwrap(),
        "BusinessPartner='1000001'"
    );
    assert_eq!(key_segment(&js(r#"{"K1": "a'b", "K2": 3}"#)).unwrap(), "K1='a''b',K2=3");
    assert!(key_segment(&js("{}")).is_err());
    assert!(key_segment(&js(r#"{"a/b": 1}"#)).is_err());
    // Edm-aware: Guid quoted, Int raw even as string, Decimal M-suffix.
    let t = types(&[("G", "Guid"), ("N", "Int32"), ("A", "Decimal")]);
    assert_eq!(
        key_segment_typed(&js(r#"{"G": "abc", "N": "7", "A": 1.5}"#), &t).unwrap(),
        "A=1.5M,G='abc',N=7"
    );
}

#[test]
fn query_caps_reject_abuse() {
    assert!(check_query_caps(Some(&"x".repeat(5000)), None, None).is_err());
    assert!(check_query_caps(
        None,
        Some(&(0..60).map(|i| format!("F{i}")).collect::<Vec<_>>().join(",")),
        None
    )
    .is_err());
    assert!(check_query_caps(None, None, Some("a,b,c,d,e,f")).is_err());
    assert!(check_query_caps(Some("ID eq '1'"), Some("ID,Name"), Some("Nav")).is_ok());
}

#[test]
fn key_values_are_path_safe() {
    // spaces/slashes/unicode encoded, quotes ''-escaped but literal.
    assert_eq!(
        key_segment(&js(r#"{"Name": "a b/cüd"}"#)).unwrap(),
        "Name='a%20b%2Fc%C3%BCd'"
    );
    // hostile numeric strings fall back to quoted form.
    let t = types(&[("N", "Int32")]);
    assert_eq!(
        key_segment_typed(&js(r#"{"N": "1)/Evil("}"#), &t).unwrap(),
        "N='1%29%2FEvil%28'"
    );
    // auth fingerprint binds override identity without raw secrets.
    let a = js(r#"{"auth_username": "u", "auth_password": "p"}"#);
    let b = js(r#"{"auth_username": "u", "auth_password": "other"}"#);
    assert_ne!(auth_fp(&a), auth_fp(&b));
    assert_eq!(auth_fp(&js("{}")), "none");
    assert!(!auth_fp(&a).contains('u'));
}

#[test]
fn key_values_of_every_type() {
    let one = |ty: &str, v: &str| -> String {
        key_segment_typed(&js(&format!("{{\"K\":{}}}", v)), &types(&[("K", ty)])).unwrap()
    };
    for ty in ["String", "Guid", "Date", "DateTime", "DateTimeOffset", "Time", "Binary", "Stream"] {
        assert_eq!(one(ty, "\"a'b\""), "K='a''b'");
        assert_eq!(one(ty, "1"), "K='1'");
    }
    for ty in ["Boolean", "Byte", "SByte", "Int16", "Int32", "Int64"] {
        assert_eq!(one(ty, "\"-7\""), "K=-7");
        assert_eq!(one(ty, "\"1e3\""), "K=1e3");
        assert_eq!(one(ty, "\"true\""), "K=true");
        assert_eq!(one(ty, "\"yes\""), "K='yes'");
        assert_eq!(one(ty, "false"), "K=false");
        assert_eq!(one(ty, "-2.5e300"), "K=-2.5e+300");
        assert_eq!(one(ty, "null"), "K=null");
        assert_eq!(one(ty, "[1]"), "K='%5B1%5D'");
    }
    for ty in ["Decimal", "Double", "Single"] {
        assert_eq!(one(ty, "{}"), "K='%7B%7D'");
    }
    assert_eq!(one("Decimal", "null"), "K=nullM");
    assert_eq!(one("Double", "null"), "K=nulld");
    assert_eq!(one("Single", "null"), "K=nulld");
    assert_eq!(one("Decimal", "true"), "K=trueM");
    assert_eq!(one("Decimal", "\"1.50\""), "K=1.50M");
    assert_eq!(one("Decimal", "\"x\""), "K='x'");
    assert_eq!(one("Decimal", "2"), "K=2M");
    assert_eq!(one("Double", "\"2.5\""), "K=2.5d");
    assert_eq!(one("Single", "3"), "K=3d");
    assert_eq!(one("Single", "\"x\""), "K='x'");
    assert_eq!(one("Other", "\"x\""), "K='x'");
    assert_eq!(one("Other", "2.5"), "K=2.5");
    assert_eq!(one("Other", "true"), "K=true");
    assert_eq!(one("Other", "null"), "K='null'");
    assert_eq!(one("Other", "[1]"), "K='%5B1%5D'");
}

#[test]
fn keys_stay_in_their_segment() {
    for ty in [
        "Boolean", "Byte", "SByte", "Int16", "Int32", "Int64", "Decimal", "Double", "Single",
        "String", "Other",
    ] {
        for v in ["[\")/Evil(\"]", "{\"a/b\":\"?#& \"}", "\")/Evil(\"", "null", "1.5", "[[1],{}]"] {
            let s = key_segment_typed(&js(&format!("{{\"K\":{}}}", v)), &types(&[("K", ty)])).unwrap();
            for c in ['/', '(', ')', '?', '#', '&', ' '] {
                assert!(!s.contains(c), "{} {} {}", ty, v, s);
            }
        }
    }
    assert_eq!(
        key_segment_typed(&js(r#"{"K":[")/Evil("]}"#), &types(&[("K", "Int32")])).unwrap(),
        "K='%5B%22%29%2FEvil%28%22%5D'"
    );
}

#[test]
fn wrong_keys_are_refused() {
    assert_eq!(key_segment(&js("[1]")).unwrap_err(), "'keys' must be an object");
    assert_eq!(key_segment(&js("{}")).unwrap_err(), "'keys' must not be empty");
    assert_eq!(key_segment(&js("{\"a b\":1}")).unwrap_err(), "invalid key name 'a b'");
}

#[test]
fn credentials_have_marks() {
    // The first sixteen digits of the SHA-256 of "u\u{1f}p\u{1f}".
    assert_eq!(
        auth_fp(&js(r#"{"auth_username": "u", "auth_password": "p"}"#)),
        "ovr-0f3ad2ec1fead505"
    );
    let mark = auth_fp(&js(r#"{"auth_token": "secret"}"#));
    let digits = mark.strip_prefix("ovr-").unwrap();
    assert_eq!(digits.len(), 16);
    assert!(digits.chars().all(|c| c.is_ascii_digit() || ('a'..='f').contains(&c)));
    assert_eq!(auth_fp(&js(r#"{"auth_username": ""}"#)), "none");
    assert_eq!(auth_fp(&js(r#"{"auth_token": 5}"#)), "none");
    assert_ne!(
        auth_fp(&js(r#"{"auth_username": "a", "auth_password": "b"}"#)),
        auth_fp(&js(r#"{"auth_username": "b", "auth_password": "a"}"#))
    );
}

#[test]
fn caps_count_characters_and_items() {
    assert!(check_query_caps(Some(&"ü".repeat(2000)), None, None).is_ok());
    assert_eq!(
        check_query_caps(Some(&"ü".repeat(2001)), None, None).unwrap_err(),
        "$filter too long (max 2000 chars)"
    );
    let fields = |n: usize| (0..n).map(|i| format!("f{}", i)).collect::<Vec<_>>().join(",");
    assert!(check_query_caps(None, Some(&format!(" ,{},,", fields(50))), None).is_ok());
    assert_eq!(
        check_query_caps(None, Some(&fields(51)), None).unwrap_err(),
        "$select too broad (max 50 fields)"
    );
    assert!(check_query_caps(None, None, Some("a,b,c,d,e")).is_ok());
    assert_eq!(
        check_query_caps(None, None, Some("a,b,c,d,e,f")).unwrap_err(),
        "$expand too broad (max 5 items)"
    );
}

const METADATA: &str = r#"{
  "entity_sets":[
    {"name":"As","entity_type":"A","creatable":true,"updatable":true,"deletable":false,"addressable":true},
    {"name":"Bs","entity_type":"B","creatable":false,"updatable":false,"deletable":true,"addressable":true}
  ],
  "entity_types":{
    "A":{"keys":["K"],"properties":[{"name":"K","type":"Int32"},{"name":"N","type":"String"}]},
    "B":{"keys":["K"],"properties":[{"name":"K","type":"Guid"}]}
  }}"#;

#[test]
fn metadata_is_looked_up() {
    let md = js(METADATA);
    assert_eq!(find_set(&md, "Bs").unwrap().str_at("entity_type").unwrap(), "B");
    assert!(find_set(&md, "Cs").is_none());
    assert!(entity_meta(&md, "As").get("keys").is_some());
    assert!(entity_meta(&md, "B").get("keys").is_some());
    assert!(entity_meta(&md, "Cs").is_null());
    let t = prop_types(&entity_meta(&md, "As"));
    assert_eq!(t.get("K").unwrap(), "Int32");
    assert_eq!(t.len(), 2);
    assert_eq!(prop_types(&Json::Null).len(), 0);
}

#[test]
fn hidden_fields_are_marked_and_removed() {
    let acl = policy(r#"{"*":{"As":{"deny":["N"]}}}"#);
    let meta = annotate_acl(&acl, "i", "As", entity_meta(&js(METADATA), "As"));
    assert_eq!(
        meta.get("properties").unwrap().to_text(),
        r#"[{"name":"K","type":"Int32"},{"access":"restricted","name":"N","type":"String"}]"#
    );
    let res = redact_collection(&acl, "i", "As", js(r#"{"records":[{"N":1,"K":2},5],"count":2}"#));
    assert_eq!(res.to_text(), r#"{"count":2,"records":[{"K":2},5]}"#);
    assert_eq!(redact_collection(&acl, "i", "As", js("[1]")).to_text(), "[1]");
}

#[test]
fn inputs_are_mapped() {
    assert_eq!(pointer_field("/a/b"), "a.b");
    assert_eq!(pointer_field("//x"), "x");
    let m = types(&[("entity", "/e")]);
    assert_eq!(get_text(&m, &js(r#"{"e":"As"}"#), "entity").unwrap(), "As");
    assert!(get_text(&m, &js(r#"{"e":1}"#), "entity").is_none());
    assert!(get_input(&m, &js(r#"{"e":1}"#), "entity").is_some());
    assert!(get_input(&m, &js(r#"{"e":1}"#), "keys").is_none());
}

const INPUTS: [&str; 18] = [
    "instance", "service", "entity", "query", "filter", "select", "expand", "orderby", "top",
    "skip", "count", "keys", "values", "etag", "operation", "approval", "confirm", "unused",
];

fn tool_for(op: &str) -> ToolDef {
    let mut map = StrMap::new();
    for i in INPUTS {
        map.insert(i.to_string(), format!("/{}", i));
    }
    ToolDef {
        name: op.to_string(),
        description: "d".to_string(),
        input_schema: js("{}"),
        op: OpSpec { op_type: op.to_string(), map },
        guards: None,
        group: "read".to_string(),
    }
}

fn server(env: &Env, acl: &str) -> Handler {
    let mut sys = Env::new();
    sys.set("SAP_URL", "http://sap");
    sys.set("SAP_SERVICE", "/svc");
    sys.set("SAP_USERNAME", "u");
    let mut m = StrMap::new();
    m.insert("dev".to_string(), single_instance(&sys));
    m.insert("prod".to_string(), single_instance(&sys));
    let ops = [
        "list_instances", "discover", "entity_metadata", "read", "read_one", "preview_write",
        "validate_write", "execute_approved_write", "create", "update", "delete", "strange",
    ];
    let registry = Registry {
        tools: ops.iter().map(|o| tool_for(o)).collect(),
        prompts: vec![PromptDef {
            name: "p".to_string(),
            description: "about".to_string(),
            content: "text".to_string(),
        }],
        server_name: "srv".to_string(),
        instructions: "how".to_string(),
    };
    Handler::new(SapPool::new("dev".to_string(), m), registry, policy(acl), env, "1.2.3")
}

fn full() -> Tenant {
    Tenant::Full { id: "admin".to_string() }
}

fn only(name: &str) -> Tenant {
    Tenant::Restricted { id: "t-1".to_string(), instances: vec![name.to_string()] }
}

fn call_of(op: &str, args: &str) -> Json {
    js(&format!(
        r#"{{"jsonrpc":"2.0","id":7,"method":"tools/call","params":{{"name":"{}","arguments":{}}}}}"#,
        op, args
    ))
}

fn waits(t: Turn) -> (Demand, Pending) {
    match t {
        Turn::Wait(d, p) => (d, p),
        Turn::Done(Some(v)) => panic!("answered: {}", v.to_text()),
        Turn::Done(None) => panic!("ended"),
    }
}

fn done(t: Turn) -> Json {
    match t {
        Turn::Done(Some(v)) => v,
        _ => panic!("answer expected"),
    }
}

fn error_of(v: &Json) -> String {
    v.get("error").unwrap().str_at("message").unwrap().clone()
}

fn text_of_answer(v: &Json) -> String {
    let c = match v.get("result") {
        Some(r) => r.get("content").unwrap().as_array().unwrap(),
        None => panic!("{}", v.to_text()),
    };
    assert_eq!(c[0].str_at("type").unwrap(), "text");
    c[0].str_at("text").unwrap().clone()
}

fn begin(h: &mut Handler, env: &Env, t: &Tenant, op: &str, args: &str, now: u64) -> Turn {
    match h.handle(env, &call_of(op, args), t, now) {
        Turn::Wait(Demand::OpenClient(_), p) => h.resume(env, p, Ok(Json::Null), now),
        other => other,
    }
}

fn metadata_of(h: &mut Handler, env: &Env, turn: Turn, now: u64) -> Turn {
    match waits(turn) {
        (Demand::Call(_, ClientCall::Metadata { .. }), p) => h.resume(env, p, Ok(js(METADATA)), now),
        _ => panic!("metadata expected"),
    }
}

#[test]
fn simple_methods() {
    let env = Env::new();
    let mut h = server(&env, "{}");
    let mut ask = |text: &str| -> String { done(h.handle(&env, &js(text), &full(), 0)).to_text() };
    assert_eq!(
        ask(r#"{"id":1,"method":"initialize"}"#),
        r#"{"id":1,"jsonrpc":"2.0","result":{"capabilities":{"prompts":{"listChanged":false},"resources":{"listChanged":false},"tools":{"listChanged":false}},"instructions":"how","protocolVersion":"2025-11-05","serverInfo":{"name":"srv","version":"1.2.3"}}}"#
    );
    assert_eq!(ask(r#"{"id":"x","method":"ping"}"#), r#"{"id":"x","jsonrpc":"2.0","result":{}}"#);
    assert_eq!(ask(r#"{"id":null,"method":"initialized"}"#), r#"{"id":null,"jsonrpc":"2.0","result":{}}"#);
    assert_eq!(
        ask(r#"{"id":1,"method":"nope"}"#),
        r#"{"error":{"code":-32603,"message":"unknown method nope"},"id":1,"jsonrpc":"2.0"}"#
    );
    assert_eq!(
        ask(r#"{"id":1,"method":"prompts/list"}"#),
        r#"{"id":1,"jsonrpc":"2.0","result":{"prompts":[{"description":"about","name":"p"}]}}"#
    );
    assert_eq!(
        ask(r#"{"id":1,"method":"prompts/get","params":{"name":"p"}}"#),
        r#"{"id":1,"jsonrpc":"2.0","result":{"description":"about","messages":[{"content":{"text":"text","type":"text"},"role":"user"}]}}"#
    );
    assert_eq!(
        ask(r#"{"id":1,"method":"prompts/get","params":{"name":"q"}}"#),
        r#"{"id":1,"jsonrpc":"2.0","result":{"description":"","messages":[]}}"#
    );
    assert!(ask(r#"{"id":1,"method":"tools/list"}"#).contains(r#"{"description":"d","inputSchema":{},"name":"discover"}"#));
    assert_eq!(
        ask(r#"{"id":1,"method":"resources/list"}"#),
        r#"{"id":1,"jsonrpc":"2.0","result":{"resources":[{"description":"List configured SAP systems","name":"instances","uri":"sap://instances"},{"description":"List entity sets (default instance/service)","name":"entities","uri":"sap://entities"}]}}"#
    );
    assert_eq!(h.server_name(), "srv");
}

#[test]
fn notifications_get_no_answer() {
    let env = Env::new();
    let mut h = server(&env, "{}");
    for m in ["ping", "nope", "tools/call"] {
        let req = js(&format!(r#"{{"method":"{}"}}"#, m));
        assert!(matches!(h.handle(&env, &req, &full(), 0), Turn::Done(None)));
    }
    let req = js(r#"{"method":"tools/call","params":{"name":"discover"}}"#);
    let (_, p) = waits(h.handle(&env, &req, &full(), 0));
    assert!(matches!(h.resume(&env, p, Err("x".to_string()), 0), Turn::Done(None)));
}

#[test]
fn systems_are_kept_apart() {
    let env = Env::new();
    let mut h = server(&env, "{}");
    let t = only("prod");
    let v = done(h.handle(&env, &call_of("discover", r#"{"instance":"dev"}"#), &t, 0));
    assert_eq!(error_of(&v), "tenant 't-1' has no access to instance 'dev'");
    // The default system is not the caller's either.
    let v = done(h.handle(&env, &call_of("discover", "{}"), &t, 0));
    assert_eq!(error_of(&v), "tenant 't-1' has no access to instance 'dev'");
    let (d, _) = waits(h.handle(&env, &call_of("discover", r#"{"instance":"prod"}"#), &t, 0));
    assert!(matches!(d, Demand::OpenClient(ClientRef::Pooled(n)) if n == "prod"));
    let v = done(h.handle(&env, &call_of("list_instances", "{}"), &t, 0));
    let list = js(&text_of_answer(&v));
    assert_eq!(list.as_array().unwrap().len(), 1);
    assert_eq!(list.as_array().unwrap()[0].str_at("name").unwrap(), "prod");
    let v = done(h.handle(&env, &call_of("discover", r#"{"instance":"a/b"}"#), &full(), 0));
    assert_eq!(error_of(&v), "invalid instance name 'a/b'");
    let v = done(h.handle(&env, &call_of("discover", r#"{"instance":"zz"}"#), &full(), 0));
    assert_eq!(error_of(&v), "unknown instance 'zz'");
    let v = done(h.handle(&env, &call_of("missing", "{}"), &full(), 0));
    assert_eq!(error_of(&v), "unknown tool missing");
    let v = done(begin(&mut h, &env, &full(), "strange", "{}", 0));
    assert_eq!(error_of(&v), "unknown op.type strange");
}

#[test]
fn discovery_is_cached_and_filtered() {
    let mut env = Env::new();
    let mut h = server(&env, "{}");
    let turn = begin(&mut h, &env, &full(), "discover", "{}", 0);
    let v = done(metadata_of(&mut h, &env, turn, 0));
    assert_eq!(
        text_of_answer(&v),
        [
            r#"{"count":2,"entities":[{"creatable":true,"deletable":false,"entity_type":"A","name":"As","updatable":true},"#,
            r#"{"creatable":false,"deletable":true,"entity_type":"B","name":"Bs","updatable":false}]}"#
        ]
        .concat()
    );
    // Ten minutes later the metadata is still good.
    let v = done(begin(&mut h, &env, &full(), "discover", r#"{"query":"bS"}"#, 600 * SECONDS));
    assert!(text_of_answer(&v).starts_with(r#"{"count":1,"entities":[{"creatable":false"#));
    env.set("SAP_ENTITY_DENY", "B*");
    let v = done(begin(&mut h, &env, &full(), "discover", "{}", 1));
    assert!(text_of_answer(&v).contains("\"count\":1"));
    // After that it is fetched again, and so it is for another service.
    waits(begin(&mut h, &env, &full(), "discover", "{}", 600 * SECONDS + 1));
    let (d, p) = waits(begin(&mut h, &env, &full(), "discover", r#"{"service":"/x"}"#, 1));
    assert!(matches!(d, Demand::Call(_, ClientCall::Metadata { service: Some(s) }) if s == "/x"));
    let v = done(h.resume(&env, p, Err("boom".to_string()), 1));
    assert_eq!(error_of(&v), "boom");
}

#[test]
fn arguments_may_be_texts() {
    let env = Env::new();
    let mut h = server(&env, "{}");
    let req = js(r#"{"id":1,"method":"tools/call","params":{"name":"discover","arguments":"{\"instance\":\"prod\"}"}}"#);
    let (d, _) = waits(h.handle(&env, &req, &full(), 0));
    assert!(matches!(d, Demand::OpenClient(ClientRef::Pooled(n)) if n == "prod"));
    let req = js(r#"{"id":1,"method":"tools/call","params":{"name":"discover","arguments":"{"}}"#);
    let (d, _) = waits(h.handle(&env, &req, &full(), 0));
    assert!(matches!(d, Demand::OpenClient(ClientRef::Pooled(n)) if n == "dev"));
}

#[test]
fn metadata_of_one_entity() {
    let env = Env::new();
    let mut h = server(&env, r#"{"*":{"*":{"deny":["N"]}}}"#);
    let turn = begin(&mut h, &env, &full(), "entity_metadata", r#"{"entity":"As"}"#, 0);
    let v = js(&text_of_answer(&done(metadata_of(&mut h, &env, turn, 0))));
    assert_eq!(v.str_at("entity").unwrap(), "As");
    assert!(v.get("metadata").unwrap().to_text().contains("restricted"));
    assert_eq!(v.get("field_acl").unwrap().get("enabled").unwrap().as_bool(), Some(true));
    let v = done(begin(&mut h, &env, &full(), "entity_metadata", r#"{"entity":"Zs"}"#, 0));
    assert_eq!(error_of(&v), "unknown entity 'Zs'");
    let v = done(begin(&mut h, &env, &full(), "entity_metadata", "{}", 0));
    assert_eq!(error_of(&v), "missing 'entity'");
    let v = done(begin(&mut h, &env, &full(), "entity_metadata", r#"{"entity":"a-b"}"#, 0));
    assert_eq!(error_of(&v), "invalid entity name 'a-b'");
}

#[test]
fn reads_are_queries() {
    let env = Env::new();
    let mut h = server(&env, r#"{"*":{"*":{"deny":["N"]}}}"#);
    let args = r#"{"entity":"As","filter":"f","select":"K","expand":"E","orderby":"K","top":500,"skip":-1,"count":true}"#;
    let (d, p) = waits(begin(&mut h, &env, &full(), "read", args, 0));
    match d {
        Demand::Call(ClientRef::Pooled(n), ClientCall::Query(q)) => {
            assert_eq!(n, "dev");
            assert_eq!(q.entity_set, "As");
            assert_eq!((q.top, q.skip, q.count), (200, 0, true));
            assert_eq!(q.filter.unwrap(), "f");
            assert_eq!(q.select.unwrap(), "K");
            assert_eq!(q.expand.unwrap(), "E");
            assert_eq!(q.orderby.unwrap(), "K");
            assert!(q.key_segment.is_none() && q.service.is_none());
        }
        _ => panic!("query expected"),
    }
    let v = done(h.resume(&env, p, Ok(js(r#"{"records":[{"K":1,"N":2}],"count":1}"#)), 0));
    assert_eq!(text_of_answer(&v), r#"{"count":1,"records":[{"K":1}]}"#);
    // A single entity of the second version of the protocol is stripped as well.
    let (_, p) = waits(begin(&mut h, &env, &full(), "read", r#"{"entity":"As"}"#, 0));
    let answer = normalize_collection(&js(r#"{"d":{"K":1,"N":"hidden"}}"#));
    let v = done(h.resume(&env, p, Ok(answer), 0));
    assert_eq!(text_of_answer(&v), r#"{"count":1,"records":[{"K":1}]}"#);
    let long = format!(r#"{{"entity":"As","filter":"{}"}}"#, "x".repeat(2001));
    let v = done(begin(&mut h, &env, &full(), "read", &long, 0));
    assert_eq!(error_of(&v), "$filter too long (max 2000 chars)");
}

#[test]
fn single_reads_use_typed_keys() {
    let env = Env::new();
    let mut h = server(&env, "{}");
    let args = r#"{"entity":"As","keys":{"K":"7"}}"#;
    let turn = begin(&mut h, &env, &full(), "read_one", args, 0);
    let (d, p) = waits(metadata_of(&mut h, &env, turn, 0));
    match d {
        Demand::Call(_, ClientCall::Query(q)) => {
            assert_eq!(q.key_segment.unwrap(), "K=7");
            assert_eq!((q.top, q.skip, q.count), (1, 0, false));
        }
        _ => panic!("query expected"),
    }
    let v = done(h.resume(&env, p, Ok(js(r#"{"records":[],"count":0}"#)), 0));
    assert_eq!(text_of_answer(&v), r#"{"count":0,"records":[]}"#);
    // Without metadata, texts are quoted.
    let mut h = server(&env, "{}");
    let (_, p) = waits(begin(&mut h, &env, &full(), "read_one", args, 0));
    let (d, _) = waits(h.resume(&env, p, Err("none".to_string()), 0));
    assert!(matches!(d, Demand::Call(_, ClientCall::Query(q)) if q.key_segment.as_deref() == Some("K='7'")));
    let v = done(begin(&mut h, &env, &full(), "read_one", r#"{"entity":"As"}"#, 0));
    assert_eq!(error_of(&v), "missing 'keys' object");
}

#[test]
fn closed_entities_are_refused() {
    let mut env = Env::new();
    env.set("SAP_ENTITY_ALLOW", "As");
    let mut h = server(&env, "{}");
    let v = done(begin(&mut h, &env, &full(), "read", r#"{"entity":"Bs"}"#, 0));
    assert_eq!(error_of(&v), "entity 'Bs' blocked by SAP_ENTITY_ALLOW/SAP_ENTITY_DENY");
    waits(begin(&mut h, &env, &full(), "read", r#"{"entity":"As"}"#, 0));
}

#[test]
fn limits_are_kept() {
    let mut env = Env::new();
    env.set("SAP_MCP_RATE_LIMIT_MODE", "block");
    env.set("SAP_MCP_RATE_LIMIT_MAX_CALLS", "1");
    let mut h = server(&env, "{}");
    waits(h.handle(&env, &call_of("discover", "{}"), &full(), 0));
    let v = done(h.handle(&env, &call_of("discover", "{}"), &full(), 1));
    assert_eq!(
        error_of(&v),
        "rate limited: tenant 'admin' instance 'dev' op 'discover' (2 calls in window)"
    );
    waits(h.handle(&env, &call_of("read", "{}"), &full(), 1));
    assert_eq!(
        h.metrics_snapshot().to_text(),
        r#"[{"calls":1,"op":"discover"},{"calls":1,"op":"read"}]"#
    );
    env.set("SAP_MCP_RATE_LIMIT_MODE", "warn");
    waits(h.handle(&env, &call_of("entity_metadata", "{}"), &full(), 1));
    assert!(h.take_notes().is_empty());
    waits(h.handle(&env, &call_of("entity_metadata", "{}"), &full(), 1));
    let notes = h.take_notes();
    assert_eq!(notes.len(), 1);
    match &notes[0] {
        Note::Warn(w) => assert_eq!(
            w,
            "[sa-mcp] rate warn tenant=admin instance=dev tool=entity_metadata count=2"
        ),
        _ => panic!("warning expected"),
    }
    assert!(h.take_notes().is_empty());
}

#[test]
fn own_credentials_have_to_be_allowed() {
    let mut env = Env::new();
    let mut h = server(&env, "{}");
    let args = r#"{"auth_username":"me","auth_password":"pw"}"#;
    let refused = "per-request SAP credentials require a Full tenant and SAP_MCP_ALLOW_AUTH_OVERRIDE=1";
    let v = done(h.handle(&env, &call_of("discover", args), &full(), 0));
    assert_eq!(error_of(&v), refused);
    env.set("SAP_MCP_ALLOW_AUTH_OVERRIDE", "1");
    let v = done(h.handle(&env, &call_of("discover", args), &only("dev"), 0));
    assert_eq!(error_of(&v), refused);
    let (d, _) = waits(h.handle(&env, &call_of("discover", args), &full(), 0));
    match d {
        Demand::OpenClient(ClientRef::Override(cfg)) => {
            assert_eq!(cfg.username.unwrap(), "me");
            assert_eq!(cfg.password.unwrap(), "pw");
            assert_eq!(cfg.auth_type, "basic");
        }
        _ => panic!("client expected"),
    }
    let (d, _) = waits(h.handle(&env, &call_of("discover", r#"{"auth_token":"j"}"#), &full(), 0));
    match d {
        Demand::OpenClient(ClientRef::Override(cfg)) => {
            assert_eq!(cfg.token.unwrap(), "j");
            assert_eq!(cfg.auth_type, "bearer");
        }
        _ => panic!("client expected"),
    }
}

#[test]
fn clients_may_fail_to_open() {
    let env = Env::new();
    let mut h = server(&env, "{}");
    let (_, p) = waits(h.handle(&env, &call_of("discover", "{}"), &full(), 0));
    let v = done(h.resume(&env, p, Err("build http client".to_string()), 0));
    assert_eq!(error_of(&v), "build http client");
}

fn audit_of(n: &Note) -> (String, bool, String) {
    match n {
        Note::Audit(e) => (e.event.clone(), e.ok, e.detail.clone()),
        Note::Warn(w) => panic!("{}", w),
    }
}

fn approve(h: &mut Handler, env: &Env, t: &Tenant, args: &str, now: u64) -> Json {
    let v = match begin(h, env, t, "validate_write", args, now) {
        Turn::Done(Some(v)) => v,
        turn => done(metadata_of(h, env, turn, now)),
    };
    js(&text_of_answer(&v))
}

fn execution(approval: &Json, more: &str) -> String {
    format!(r#"{{"approval":{},"confirm":true{}}}"#, approval.to_text(), more)
}

#[test]
fn writes_go_through_preview_validation_and_execution() {
    let mut env = Env::new();
    env.set("SAP_MCP_ENABLE_WRITES", "true");
    let mut h = server(&env, "{}");
    let args = r#"{"entity":"As","operation":"create","values":{"N":"x"}}"#;
    let pre = js(&text_of_answer(&done(begin(&mut h, &env, &full(), "preview_write", args, 0))));
    assert_eq!(
        pre.get("preview").unwrap().to_text(),
        r#"{"auth_fp":"none","etag":null,"instance":"dev","keys":null,"model":"As","operation":"create","service":null,"values":{"N":"x"}}"#
    );
    assert_eq!(pre.str_at("next").unwrap(), "call sap_validate_write with same payload");
    // A preview approves nothing.
    let ex = execution(pre.get("approval").unwrap(), "");
    let v = done(begin(&mut h, &env, &full(), "execute_approved_write", &ex, 0));
    assert_eq!(
        error_of(&v),
        "invalid, expired, or already-consumed approval token. Re-run preview->validate."
    );
    let val = approve(&mut h, &env, &full(), args, 0);
    assert_eq!(val.get("issues").unwrap().to_text(), "[]");
    assert_eq!(
        val.get("approval_status").unwrap().to_text(),
        r#"{"expires_in_seconds":600,"stored":true}"#
    );
    assert_eq!(val.str_at("metadata_source").unwrap(), "server");
    assert!(val.get("approval").unwrap().equals(pre.get("approval").unwrap()));
    let ex = execution(val.get("approval").unwrap(), "");
    let (d, p) = waits(begin(&mut h, &env, &full(), "execute_approved_write", &ex, 599 * SECONDS));
    match d {
        Demand::Call(_, ClientCall::Create { service, entity_set, body }) => {
            assert!(service.is_none());
            assert_eq!(entity_set, "As");
            assert_eq!(body.to_text(), r#"{"N":"x"}"#);
        }
        _ => panic!("write expected"),
    }
    let v = done(h.resume(&env, p, Ok(js(r#"{"d":{}}"#)), 599 * SECONDS));
    assert_eq!(text_of_answer(&v), r#"{"result":{"d":{}},"success":true}"#);
    // The approval is used up.
    let v = done(begin(&mut h, &env, &full(), "execute_approved_write", &ex, 599 * SECONDS));
    assert!(error_of(&v).starts_with("invalid, expired"));
    let notes: Vec<(String, bool, String)> = h.take_notes().iter().map(audit_of).collect();
    let want = |e: &str, ok: bool, d: &str| (e.to_string(), ok, d.to_string());
    let not = "invalid, expired, or already-consumed approval token. Re-run preview->validate.";
    assert_eq!(
        notes,
        vec![
            want("preview", true, "preview created"),
            want("execute", false, not),
            want("validate", true, "issues=0"),
            want("execute", true, "ok"),
            want("execute", false, not),
        ]
    );
}

#[test]
fn approvals_have_an_end() {
    let mut env = Env::new();
    env.set("SAP_MCP_ENABLE_WRITES", "1");
    let mut h = server(&env, "{}");
    let val = approve(&mut h, &env, &full(), r#"{"entity":"As","values":{}}"#, 0);
    let ex = execution(val.get("approval").unwrap(), "");
    let v = done(begin(&mut h, &env, &full(), "execute_approved_write", &ex, 600 * SECONDS));
    assert!(error_of(&v).starts_with("invalid, expired"));
}

#[test]
fn writes_have_to_be_enabled_and_confirmed() {
    let mut env = Env::new();
    let mut h = server(&env, "{}");
    for op in ["execute_approved_write", "create", "update", "delete"] {
        let v = done(begin(&mut h, &env, &full(), op, "{}", 0));
        assert_eq!(error_of(&v), "writes disabled: set SAP_MCP_ENABLE_WRITES=1");
    }
    env.set("SAP_MCP_ENABLE_WRITES", "yes");
    let mut fails = |op: &str, args: &str| -> String {
        error_of(&done(begin(&mut h, &env, &full(), op, args, 0)))
    };
    assert_eq!(
        fails("execute_approved_write", "{}"),
        "missing 'approval' (need token from validate_write)"
    );
    assert_eq!(fails("execute_approved_write", r#"{"approval":{}}"#), "approval.token missing");
    assert_eq!(
        fails("execute_approved_write", r#"{"approval":{"token":"t"}}"#),
        "approval.payload missing"
    );
    assert_eq!(
        fails("execute_approved_write", r#"{"approval":{"token":"t","payload":{}}}"#),
        "confirm=true required"
    );
    assert_eq!(
        fails("execute_approved_write", r#"{"approval":{"token":"t","payload":{"instance":"prod"}},"confirm":true}"#),
        "approval was issued for instance 'prod', not 'dev'"
    );
    assert_eq!(
        fails("execute_approved_write", r#"{"approval":{"token":"t","payload":{"auth_fp":"ovr-1"}},"confirm":true}"#),
        "approval was validated with different SAP credentials"
    );
    assert_eq!(
        fails("create", "{}"),
        "gated write: call sap_preview_write + sap_validate_write first, then pass approval + confirm:true"
    );
    assert_eq!(fails("create", r#"{"approval":{}}"#), "confirm=true required with approval");
    assert_eq!(
        fails("create", r#"{"approval":{},"confirm":true}"#),
        "invalid, expired, or already-consumed approval token"
    );
    assert_eq!(
        fails("preview_write", r#"{"entity":"As","operation":"drop"}"#),
        "invalid operation 'drop' (create|update|delete)"
    );
}

#[test]
fn changes_and_ends_use_keys() {
    let mut env = Env::new();
    env.set("SAP_MCP_ENABLE_WRITES", "1");
    let mut h = server(&env, "{}");
    let args = r#"{"entity":"As","operation":"update","keys":{"K":"5"},"values":{"N":"y"},"etag":"W/9"}"#;
    let val = approve(&mut h, &env, &full(), args, 0);
    let ex = execution(val.get("approval").unwrap(), "");
    let (d, _) = waits(begin(&mut h, &env, &full(), "execute_approved_write", &ex, 1));
    match d {
        Demand::Call(_, ClientCall::Update { entity_set, key_segment, body, etag, .. }) => {
            assert_eq!((entity_set.as_str(), key_segment.as_str()), ("As", "K=5"));
            assert_eq!(body.to_text(), r#"{"N":"y"}"#);
            assert_eq!(etag.unwrap(), "W/9");
        }
        _ => panic!("change expected"),
    }
    let args = r#"{"entity":"Bs","operation":"delete","keys":{"K":"5"}}"#;
    let val = approve(&mut h, &env, &full(), args, 0);
    assert_eq!(val.get("issues").unwrap().to_text(), "[]");
    let ex = execution(val.get("approval").unwrap(), r#","entity":"Bs""#);
    let (d, p) = waits(begin(&mut h, &env, &full(), "delete", &ex, 1));
    match d {
        Demand::Call(_, ClientCall::Delete { entity_set, key_segment, etag, .. }) => {
            assert_eq!((entity_set.as_str(), key_segment.as_str()), ("Bs", "K='5'"));
            assert!(etag.is_none());
        }
        _ => panic!("end expected"),
    }
    h.take_notes();
    let v = done(h.resume(&env, p, Ok(js(r#"{"success":true}"#)), 1));
    assert_eq!(text_of_answer(&v), r#"{"result":{"success":true},"success":true}"#);
    let notes = h.take_notes();
    assert_eq!(notes.len(), 1);
    assert_eq!(audit_of(&notes[0]).2, "ok (direct op)");
}

#[test]
fn direct_writes_have_to_match() {
    let mut env = Env::new();
    env.set("SAP_MCP_ENABLE_WRITES", "1");
    let mut h = server(&env, "{}");
    let args = r#"{"entity":"As","values":{"N":"x"}}"#;
    let mut try_with = |op: &str, more: &str| -> String {
        let val = approve(&mut h, &env, &full(), args, 0);
        let ex = execution(val.get("approval").unwrap(), more);
        error_of(&done(begin(&mut h, &env, &full(), op, &ex, 1)))
    };
    let mismatch = "request does not match validated approval (entity/operation mismatch)";
    assert_eq!(try_with("create", r#","entity":"Bs""#), mismatch);
    assert_eq!(try_with("update", r#","entity":"As""#), mismatch);
    assert_eq!(try_with("create", ""), "missing 'entity'");
    assert_eq!(
        try_with("create", r#","entity":"As","instance":"prod""#),
        "approval was issued for instance 'dev', not 'prod'"
    );
    let val = approve(&mut h, &env, &full(), args, 0);
    let ex = execution(val.get("approval").unwrap(), r#","entity":"As""#);
    waits(begin(&mut h, &env, &full(), "create", &ex, 1));
}

#[test]
fn validation_reports_issues() {
    let env = Env::new();
    let mut h = server(&env, "{}");
    let mut check = |args: &str| -> (String, bool) {
        let v = approve(&mut h, &env, &full(), args, 0);
        (
            v.get("issues").unwrap().to_text(),
            v.get("approval_status").unwrap().get("stored").unwrap().as_bool().unwrap(),
        )
    };
    assert_eq!(
        check(r#"{"entity":"As","values":{"Z":1,"N":2,"Y":3}}"#),
        (
            r#"[{"field":"Y","issue":"unknown_property"},{"field":"Z","issue":"unknown_property"}]"#.to_string(),
            false
        )
    );
    assert_eq!(
        check(r#"{"entity":"As","operation":"update","values":{}}"#),
        (r#"[{"issue":"keys_required_for_update_delete"}]"#.to_string(), false)
    );
    assert_eq!(
        check(r#"{"entity":"As","operation":"delete","keys":{"K":1}}"#),
        (r#"[{"issue":"entity_not_deletable_per_metadata"}]"#.to_string(), true)
    );
    assert_eq!(
        check(r#"{"entity":"Bs","values":{}}"#),
        (r#"[{"issue":"entity_not_creatable_per_metadata"}]"#.to_string(), true)
    );
    assert_eq!(
        check(r#"{"entity":"Bs","operation":"update","keys":{"K":1},"values":{}}"#),
        (r#"[{"issue":"entity_not_updatable_per_metadata"}]"#.to_string(), true)
    );
    let v = done(begin(&mut h, &env, &full(), "validate_write", r#"{"entity":"As","values":[]}"#, 0));
    assert_eq!(error_of(&v), "'values' must be an object for create");
    let v = done(begin(&mut h, &env, &full(), "validate_write", r#"{"entity":"Zs"}"#, 0));
    assert_eq!(error_of(&v), "unknown entity 'Zs'");
}

#[test]
fn silence_is_no_issue() {
    let env = Env::new();
    let mut h = server(&env, "{}");
    let md = parse_edmx(r#"<S><EntityType Name="T"></EntityType><EntitySet Name="E" EntityType="N.T"/></S>"#)
        .ok()
        .unwrap();
    let turn = begin(&mut h, &env, &full(), "validate_write", r#"{"entity":"E","operation":"create","values":{}}"#, 0);
    let p = match waits(turn) {
        (Demand::Call(_, ClientCall::Metadata { .. }), p) => p,
        _ => panic!("metadata expected"),
    };
    let v = done(h.resume(&env, p, Ok(md), 0));
    let answer = js(&text_of_answer(&v));
    assert_eq!(answer.get("issues").unwrap().to_text(), "[]");
}

#[test]
fn approvals_keep_their_credentials() {
    let mut env = Env::new();
    env.set("SAP_MCP_ENABLE_WRITES", "1");
    env.set("SAP_MCP_ALLOW_AUTH_OVERRIDE", "1");
    let mut h = server(&env, "{}");
    let args = r#"{"entity":"As","values":{},"auth_username":"u","auth_password":"p"}"#;
    let val = approve(&mut h, &env, &full(), args, 0);
    let a = val.get("approval").unwrap();
    let v = done(begin(&mut h, &env, &full(), "execute_approved_write", &execution(a, ""), 1));
    assert_eq!(error_of(&v), "approval was validated with different SAP credentials");
    let ex = execution(a, r#","auth_username":"u","auth_password":"p""#);
    let (d, _) = waits(begin(&mut h, &env, &full(), "execute_approved_write", &ex, 1));
    assert!(matches!(d, Demand::Call(ClientRef::Override(_), ClientCall::Create { .. })));
}

#[test]
fn resources_are_read() {
    let mut env = Env::new();
    let mut h = server(&env, r#"{"*":{"*":{"deny":["N"]}}}"#);
    let ask = |uri: &str| js(&format!(r#"{{"id":1,"method":"resources/read","params":{{"uri":"{}"}}}}"#, uri));
    let text = |v: &Json| -> String {
        match v.get("result") {
            Some(r) => r.get("contents").unwrap().as_array().unwrap()[0].str_at("text").unwrap().clone(),
            None => panic!("{}", v.to_text()),
        }
    };
    let v = done(h.handle(&env, &ask("sap://instances"), &only("prod"), 0));
    assert!(text(&v).contains("prod") && !text(&v).contains("dev"));
    let (d, p) = waits(h.handle(&env, &ask("sap://entities"), &only("prod"), 0));
    assert!(matches!(d, Demand::OpenClient(ClientRef::Pooled(n)) if n == "prod"));
    let turn = h.resume(&env, p, Ok(Json::Null), 0);
    let v = done(metadata_of(&mut h, &env, turn, 0));
    assert!(text(&v).contains(r#""addressable":true"#) && text(&v).contains("Bs"));
    let mut read = |env: &Env, uri: &str| -> Json {
        let (_, p) = waits(h.handle(env, &ask(uri), &only("prod"), 1));
        done(h.resume(env, p, Ok(Json::Null), 1))
    };
    assert!(text(&read(&env, "sap://entity/As")).contains("restricted"));
    assert_eq!(text(&read(&env, "sap://entity/Zs")), "null");
    assert_eq!(error_of(&read(&env, "sap://entity/a-b")), "invalid entity name");
    assert_eq!(error_of(&read(&env, "sap://other")), "unknown resource sap://other");
    env.set("SAP_ENTITY_DENY", "As");
    assert_eq!(
        error_of(&read(&env, "sap://entity/As")),
        "entity 'As' blocked by SAP_ENTITY_ALLOW/SAP_ENTITY_DENY"
    );
    assert!(!text(&read(&env, "sap://entities")).contains("As"));
    let nobody = Tenant::Restricted { id: "t".to_string(), instances: vec![] };
    let v = done(h.handle(&env, &ask("sap://entities"), &nobody, 0));
    assert_eq!(error_of(&v), "tenant has no accessible instances");
    env.set("SAP_MCP_RATE_LIMIT_MODE", "block");
    env.set("SAP_MCP_RATE_LIMIT_MAX_CALLS", "0");
    let v = done(h.handle(&env, &ask("sap://entities"), &full(), 0));
    assert_eq!(error_of(&v), "rate limited");
}
