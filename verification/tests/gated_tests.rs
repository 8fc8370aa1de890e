use sa_mcp::cache::MetadataCache;
use sa_mcp::config::Env;
use sa_mcp::gated::{
    build_approval_token, canonical_json, token_digest, ApprovalStore, AuditEvent,
    APPROVAL_TTL_SECS, TOKEN_PREFIX,
};
use sa_mcp::json::Json;
use sa_mcp::registry::{
    check_schema_text, config_path, default_group, guard_allows, list_part, load_document,
    server_identity, validate_cursor_schema, OpSpec, PromptDef, Registry, ToolDef, ToolGuards,
};
use sa_mcp::strmap::StrMap;

const SEC: u64 = 1_000_000_000;

fn doc(text: &str) -> Json {
    match Json::parse(text) {
        Ok(v) => v,
        Err(e) => panic!("{}", e),
    }
}

#[test]
fn tokens_depend_on_the_canonical_text() {
    assert_eq!(canonical_json(&doc("{\"b\":1.0,\"a\":[2]}")), "{\"a\":[2],\"b\":1}");
    let a = build_approval_token(&doc("{\"x\":1,\"y\":2.0}"));
    let b = build_approval_token(&doc("{\"y\":2,\"x\":1.0}"));
    assert_eq!(a, b);
    assert!(a.starts_with(TOKEN_PREFIX));
    assert_eq!(a.len(), TOKEN_PREFIX.len() + 32);
    assert_ne!(a, build_approval_token(&doc("{\"x\":1,\"y\":3}")));
    // sha256("{}") = 44136fa355b3678a1146ad16f7e8649e...
    assert_eq!(build_approval_token(&doc("{}")), "sap-write:44136fa355b3678a1146ad16f7e8649e");
    assert_eq!(token_digest("abc"), "ba7816bf8f01cfea");
    assert_eq!(APPROVAL_TTL_SECS, 600);
}

#[test]
fn alike_writes_share_a_token() {
    let a = doc(r#"{"n":{"x":[3.0,-4],"y":{"p":1,"q":"t"}},"m":2.5}"#);
    let b = doc(r#"{"m":2.5,"n":{"y":{"q":"t","p":1.0},"x":[3,-4.0]}}"#);
    let t = build_approval_token(&a);
    assert_eq!(t, build_approval_token(&b));
    let digits = t.strip_prefix("sap-write:").unwrap();
    assert_eq!(digits.len(), 32);
    assert!(digits.chars().all(|c| c.is_ascii_digit() || ('a'..='f').contains(&c)));
    // The order of elements matters, and so do fractions and what is too large.
    assert_ne!(build_approval_token(&doc("[1,2]")), build_approval_token(&doc("[2,1]")));
    assert_ne!(build_approval_token(&doc("[2.5]")), build_approval_token(&doc("[2]")));
    assert_ne!(
        build_approval_token(&doc("[9000000000000000.0]")),
        build_approval_token(&doc("[9000000000000000]"))
    );
}

#[test]
fn approvals_are_used_once() {
    let mut s = ApprovalStore::new(600);
    let p = doc("{\"a\":1}");
    assert!(!s.consume("t", &p, 0));
    s.register("t".to_string(), p.copy(), 0);
    assert!(s.is_valid("t", &p, 1));
    assert!(!s.is_valid("t", &doc("{\"a\":2}"), 1));
    assert!(!s.consume("t", &doc("{\"a\":2}"), 1));
    assert!(s.consume("t", &p, 2));
    assert!(!s.consume("t", &p, 3));
    assert!(!s.is_valid("t", &p, 3));
}

#[test]
fn approvals_end() {
    let mut s = ApprovalStore::new(600);
    let p = doc("{}");
    s.register("t".to_string(), p.copy(), 5);
    assert!(s.is_valid("t", &p, 5 + 600 * SEC - 1));
    assert!(!s.is_valid("t", &p, 5 + 600 * SEC));
    assert!(!s.consume("t", &p, 5 + 600 * SEC));
}

#[test]
fn approvals_are_kept_apart() {
    let mut s = ApprovalStore::new(600);
    let p = doc("{\"p\":1}");
    let q = doc("{\"q\":1}");
    s.register("p".to_string(), p.copy(), 0);
    s.register("q".to_string(), q.copy(), 0);
    assert!(!s.consume("p", &q, 1));
    assert!(s.consume("p", &p, 1));
    assert!(s.consume("q", &q, 1));
}

#[test]
fn audit_lines_hold_digests_only() {
    let e = AuditEvent {
        event: "execute".to_string(),
        actor: "t-1".to_string(),
        instance: "prod".to_string(),
        model: "A_B".to_string(),
        operation: "create".to_string(),
        token: "abc".to_string(),
        ok: true,
        detail: "ok".to_string(),
    };
    assert_eq!(
        e.line("2024-01-01T00:00:00+00:00"),
        "{\"actor\":\"t-1\",\"detail\":\"ok\",\"event\":\"execute\",\"instance\":\"prod\",\"model\":\"A_B\",\"ok\":true,\"operation\":\"create\",\"token_digest\":\"ba7816bf8f01cfea\",\"ts\":\"2024-01-01T00:00:00+00:00\"}\n"
    );
}

#[test]
fn metadata_is_kept_for_a_time() {
    let mut c = MetadataCache::new(10);
    assert!(c.get("i", "s", 0).is_none());
    c.insert("i", "s", doc("[1]"), 0);
    c.insert("i", "t", doc("[2]"), 0);
    assert_eq!(c.get("i", "s", 10 * SEC).unwrap().to_text(), "[1]");
    assert!(c.get("i", "s", 10 * SEC + 1).is_none());
    c.insert("i", "s", doc("[3]"), 11 * SEC);
    assert_eq!(c.get("i", "s", 12 * SEC).unwrap().to_text(), "[3]");
    assert!(c.get("j", "s", 12 * SEC).is_none());
    let mut off = MetadataCache::new(0);
    off.insert("i", "s", doc("[1]"), 0);
    assert!(off.get("i", "s", 0).is_none());
}

fn tool(name: &str, group: &str, guard: Option<&str>) -> ToolDef {
    ToolDef {
        name: name.to_string(),
        description: "d".to_string(),
        input_schema: doc("{}"),
        op: OpSpec { op_type: "read".to_string(), map: StrMap::new() },
        guards: guard.map(|g| ToolGuards { requires_env_true: Some(g.to_string()) }),
        group: group.to_string(),
    }
}

#[test]
fn tools_are_offered_by_group_and_guard() {
    let r = Registry {
        tools: vec![
            tool("a", "read", None),
            tool("b", "write", None),
            tool("c", "read", Some("FLAG")),
            tool("a", "write", None),
        ],
        prompts: vec![PromptDef {
            name: "p".to_string(),
            description: "d".to_string(),
            content: "c".to_string(),
        }],
        server_name: "s".to_string(),
        instructions: "i".to_string(),
    };
    let names = |env: &Env| -> Vec<String> {
        r.list_tools(env).iter().map(|t| t.name.clone()).collect()
    };
    let mut env = Env::new();
    assert_eq!(names(&env), vec!["a", "b", "a"]);
    env.set("SAP_EXPOSITION", "readonly");
    assert_eq!(names(&env), vec!["a"]);
    assert!(r.get_tool(&env, "b").is_none());
    assert!(r.get_tool(&env, "c").is_none());
    env.set("FLAG", "on");
    assert_eq!(names(&env), vec!["a", "c"]);
    assert_eq!(r.get_tool(&env, "c").unwrap().name, "c");
    // The first tool with a name decides.
    assert_eq!(r.get_tool(&env, "a").unwrap().group, "read");
    assert!(r.get_tool(&env, "zzz").is_none());
    assert!(guard_allows(&env, &Some(ToolGuards { requires_env_true: None })));
    assert!(guard_allows(&env, &None));
    assert_eq!(default_group(), "read");
}

#[test]
fn schemas_are_checked() {
    assert!(validate_cursor_schema(&doc("{\"type\":\"object\",\"description\":\"anyOf\"}")).is_err());
    assert!(validate_cursor_schema(&doc("{\"type\":\"object\",\"description\":\"any anyOf\"}")).is_ok());
    assert_eq!(
        validate_cursor_schema(&doc("{\"p\":{\"$ref\":\"x\"}}")).unwrap_err(),
        "schema contains forbidden keyword $ref"
    );
    for k in ["anyOf", "oneOf", "allOf", "$ref", "definitions"] {
        assert_eq!(
            check_schema_text(&format!("{{\"{}\":1}}", k)).unwrap_err(),
            format!("schema contains forbidden keyword {}", k)
        );
    }
    assert!(check_schema_text("{}").is_ok());
    assert_eq!(
        validate_cursor_schema(&doc("{\"p\":{\"type\":[\"string\",\"null\"]}}")).unwrap_err(),
        "schema contains forbidden keyword type-array"
    );
    assert!(validate_cursor_schema(&doc("{\"type\":\"array\",\"items\":{}}")).is_ok());
}

#[test]
fn documents_fall_back_to_seeds() {
    let (v, w) = load_document("p", Ok("{\"tools\":[1]}".to_string()), "[]", "tools");
    assert_eq!(list_part(&v.unwrap(), "tools"), "[1]");
    assert!(w.is_empty());
    let (v, w) = load_document("p", Err("gone".to_string()), "[2]", "tools");
    assert_eq!(list_part(&v.unwrap(), "tools"), "[2]");
    assert_eq!(w, vec!["[sa-mcp] cannot read p (gone); using built-in tools"]);
    let (v, w) = load_document("p", Ok("{".to_string()), "[3]", "prompts");
    assert_eq!(list_part(&v.unwrap(), "prompts"), "[3]");
    assert_eq!(w.len(), 1);
    assert!(w[0].starts_with("[sa-mcp] invalid JSON in p (EOF"));
    assert!(w[0].ends_with("); using built-in prompts"));
    let (v, w) = load_document("p", Err("gone".to_string()), "{", "tools");
    assert!(v.is_none());
    assert_eq!(w.len(), 2);
}

#[test]
fn identities_have_defaults() {
    let (n, i) = server_identity(&doc("{\"serverName\":\"x\",\"instructions\":\"y\"}"));
    assert_eq!((n.as_str(), i.as_str()), ("x", "y"));
    let (n, i) = server_identity(&doc("{\"serverName\":1}"));
    assert_eq!((n.as_str(), i.as_str()), ("sa-mcp", ""));
    let mut env = Env::new();
    assert_eq!(config_path(&env, "MCP_TOOLS_JSON", "f"), "f");
    env.set("MCP_TOOLS_JSON", "g");
    assert_eq!(config_path(&env, "MCP_TOOLS_JSON", "f"), "g");
}
