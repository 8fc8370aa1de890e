use sa_mcp::config::Env;
use sa_mcp::field_acl::{
    policy_candidates, policy_file_path, policy_is_dedicated, FieldPolicy, PolicySource,
};
use sa_mcp::json::Json;

fn policy_with(json: &str) -> FieldPolicy {
    FieldPolicy::load(&PolicySource::Text {
        path: "test".to_string(),
        dedicated: true,
        text: json.to_string(),
    })
}

fn value(text: &str) -> Json {
    match Json::parse(text) {
        Ok(v) => v,
        Err(e) => panic!("{}", e),
    }
}

#[test]
fn deny_union_and_id_never_redacted() {
    let p = policy_with(r#"{"field_acl": {"*": {"*": {"deny": ["email"]}}}}"#);
    assert!(p.is_denied("prod", "res.partner", "email"));
    assert!(!p.is_denied("prod", "res.partner", "id"));
    assert!(!p.is_denied("prod", "res.partner", "name"));
}

#[test]
fn allow_intersect() {
    let p = policy_with(
        r#"{"field_acl": {
            "*": {"res.partner": {"allow": ["name", "email"]}},
            "prod": {"res.partner": {"allow": ["name"]}}
        }}"#,
    );
    assert!(!p.is_denied("prod", "res.partner", "name"));
    assert!(p.is_denied("prod", "res.partner", "email"));
    assert!(!p.is_denied("other", "res.partner", "email"));
}

#[test]
fn redact_record_removes_denied() {
    let p = policy_with(r#"{"field_acl": {"*": {"*": {"deny": ["password"]}}}}"#);
    let mut rec = match value(r#"{"id": 1, "name": "a", "password": "x"}"#) {
        Json::Object(o) => o,
        _ => panic!("object expected"),
    };
    let removed = p.redact_record("a", "res.users", &mut rec);
    assert_eq!(removed, vec!["password".to_string()]);
    assert!(rec.get("id").is_some());
}

#[test]
fn aggregate_blocked_on_denied() {
    let p = policy_with(r#"{"field_acl": {"*": {"account.move": {"deny": ["amount_total"]}}}}"#);
    assert!(p
        .check_aggregate("a", "account.move", &vec!["amount_total:sum".into()], &vec![])
        .is_err());
    assert!(p
        .check_aggregate("a", "account.move", &vec!["name".into()], &vec!["date".into()])
        .is_ok());
}

#[test]
fn rules_merge_over_stars() {
    let p = policy_with(
        r#"{"a": {"m": {"deny": ["x"]}, "*": {"deny": ["y"]}},
            "*": {"m": {"deny": ["z"]}, "*": {"allow": ["w", "x", "id2"]}}}"#,
    );
    for f in ["x", "y", "z", "other"] {
        assert!(p.is_denied("a", "m", f), "{}", f);
    }
    assert!(!p.is_denied("a", "m", "w"));
    assert!(!p.is_denied("a", "m", "id"));
    assert!(p.is_denied("b", "n", "y"));
    assert!(!p.is_denied("b", "n", "x"));
}

#[test]
fn fields_are_split() {
    let p = policy_with(r#"{"*": {"*": {"deny": ["b"]}}}"#);
    let (kept, removed) =
        p.filter_fields("i", "m", vec!["a".to_string(), "b".to_string(), "id".to_string()]);
    assert_eq!(kept, vec!["a".to_string(), "id".to_string()]);
    assert_eq!(removed, vec!["b".to_string()]);
}

#[test]
fn records_are_redacted_and_counted() {
    let p = policy_with(r#"{"*": {"*": {"deny": ["b", "c"]}}}"#);
    let mut a = match value(r#"[{"a":1,"b":2,"c":3}, 7, {"b":1}, {"a":{"b":1}}]"#) {
        Json::Array(a) => a,
        _ => panic!("array expected"),
    };
    assert_eq!(p.redact_records("i", "m", &mut a), 3);
    assert_eq!(Json::Array(a).to_text(), r#"[{"a":1},7,{},{"a":{"b":1}}]"#);
}

#[test]
fn blocked_aggregates_are_listed() {
    let p = policy_with(r#"{"*": {"*": {"deny": ["b", "c"]}}}"#);
    let e = p
        .check_aggregate("i", "m", &vec!["a".into(), "b:sum".into()], &vec!["c".into()])
        .unwrap_err();
    assert_eq!(e, "aggregate blocked: field(s) restricted by policy: b:sum, c");
}

#[test]
fn sources_give_status() {
    let none = FieldPolicy::load(&PolicySource::NoFile);
    assert_eq!(none.status().to_text(), r#"{"enabled":false,"error":null,"source":""}"#);
    let shared = FieldPolicy::load(&PolicySource::Text {
        path: "p".to_string(),
        dedicated: false,
        text: r#"{"*": {"*": {"deny": ["b"]}}}"#.to_string(),
    });
    assert_eq!(shared.status().to_text(), r#"{"enabled":false,"error":null,"source":"p"}"#);
    assert!(!shared.is_denied("i", "m", "b"));
    let mut p = policy_with(r#"{"*": {"*": {"deny": ["b", 7]}}, "x": 3}"#);
    assert_eq!(p.status().to_text(), r#"{"enabled":true,"error":null,"source":"test"}"#);
    let warning = p.reload(&PolicySource::Unreadable {
        path: "f".to_string(),
        error: "gone".to_string(),
    });
    assert_eq!(warning.unwrap(), "[sa-mcp] field-ACL: cannot read f: gone");
    assert_eq!(
        p.status().to_text(),
        r#"{"enabled":false,"error":"read error: gone","source":"f"}"#
    );
    assert!(!p.is_denied("i", "m", "b"));
    let warning = p.reload(&PolicySource::Text {
        path: "f".to_string(),
        dedicated: true,
        text: "{".to_string(),
    });
    assert!(warning.unwrap().starts_with("[sa-mcp] field-ACL: invalid JSON f: EOF"));
    assert!(p.status().to_text().contains("parse error: EOF"));
}

#[test]
fn policy_files_have_an_order() {
    let mut env = Env::new();
    let all = policy_candidates();
    assert_eq!(all, vec!["./odoo_mcp_policy.json", "./field_acl.json", "config/field_acl.json"]);
    assert!(policy_file_path(&env, &vec![]).is_none());
    assert_eq!(policy_file_path(&env, &all).unwrap(), "./odoo_mcp_policy.json");
    assert_eq!(policy_file_path(&env, &vec![all[2].clone(), all[1].clone()]).unwrap(), "./field_acl.json");
    assert_eq!(policy_file_path(&env, &vec![all[2].clone()]).unwrap(), "config/field_acl.json");
    env.set("SAP_MCP_POLICY_FILE", "shared");
    assert_eq!(policy_file_path(&env, &all).unwrap(), "shared");
    assert!(!policy_is_dedicated(&env));
    env.set("SAP_MCP_FIELD_POLICY_FILE", "own");
    assert_eq!(policy_file_path(&env, &all).unwrap(), "own");
    assert!(policy_is_dedicated(&env));
}
