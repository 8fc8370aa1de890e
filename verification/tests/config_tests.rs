use sa_mcp::config::{
    audit_log_path, auth_override_allowed, clamp_skip, clamp_top, entity_allowed, env_truthy,
    exposition, exposition_allows, glob_match, instance_source, instances_document, load_instances,
    metadata_cache_ttl, non_empty_env, normalize_url, odata_path_encode, settle_instances,
    single_instance, valid_instance_name, valid_odata_name, valid_service_path, validate_instances,
    writes_enabled, Env, InstanceSource, Loading, SapInstanceConfig, MAX_EXPAND_ITEMS,
    MAX_FILTER_CHARS, MAX_PAGE_TOP, MAX_SELECT_FIELDS,
};
use sa_mcp::json::Json;
use sa_mcp::strmap::StrMap;

fn env_of(vars: &[(&str, &str)]) -> Env {
    let mut env = Env::new();
    for (k, v) in vars {
        env.set(k, v);
    }
    env
}

fn json_of(text: &str) -> Json {
    match Json::parse(text) {
        Ok(v) => v,
        Err(e) => panic!("{}", e),
    }
}

fn basic_config(url: &str) -> SapInstanceConfig {
    let env = env_of(&[("SAP_URL", url), ("SAP_USERNAME", "u"), ("SAP_PASSWORD", "p")]);
    single_instance(&env)
}

fn map_of(items: Vec<(&str, SapInstanceConfig)>) -> StrMap<SapInstanceConfig> {
    let mut m = StrMap::new();
    for (k, c) in items {
        m.insert(k.to_string(), c);
    }
    m
}

#[test]
fn names_reject_injection() {
    assert!(valid_odata_name("A_BusinessPartner"));
    assert!(!valid_odata_name("A_BusinessPartner/$batch"));
    assert!(!valid_odata_name("../etc"));
    assert!(!valid_odata_name(""));
    assert!(valid_service_path("/sap/opu/odata/sap/API_BUSINESS_PARTNER"));
    assert!(!valid_service_path("/sap/../etc"));
    assert!(!valid_service_path("https://x/sap"));
}

#[test]
fn paging_clamped() {
    assert_eq!(clamp_top(Some(&json_of("-1")), 25), 25);
    assert_eq!(clamp_top(Some(&json_of("100000")), 25), MAX_PAGE_TOP);
    assert_eq!(clamp_top(None, 25), 25);
    assert_eq!(clamp_skip(Some(&json_of("-5"))), 0);
}

#[test]
fn entity_globs() {
    assert!(glob_match("*", "A_BusinessPartner"));
    assert!(glob_match("A_*", "A_BusinessPartner"));
    assert!(!glob_match("B_*", "A_BusinessPartner"));
    assert!(glob_match("A_*Partner", "A_BusinessPartner"));
    assert!(!glob_match("A_*Partner", "A_BusinessPartnerX"));
    let deny = env_of(&[("SAP_ENTITY_DENY", "T_*")]);
    assert!(!entity_allowed(&deny, "T_001"));
    assert!(entity_allowed(&deny, "A_001"));
    let allow = env_of(&[("SAP_ENTITY_ALLOW", "A_*")]);
    assert!(entity_allowed(&allow, "A_001"));
    assert!(!entity_allowed(&allow, "B_001"));
}

#[test]
fn globs_match_wherever_a_star_fits() {
    assert!(glob_match("A*B", "ABXB"));
    assert!(glob_match("*a*b*", "xxaxxbxx"));
    assert!(!glob_match("*a*b*", "xxbxxaxx"));
    assert!(glob_match("", ""));
    assert!(!glob_match("", "x"));
    assert!(glob_match("**", ""));
    assert!(!glob_match("abc", "ab"));
    assert!(!glob_match("ab", "abc"));
    assert!(glob_match("ü*", "üx"));
}

#[test]
fn deny_wins_over_allow() {
    let env = env_of(&[("SAP_ENTITY_ALLOW", "A_*, B_*"), ("SAP_ENTITY_DENY", " A_Secret ,")]);
    assert!(!entity_allowed(&env, "A_Secret"));
    assert!(entity_allowed(&env, "A_Open"));
    assert!(entity_allowed(&env, "B_1"));
    assert!(!entity_allowed(&env, "C_1"));
    let blank = env_of(&[("SAP_ENTITY_ALLOW", " , ")]);
    assert!(entity_allowed(&blank, "anything"));
    assert!(entity_allowed(&Env::new(), "anything"));
}

#[test]
fn names_have_limits() {
    assert!(valid_odata_name(&"a".repeat(128)));
    assert!(!valid_odata_name(&"a".repeat(129)));
    assert!(valid_odata_name("Größe_1"));
    assert!(!valid_odata_name(&"ü".repeat(65)));
    assert!(!valid_odata_name("a-b"));
    assert!(valid_service_path(&format!("/{}", "a".repeat(255))));
    assert!(!valid_service_path(&format!("/{}", "a".repeat(256))));
    assert!(valid_service_path("/x(a='1')/y.z~%20_-"));
    assert!(!valid_service_path("/x?y"));
    assert!(!valid_service_path("x"));
    assert!(!valid_service_path(""));
    assert!(valid_instance_name("prod-1_x"));
    assert!(!valid_instance_name("prod.1"));
    assert!(!valid_instance_name(""));
    assert!(valid_instance_name(&"n".repeat(64)));
    assert!(!valid_instance_name(&"n".repeat(65)));
}

#[test]
fn truth_has_five_words() {
    for w in ["1", "true", "YES", " y ", "On"] {
        assert!(env_truthy(w), "{}", w);
    }
    for w in ["0", "false", "no", "", "2", "truee"] {
        assert!(!env_truthy(w), "{}", w);
    }
    let on = env_of(&[("SAP_MCP_ENABLE_WRITES", "1"), ("SAP_MCP_ALLOW_AUTH_OVERRIDE", "no")]);
    assert!(writes_enabled(&on));
    assert!(!auth_override_allowed(&on));
    assert!(!writes_enabled(&Env::new()));
    assert!(auth_override_allowed(&env_of(&[("SAP_MCP_ALLOW_AUTH_OVERRIDE", "yes")])));
}

#[test]
fn simple_settings_are_read() {
    assert_eq!(metadata_cache_ttl(&Env::new()), 600);
    assert_eq!(metadata_cache_ttl(&env_of(&[("SAP_METADATA_CACHE_TTL_SECS", "0")])), 0);
    assert_eq!(metadata_cache_ttl(&env_of(&[("SAP_METADATA_CACHE_TTL_SECS", "+7")])), 7);
    assert_eq!(metadata_cache_ttl(&env_of(&[("SAP_METADATA_CACHE_TTL_SECS", " 7")])), 600);
    assert_eq!(metadata_cache_ttl(&env_of(&[("SAP_METADATA_CACHE_TTL_SECS", "-1")])), 600);
    assert!(audit_log_path(&Env::new()).is_none());
    assert!(audit_log_path(&env_of(&[("SAP_MCP_AUDIT_LOG", "")])).is_none());
    assert_eq!(audit_log_path(&env_of(&[("SAP_MCP_AUDIT_LOG", " x ")])).unwrap(), " x ");
    assert!(non_empty_env(&env_of(&[("K", "  ")]), "K").is_none());
    assert_eq!(non_empty_env(&env_of(&[("K", " v")]), "K").unwrap(), " v");
}

#[test]
fn exposition_gates_writes() {
    assert_eq!(exposition(&Env::new()), vec!["readonly".to_string(), "high".to_string()]);
    assert!(exposition_allows(&Env::new(), "write"));
    let readonly = env_of(&[("SAP_EXPOSITION", "readonly")]);
    assert!(!exposition_allows(&readonly, "write"));
    assert!(exposition_allows(&readonly, "read"));
    assert!(exposition_allows(&readonly, "other"));
    let write = env_of(&[("SAP_EXPOSITION", " , ReadOnly, WRITE")]);
    assert_eq!(exposition(&write), vec!["readonly".to_string(), "write".to_string()]);
    assert!(exposition_allows(&write, "write"));
    assert!(!exposition_allows(&env_of(&[("SAP_EXPOSITION", "")]), "write"));
}

#[test]
fn pages_of_every_number() {
    assert_eq!(clamp_top(Some(&json_of("7")), 25), 7);
    assert_eq!(clamp_top(Some(&json_of("0")), 25), 25);
    assert_eq!(clamp_top(Some(&json_of("2.9")), 25), 2);
    assert_eq!(clamp_top(Some(&json_of("-0.5")), 25), 25);
    assert_eq!(clamp_top(Some(&json_of("18446744073709551615")), 25), 200);
    assert_eq!(clamp_top(Some(&json_of("1e300")), 25), 200);
    assert_eq!(clamp_top(Some(&json_of("\"7\"")), 25), 25);
    assert_eq!(clamp_skip(Some(&json_of("40"))), 40);
    assert_eq!(clamp_skip(Some(&json_of("4.9e1"))), 49);
    assert_eq!(clamp_skip(Some(&json_of("18446744073709551615"))), i64::MAX);
    assert_eq!(clamp_skip(Some(&json_of("1e300"))), i64::MAX);
    assert_eq!(clamp_skip(Some(&json_of("-1e300"))), 0);
    assert_eq!(clamp_skip(None), 0);
    assert_eq!(MAX_PAGE_TOP, 200);
    assert_eq!(MAX_FILTER_CHARS, 2000);
    assert_eq!(MAX_SELECT_FIELDS, 50);
    assert_eq!(MAX_EXPAND_ITEMS, 5);
}

#[test]
fn urls_are_normalized() {
    assert_eq!(normalize_url(" https://x/y// "), "https://x/y");
    assert_eq!(normalize_url("host:8000"), "http://host:8000");
    assert_eq!(normalize_url(""), "http://localhost:8000");
    assert_eq!(normalize_url(" / "), "http://localhost:8000");
    assert_eq!(normalize_url("http://a"), "http://a");
}

#[test]
fn path_encoding_keeps_quotes() {
    assert_eq!(odata_path_encode("a b/c'd~"), "a%20b%2Fc'd~");
    assert_eq!(odata_path_encode("ü"), "%C3%BC");
}

#[test]
fn service_roots() {
    let mut c = basic_config("sap.example/");
    assert_eq!(
        c.service_root(None).unwrap_err(),
        "no service given and instance has no default service"
    );
    assert_eq!(c.service_root(Some("/x")).unwrap(), "http://sap.example/x");
    assert_eq!(c.service_root(Some("x")).unwrap_err(), "invalid service path 'x'");
    assert_eq!(c.service_root(Some("/sap/x/")).unwrap(), "http://sap.example/sap/x");
    assert_eq!(c.service_root(Some("/x//")).unwrap(), "http://sap.example/x");
    c.service = Some("/d".to_string());
    assert_eq!(c.service_root(None).unwrap(), "http://sap.example/d");
    c.service = Some("/d/".to_string());
    assert_eq!(c.service_root(None).unwrap(), "http://sap.example/d");
    assert!(!c.is_v4());
    c.odata_version = " V4 ".to_string();
    assert!(c.is_v4());
    c.odata_version = "4".to_string();
    assert!(c.is_v4());
}

#[test]
fn sources_have_an_order() {
    let all = env_of(&[
        ("SAP_INSTANCES_JSON", "/a.json"),
        ("SAP_INSTANCES", "{}"),
        ("SAP_URL", "x"),
    ]);
    assert!(matches!(instance_source(&all), InstanceSource::JsonFile(p) if p == "/a.json"));
    let inline = env_of(&[("SAP_INSTANCES_JSON", " "), ("SAP_INSTANCES", " {\"a\":1} ")]);
    assert!(matches!(instance_source(&inline), InstanceSource::Inline(t) if t == "{\"a\":1}"));
    let file = env_of(&[("SAP_INSTANCES", "systems.json")]);
    assert!(matches!(instance_source(&file), InstanceSource::File(p) if p == "systems.json"));
    let dotted = env_of(&[("SAP_INSTANCES", "./x")]);
    assert!(matches!(instance_source(&dotted), InstanceSource::File(_)));
    let other = env_of(&[("SAP_INSTANCES", "systems")]);
    assert!(matches!(instance_source(&other), InstanceSource::Variables));
}

#[test]
fn loading_says_what_comes_next() {
    match load_instances(&env_of(&[("SAP_INSTANCES_JSON", "/a")])) {
        Loading::Read { path, on_error } => {
            assert_eq!(path, "/a");
            assert_eq!(on_error, "read SAP_INSTANCES_JSON /a");
        }
        _ => panic!("file expected"),
    }
    match load_instances(&env_of(&[("SAP_INSTANCES", "/b")])) {
        Loading::Read { on_error, .. } => assert_eq!(on_error, "read SAP_INSTANCES file /b"),
        _ => panic!("file expected"),
    }
    assert!(matches!(load_instances(&env_of(&[("SAP_INSTANCES", "{}")])), Loading::Parse(t) if t == "{}"));
    match load_instances(&env_of(&[("SAP_USERNAME", "u"), ("SAP_PASSWORD", "p")])) {
        Loading::Loaded(name, m) => {
            assert_eq!(name, "default");
            assert_eq!(m.len(), 1);
            assert_eq!(m.value_at(0).timeout_ms, 30000);
            assert!(m.value_at(0).verify_ssl);
        }
        _ => panic!("systems expected"),
    }
    match load_instances(&Env::new()) {
        Loading::Failed(e) => {
            assert_eq!(e, "instance 'default' (basic) needs username+password")
        }
        _ => panic!("error expected"),
    }
}

#[test]
fn single_systems_come_from_variables() {
    let env = env_of(&[
        ("SAP_URL", " "),
        ("SAP_CLIENT", "100"),
        ("SAP_AUTH_TYPE", "bearer"),
        ("SAP_TOKEN", "t"),
        ("SAP_TIMEOUT_MS", "5"),
        ("SAP_VERIFY_SSL", "0"),
        ("SAP_MCP_TOKEN", "m"),
        ("SAP_ODATA_VERSION", "v4"),
    ]);
    let c = single_instance(&env);
    assert_eq!(c.url, "http://localhost:8000");
    assert_eq!(c.client.unwrap(), "100");
    assert_eq!(c.auth_type, "bearer");
    assert_eq!(c.timeout_ms, 5);
    assert!(!c.verify_ssl);
    assert_eq!(c.mcp_tokens, vec!["m".to_string()]);
    assert_eq!(c.max_retries, 3);
    assert_eq!(single_instance(&env_of(&[("SAP_TIMEOUT_MS", "x")])).timeout_ms, 30000);
}

#[test]
fn wrong_settings_are_named() {
    let check = |name: &str, c: SapInstanceConfig| match validate_instances(map_of(vec![(name, c)])) {
        Ok(_) => String::new(),
        Err(e) => e,
    };
    assert_eq!(check("a", basic_config("x")), "");
    assert_eq!(check("a b", basic_config("x")), "invalid instance name 'a b'");
    let mut c = basic_config("x");
    c.password = Some(" ".to_string());
    assert_eq!(check("a", c), "instance 'a' (basic) needs username+password");
    let mut c = basic_config("x");
    c.auth_type = "Bearer".to_string();
    assert_eq!(check("a", c.copy()), "instance 'a' (bearer) needs token");
    c.token = Some("t".to_string());
    assert_eq!(check("a", c), "");
    let mut c = basic_config("x");
    c.auth_type = "oauth2".to_string();
    assert_eq!(check("a", c.copy()), "instance 'a' (oauth2) needs oauth_token_url");
    c.oauth_token_url = Some("u".to_string());
    assert_eq!(check("a", c.copy()), "instance 'a' (oauth2) needs oauth_client_id");
    c.oauth_client_id = Some("i".to_string());
    assert_eq!(check("a", c.copy()), "instance 'a' (oauth2) needs oauth_client_secret");
    c.oauth_client_secret = Some("s".to_string());
    assert_eq!(check("a", c), "");
    let mut c = basic_config("x");
    c.auth_type = "Kerberos".to_string();
    assert_eq!(
        check("a", c),
        "instance 'a' has unknown auth_type 'kerberos' (basic|bearer|oauth2)"
    );
    let mut c = basic_config("x");
    c.timeout_ms = 0;
    assert_eq!(check("a", c), "instance 'a' has timeout_ms=0");
    let mut c = basic_config("x");
    c.mcp_tokens = vec!["t".to_string(), " ".to_string()];
    assert_eq!(check("a", c), "instance 'a' has an empty mcp token");
}

#[test]
fn documents_are_taken_apart() {
    let d = instances_document("{\"instances\":{\"a\":{}},\"default\":\"a\"}").ok().unwrap();
    assert!(d.wrapped);
    assert_eq!(d.entries, "{\"a\":{}}");
    assert_eq!(d.default.unwrap(), "a");
    assert_eq!(d.on_error, "parse instances map");
    let d = instances_document("{\"a\": {}}").ok().unwrap();
    assert!(!d.wrapped);
    assert_eq!(d.entries, "{\"a\":{}}");
    assert!(d.default.is_none());
    assert_eq!(d.on_error, "parse bare instances map");
    match instances_document("{") {
        Err(e) => assert_eq!(e, "SAP_INSTANCES is not valid JSON"),
        Ok(_) => panic!("error expected"),
    }
}

#[test]
fn default_systems_are_settled() {
    let one = || map_of(vec![("a", basic_config("x"))]);
    let two = || map_of(vec![("b", basic_config("x")), ("a", basic_config("y"))]);
    let name = |r: Result<(String, StrMap<SapInstanceConfig>), String>| match r {
        Ok(p) => p.0,
        Err(e) => e,
    };
    assert_eq!(name(settle_instances(true, &None, one())), "a");
    assert_eq!(name(settle_instances(true, &None, two())), "default");
    assert_eq!(name(settle_instances(true, &Some("b".to_string()), two())), "b");
    assert_eq!(name(settle_instances(false, &None, one())), "a");
    assert_eq!(
        name(settle_instances(false, &None, two())),
        "multi-instance JSON needs \"default\" or \"instances\" key"
    );
    let with_default = map_of(vec![("default", basic_config("x")), ("a", basic_config("y"))]);
    assert_eq!(name(settle_instances(false, &None, with_default)), "default");
    assert_eq!(name(settle_instances(true, &None, StrMap::new())), "instances map is empty");
    assert_eq!(name(settle_instances(false, &None, StrMap::new())), "instances map is empty");
    let mut bad = basic_config("x");
    bad.timeout_ms = 0;
    assert_eq!(
        name(settle_instances(true, &None, map_of(vec![("a", bad)]))),
        "instance 'a' has timeout_ms=0"
    );
}
