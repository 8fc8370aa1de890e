use sa_mcp::config::{single_instance, Env};
use sa_mcp::field_acl::{FieldPolicy, PolicySource};
use sa_mcp::handler::Handler;
use sa_mcp::json::Json;
use sa_mcp::pool::SapPool;
use sa_mcp::registry::Registry;
use sa_mcp::startup::{
    choose_transport, load_dotenv_fallback, reach_line, read_setting, Setting, Transport,
};
use sa_mcp::strmap::StrMap;
use sa_mcp::tenant::Tenant;
use sa_mcp::transport::{
    auth_enabled, batch_line, check_origin, health, metrics, openapi, parse_error_json, query_of,
    read_binary_frame, read_line, read_text_frame, require_local_or_opt_in, resolve_connection,
    response_line, response_or_empty, sort_message, Admission, Credentials, Hub, Incoming,
};

const HOUR: u64 = 3_600_000_000_000;

fn env_with(pairs: &[(&str, &str)]) -> Env {
    let mut env = Env::new();
    for (k, v) in pairs {
        env.set(k, v);
    }
    env
}

fn shown(origin: Option<&str>, authorization: Option<&str>, query: &str) -> Credentials {
    Credentials {
        origin: origin.map(|s| s.to_string()),
        authorization: authorization.map(|s| s.to_string()),
        query: query.to_string(),
    }
}

fn tokens() -> StrMap<Vec<String>> {
    let mut m = StrMap::new();
    m.insert("prod".to_string(), vec!["tok".to_string()]);
    m
}

fn parsed_json(text: &str) -> Json {
    match Json::parse(text) {
        Ok(v) => v,
        Err(e) => panic!("{}", e),
    }
}

#[test]
fn only_local_addresses_without_leave() {
    let env = Env::new();
    for a in [
        "127.0.0.1:8788", "localhost:1", "localhost", "[::1]:8788", "[::1]", "[127.0.0.1]:80",
        "[127.0.0.1:80]",
        "[::ffff:127.0.0.1]:80", "[::FFFF:127.0.0.1]:80", "[0:0:0:0:0:ffff:127.0.0.1]:80",
    ] {
        assert!(require_local_or_opt_in(&env, a).is_ok(), "{}", a);
    }
    for a in [
        "0.0.0.0:8788", "example.com:1", "example.com", "[::]:8788", "[fe80::1]:80", "[::1.example.com:1",
        "[::ffff:10.0.0.1]:80", "[64:ff9b::127.0.0.1]:80", "[2001:db8::ffff:127.0.0.1]:80",
        "[::1]127.0.0.2:80",
    ] {
        assert_eq!(
            require_local_or_opt_in(&env, a).unwrap_err(),
            format!("refusing non-local bind '{}': set MCP_ALLOW_REMOTE_HTTP=1 (and put TLS + auth in front)", a)
        );
    }
    assert!(require_local_or_opt_in(&env_with(&[("MCP_ALLOW_REMOTE_HTTP", "1")]), "0.0.0.0:1").is_ok());
    assert!(auth_enabled(&env_with(&[("MCP_AUTH_ENABLED", "on")])));
    assert!(!auth_enabled(&env));
}

#[test]
fn origins_are_checked_against_a_list() {
    assert!(check_origin(&Env::new(), Some("http://evil")));
    assert!(check_origin(&env_with(&[("MCP_ALLOWED_ORIGINS", "  ")]), Some("http://evil")));
    let env = env_with(&[("MCP_ALLOWED_ORIGINS", "good.com, other.org")]);
    assert!(check_origin(&env, None));
    assert!(check_origin(&env, Some("")));
    assert!(check_origin(&env, Some("http://localhost:3000")));
    assert!(check_origin(&env, Some("http://127.0.0.1")));
    assert!(check_origin(&env, Some("http://[::1]:80")));
    assert!(check_origin(&env, Some("https://good.com")));
    assert!(check_origin(&env, Some("https://other.org")));
    assert!(!check_origin(&env, Some("https://evil.com")));
    assert!(check_origin(&env_with(&[("MCP_ALLOWED_ORIGINS", "x,*")]), Some("https://evil.com")));
    // Blank items let nobody in.
    for list in ["https://a.com,", ",https://a.com", "https://a.com, ,https://b.com"] {
        let env = env_with(&[("MCP_ALLOWED_ORIGINS", list)]);
        assert!(!check_origin(&env, Some("https://evil.com")), "{}", list);
        assert!(check_origin(&env, Some("https://a.com")), "{}", list);
    }
}

#[test]
fn callers_are_resolved_from_header_or_query() {
    let env = env_with(&[("MCP_AUTH_ENABLED", "1")]);
    let t = resolve_connection(&env, &shown(None, Some("Bearer tok"), ""), &tokens());
    assert!(t.ok().unwrap().check("prod").is_ok());
    let t = resolve_connection(&env, &shown(None, None, "token=tok"), &tokens());
    assert!(t.ok().unwrap().check("dev").is_err());
    let t = resolve_connection(&env, &shown(None, None, ""), &tokens());
    assert_eq!(t.err().unwrap(), "missing bearer token");
}

#[test]
fn sessions_are_bound_to_their_caller() {
    let env = env_with(&[("MCP_AUTH_ENABLED", "1"), ("MCP_ALLOWED_ORIGINS", "good")]);
    let mut hub = Hub::new();
    let known = shown(None, Some("Bearer tok"), "");
    let nobody = shown(None, None, "");
    match hub.mcp_post(&env, &known, &tokens(), "initialize", None) {
        Admission::Begins(t) => hub.insert_session("s1", "v", t, 0),
        _ => panic!("session expected"),
    }
    assert_eq!(hub.session_count(), 1);
    assert!(hub.has_channel("s1"));
    // Whoever speaks in the session is its caller.
    match hub.mcp_post(&env, &nobody, &tokens(), "ping", Some("s1")) {
        Admission::Served(t) => assert!(t.check("prod").is_ok() && t.check("dev").is_err()),
        _ => panic!("service expected"),
    }
    match hub.mcp_post(&env, &known, &tokens(), "ping", Some("s2")) {
        Admission::Refused(s, m) => assert_eq!((s, m.as_str()), (400, "unknown session")),
        _ => panic!("refusal expected"),
    }
    match hub.mcp_post(&env, &nobody, &tokens(), "ping", None) {
        Admission::Refused(s, m) => assert_eq!((s, m.as_str()), (401, "missing bearer token")),
        _ => panic!("refusal expected"),
    }
    match hub.mcp_post(&env, &nobody, &tokens(), "initialize", Some("s1")) {
        Admission::Refused(s, _) => assert_eq!(s, 401),
        _ => panic!("refusal expected"),
    }
    assert!(matches!(hub.mcp_post(&env, &known, &tokens(), "ping", None), Admission::Served(_)));
    match hub.mcp_post(&env, &shown(Some("http://evil"), None, ""), &tokens(), "ping", None) {
        Admission::Refused(s, m) => assert_eq!((s, m.as_str()), (403, "origin not allowed")),
        _ => panic!("refusal expected"),
    }
    assert!(hub.mcp_get(&env, &nobody, Some("s1")).is_none());
    let unknown = (400, "unknown session, POST initialize first".to_string());
    assert_eq!(hub.mcp_get(&env, &nobody, Some("s2")), Some(unknown.clone()));
    assert_eq!(hub.mcp_get(&env, &nobody, None), Some(unknown));
    assert_eq!(hub.mcp_get(&env, &shown(Some("http://evil"), None, ""), Some("s1")).unwrap().0, 403);
    hub.close("s1");
    assert_eq!(hub.session_count(), 0);
    assert!(!hub.has_channel("s1"));
    assert!(hub.session_tenant("s1").is_none());
}

#[test]
fn channels_are_bound_to_their_caller() {
    let env = env_with(&[("MCP_AUTH_ENABLED", "1")]);
    let mut hub = Hub::new();
    let nobody = shown(None, None, "");
    match hub.legacy_message(&env, &nobody, &tokens(), "c") {
        Admission::Refused(s, m) => assert_eq!((s, m.as_str()), (400, "unknown session, GET /sse first")),
        _ => panic!("refusal expected"),
    }
    hub.attach("c", Tenant::Full { id: "x".to_string() });
    assert!(matches!(hub.legacy_message(&env, &nobody, &tokens(), "c"), Admission::Served(_)));
    // A session has a channel, but is no binding.
    hub.insert_session("s", "v", Tenant::Full { id: "x".to_string() }, 0);
    match hub.legacy_message(&env, &nobody, &tokens(), "s") {
        Admission::Refused(s, m) => assert_eq!((s, m.as_str()), (401, "unknown token")),
        _ => panic!("refusal expected"),
    }
    let known = shown(None, None, "access_token=tok");
    assert!(matches!(hub.legacy_message(&env, &known, &tokens(), "s"), Admission::Served(_)));
    // A channel that is bound stays when sessions begin, and still takes messages.
    assert!(hub.has_channel("c"));
    assert!(hub.bound_tenant("c").is_some());
    assert!(matches!(hub.legacy_message(&env, &nobody, &tokens(), "c"), Admission::Served(_)));
    hub.close("c");
    assert!(hub.bound_tenant("c").is_none());
    assert!(!hub.has_channel("c"));
}

#[test]
fn sessions_last_a_day() {
    let mut hub = Hub::new();
    let t = || Tenant::Full { id: "x".to_string() };
    hub.insert_session("a", "v", t(), 0);
    hub.insert_session("b", "v", t(), 24 * HOUR - 1);
    assert_eq!(hub.session_count(), 2);
    hub.insert_session("c", "v", t(), 24 * HOUR);
    assert_eq!(hub.session_count(), 2);
    assert!(hub.session_tenant("a").is_none());
    assert!(!hub.has_channel("a"));
}

#[test]
fn crowds_last_an_hour() {
    let mut hub = Hub::new();
    let t = || Tenant::Full { id: "x".to_string() };
    for i in 0..2048 {
        hub.insert_session(&format!("s{}", i), "v", t(), if i < 2000 { 0 } else { 1 });
    }
    assert_eq!(hub.session_count(), 2048);
    hub.insert_session("new", "v", t(), HOUR + 1);
    assert_eq!(hub.session_count(), 49);
}

#[test]
fn sessions_have_a_hard_cap() {
    let mut hub = Hub::new();
    let t = || Tenant::Full { id: "x".to_string() };
    for i in 0..2048 {
        hub.insert_session(&format!("s{}", i), "v", t(), i);
    }
    assert_eq!(hub.session_count(), 2048);
    hub.insert_session("new", "v", t(), 5000);
    assert_eq!(hub.session_count(), 2048);
    assert!(hub.session_tenant("new").is_some());
    // The oldest made room.
    assert!(hub.session_tenant("s0").is_none());
    assert!(hub.session_tenant("s1").is_some());
    assert!(!hub.has_channel("s0"));
    // One that is there already needs no room.
    hub.insert_session("s7", "w", t(), 5001);
    assert_eq!(hub.session_count(), 2048);
    assert!(hub.session_tenant("s1").is_some());
    assert!(hub.session_tenant("s7").is_some());
}

fn small_server(env: &Env) -> Handler {
    let mut m = StrMap::new();
    let mut sys = Env::new();
    sys.set("SAP_URL", "http://sap");
    m.insert("dev".to_string(), single_instance(&sys));
    Handler::new(
        SapPool::new("dev".to_string(), m),
        Registry {
            tools: vec![],
            prompts: vec![],
            server_name: "s".to_string(),
            instructions: String::new(),
        },
        FieldPolicy::load(&PolicySource::NoFile),
        env,
        "9.9",
    )
}

#[test]
fn health_shows_systems_to_known_callers_only() {
    let env = env_with(&[("SAP_MCP_ENABLE_WRITES", "1")]);
    let h = small_server(&env);
    let v = health(&h, &env, &None, 0);
    assert_eq!(v.str_at("status").unwrap(), "ok");
    assert_eq!(v.str_at("version").unwrap(), "9.9");
    assert_eq!(v.get("instance_count").unwrap().as_u64(), Some(1));
    assert_eq!(v.get("writes_enabled").unwrap().as_bool(), Some(true));
    assert!(v.get("instances").is_none() && v.get("rate").is_none());
    let v = health(&h, &env, &Some(Tenant::Full { id: "x".to_string() }), 0);
    assert!(v.get("instances").unwrap().to_text().contains("dev"));
    assert_eq!(v.get("rate").unwrap().to_text(), "[]");
}

#[test]
fn metrics_are_prometheus_text() {
    let env = Env::new();
    let mut h = small_server(&env);
    h.metrics.insert("read".to_string(), 3);
    h.metrics.insert("discover".to_string(), 1);
    assert_eq!(
        metrics(&h, 2),
        [
            "# HELP samcp_tool_calls_total MCP tool calls by op\n# TYPE samcp_tool_calls_total counter\n",
            "samcp_tool_calls_total{op=\"discover\"} 1\nsamcp_tool_calls_total{op=\"read\"} 3\n",
            "# HELP samcp_sessions_active Active MCP sessions\n# TYPE samcp_sessions_active gauge\n",
            "samcp_sessions_active 2\n",
        ]
        .concat()
    );
}

#[test]
fn the_interface_is_described() {
    let v = openapi("1.0");
    assert_eq!(
        v.to_text(),
        [
            r#"{"info":{"title":"sa-mcp","version":"1.0"},"openapi":"3.0.0","paths":{"/health":{"get":{"summary":"Health check"}},"#,
            r#""/mcp":{"delete":{"summary":"Terminate session"},"get":{"summary":"SSE stream"},"post":{"summary":"Streamable HTTP JSON-RPC"}},"#,
            r#""/messages":{"post":{"summary":"Legacy SSE messages"}},"/sse":{"get":{"summary":"Legacy SSE"}}}}"#,
        ]
        .concat()
    );
}

#[test]
fn lines_are_sorted() {
    assert!(matches!(read_line("  \t"), Incoming::Nothing));
    match read_line(" {\"a\":1} ") {
        Incoming::Request(v) => assert_eq!(v.to_text(), "{\"a\":1}"),
        _ => panic!("request expected"),
    }
    match read_line("[1,2]") {
        Incoming::Batch(a) => assert_eq!(a.len(), 2),
        _ => panic!("batch expected"),
    }
    match read_line("{") {
        Incoming::Answer(t) => assert_eq!(
            t,
            r#"{"error":{"code":-32700,"message":"parse error: EOF while parsing an object at line 1 column 1"},"id":null,"jsonrpc":"2.0"}"#
        ),
        _ => panic!("answer expected"),
    }
    assert!(matches!(read_text_frame("[1]"), Incoming::Request(Json::Array(_))));
    assert!(matches!(read_text_frame(""), Incoming::Answer(_)));
    assert!(matches!(read_binary_frame(Some("{}")), Incoming::Request(_)));
    assert!(matches!(read_binary_frame(Some("{")), Incoming::Nothing));
    assert!(matches!(read_binary_frame(None), Incoming::Nothing));
    assert!(matches!(sort_message(Ok(Json::Null), true), Incoming::Request(Json::Null)));
    assert_eq!(response_line(&Json::num(1)), "1\n");
    assert_eq!(batch_line(vec![Json::num(1), Json::Null]).unwrap(), "[1,null]\n");
    assert!(batch_line(vec![]).is_none());
    assert_eq!(query_of("/ws?token=a?b"), "token=a?b");
    assert_eq!(query_of("/ws"), "");
    assert_eq!(response_or_empty(None).to_text(), r#"{"id":null,"jsonrpc":"2.0","result":{}}"#);
    assert_eq!(response_or_empty(Some(Json::num(1))).to_text(), "1");
    assert!(parsed_json(&parse_error_json("e").to_text()).get("error").is_some());
}

#[test]
fn settings_files_do_not_overwrite() {
    let mut env = env_with(&[("SET", "old")]);
    let text = "# c\r\nA=1\r\n export B = \"two words\" \nSET=new\nnothing\nC='x=y'\nA=2\nD=\"\n E = \n";
    assert!(load_dotenv_fallback(&mut env, text).is_none());
    let mut env = env_with(&[("SET", "old")]);
    let text = "# c\r\nA=1\r\n export B = \"two words\" \nSET=new\nnothing\nC='x=y'\nA=2\n E = \n";
    let set = load_dotenv_fallback(&mut env, text).unwrap();
    let pairs: Vec<String> = set.iter().map(|(k, v)| format!("{}={}", k, v)).collect();
    assert_eq!(pairs, vec!["A=1", "B=two words", "C=x=y", "E="]);
    assert_eq!(env.var("SET").unwrap(), "old");
    assert_eq!(env.var("B").unwrap(), "two words");
    assert!(matches!(read_setting("X='"), Setting::Fault));
    assert!(matches!(read_setting("X=''"), Setting::Assign(_, v) if v.is_empty()));
    assert!(matches!(read_setting("#X=1"), Setting::Nothing));
}

#[test]
fn transports_have_names() {
    assert!(matches!(choose_transport("stdio"), Ok(Transport::Stdio)));
    for n in ["http", "streamable-http", "sse"] {
        assert!(matches!(choose_transport(n), Ok(Transport::Http)));
    }
    for n in ["ws", "websocket"] {
        assert!(matches!(choose_transport(n), Ok(Transport::Ws)));
    }
    match choose_transport("tcp") {
        Err(e) => assert_eq!(e, "unknown transport 'tcp' (use stdio|http|sse|ws)"),
        Ok(_) => panic!("error expected"),
    }
    assert_eq!(reach_line("dev", true, false), "- dev: reachable=true v4=false");
}
