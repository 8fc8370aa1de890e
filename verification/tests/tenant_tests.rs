use sa_mcp::config::Env;
use sa_mcp::strmap::StrMap;
use sa_mcp::tenant::{
    bearer_from, digest_token, rate_warning, resolve_tenant, RateLimiter, Tenant,
};

const SECOND: u64 = 1_000_000_000;

fn toks(pairs: &[(&str, &[&str])]) -> StrMap<Vec<String>> {
    let mut m = StrMap::new();
    for (k, v) in pairs {
        m.insert(k.to_string(), v.iter().map(|s| s.to_string()).collect());
    }
    m
}

fn vars(pairs: &[(&str, &str)]) -> Env {
    let mut env = Env::new();
    for (k, v) in pairs {
        env.set(k, v);
    }
    env
}

#[test]
fn tenant_isolation() {
    let env = Env::new();
    let m = toks(&[("a", &["tok-a"]), ("b", &["tok-b"])]);
    let ta = resolve_tenant(Some("tok-a"), true, &m, &env).ok().unwrap();
    assert!(ta.check("a").is_ok());
    assert!(ta.check("b").is_err());
    assert_eq!(ta.filter(&vec!["a".to_string(), "b".to_string()]), vec!["a".to_string()]);
    let admin = resolve_tenant(Some("stranger-token"), false, &m, &env).ok().unwrap();
    assert!(admin.check("b").is_ok());
    assert!(resolve_tenant(Some("nope"), true, &m, &env).is_err());
    assert!(resolve_tenant(None, true, &m, &env).is_err());
    assert!(resolve_tenant(None, false, &m, &env).ok().unwrap().check("b").is_ok());
}

#[test]
fn admin_token_wins() {
    let env = vars(&[("MCP_AUTH_TOKEN", "adm-xyz")]);
    let m = toks(&[("a", &["tok-a"])]);
    let t = resolve_tenant(Some("adm-xyz"), true, &m, &env).ok().unwrap();
    assert!(t.check("a").is_ok());
    assert!(t.check("zzz").is_ok());
}

#[test]
fn rate_block_and_warn() {
    let env = vars(&[
        ("SAP_MCP_RATE_LIMIT_MODE", "block"),
        ("SAP_MCP_RATE_LIMIT_MAX_CALLS", "2"),
        ("SAP_MCP_RATE_LIMIT_WINDOW", "60"),
    ]);
    let mut r = RateLimiter::new();
    assert!(r.check(&env, "t", "i", "tool", 0).0);
    assert!(r.check(&env, "t", "i", "tool", 1).0);
    assert!(!r.check(&env, "t", "i", "tool", 2).0);
    // other tenant unaffected
    assert!(r.check(&env, "t2", "i", "tool", 3).0);
}

#[test]
fn callers_are_labelled() {
    let env = vars(&[("MCP_AUTH_TOKEN", "adm")]);
    let m = toks(&[("b", &["x", "y"]), ("a", &["x"])]);
    match resolve_tenant(Some(" x "), true, &m, &env) {
        Ok(Tenant::Restricted { id, instances }) => {
            assert_eq!(id, digest_token("x"));
            assert_eq!(instances, vec!["a".to_string(), "b".to_string()]);
        }
        _ => panic!("restricted caller expected"),
    }
    assert_eq!(resolve_tenant(Some("adm"), true, &m, &env).ok().unwrap().id(), "admin");
    assert_eq!(resolve_tenant(Some("adm"), false, &m, &env).ok().unwrap().id(), &digest_token("adm"));
    assert_eq!(resolve_tenant(Some("  "), false, &m, &env).ok().unwrap().id(), "local");
    assert!(matches!(resolve_tenant(Some(""), true, &m, &env), Err(e) if e == "missing bearer token"));
    assert!(matches!(resolve_tenant(Some("z"), true, &m, &env), Err(e) if e == "unknown token"));
    assert!(matches!(resolve_tenant(Some("z"), true, &m, &Env::new()), Err(_)));
}

#[test]
fn token_labels_are_digests() {
    // sha256("abc") = ba7816bf8f01cfea...
    assert_eq!(digest_token("abc"), "t-ba7816bf8f01");
}

#[test]
fn refusals_name_the_system() {
    let t = Tenant::Restricted { id: "t-1".to_string(), instances: vec!["a".to_string()] };
    assert_eq!(t.check("b").unwrap_err(), "tenant 't-1' has no access to instance 'b'");
    assert!(t.check("a").is_ok());
}

#[test]
fn resources_have_a_home() {
    let full = Tenant::Full { id: "x".to_string() };
    assert_eq!(full.resource_default("d").unwrap(), "d");
    let t = Tenant::Restricted {
        id: "x".to_string(),
        instances: vec!["c".to_string(), "b".to_string()],
    };
    assert_eq!(t.resource_default("c").unwrap(), "c");
    assert_eq!(t.resource_default("d").unwrap(), "b");
    let none = Tenant::Restricted { id: "x".to_string(), instances: vec![] };
    assert!(none.resource_default("d").is_none());
}

#[test]
fn bearers_come_from_header_or_query() {
    assert_eq!(bearer_from(Some("Bearer  a "), "token=b").unwrap(), "a");
    assert_eq!(bearer_from(Some("bearer a"), "").unwrap(), "a");
    assert_eq!(bearer_from(Some("Basic a"), "x=1&token=b").unwrap(), "b");
    assert_eq!(bearer_from(Some("Bearer "), "access_token=c=d").unwrap(), "c=d");
    assert_eq!(bearer_from(None, "token=&access_token=e").unwrap(), "e");
    assert!(bearer_from(None, "tokens=b&token").is_none());
    assert!(bearer_from(None, "").is_none());
}

#[test]
fn windows_slide() {
    let env = vars(&[
        ("SAP_MCP_RATE_LIMIT_MODE", "Block"),
        ("SAP_MCP_RATE_LIMIT_MAX_CALLS", "1"),
        ("SAP_MCP_RATE_LIMIT_WINDOW", "10"),
    ]);
    let mut r = RateLimiter::new();
    assert_eq!(r.check(&env, "t", "i", "tool", 0), (true, 1));
    assert_eq!(r.check(&env, "t", "i", "tool", 10 * SECOND), (false, 2));
    assert_eq!(r.check(&env, "t", "i", "tool", 10 * SECOND + 1), (false, 2));
    assert_eq!(r.check(&env, "t", "i", "tool", 21 * SECOND), (true, 1));
    assert_eq!(r.check(&env, "t", "j", "tool", 21 * SECOND), (true, 1));
    assert_eq!(
        r.snapshot(&env, 21 * SECOND).to_text(),
        "[{\"count\":1,\"instance\":\"i\",\"tenant\":\"t\",\"tool\":\"tool\"},{\"count\":1,\"instance\":\"j\",\"tenant\":\"t\",\"tool\":\"tool\"}]"
    );
    assert_eq!(r.snapshot(&env, 32 * SECOND).to_text(), "[]");
}

#[test]
fn only_block_blocks() {
    let mut r = RateLimiter::new();
    let off = Env::new();
    for _ in 0..300 {
        assert_eq!(r.check(&off, "t", "i", "tool", 5), (true, 0));
    }
    let warn = vars(&[
        ("SAP_MCP_RATE_LIMIT_MODE", "warn"),
        ("SAP_MCP_RATE_LIMIT_MAX_CALLS", "1"),
    ]);
    assert_eq!(r.check(&warn, "t", "i", "tool", 5), (true, 1));
    assert!(rate_warning(&warn, "t", "i", "tool", 1).is_none());
    assert_eq!(r.check(&warn, "t", "i", "tool", 5), (true, 2));
    assert_eq!(
        rate_warning(&warn, "t", "i", "tool", 2).unwrap(),
        "[sa-mcp] rate warn tenant=t instance=i tool=tool count=2"
    );
    assert!(rate_warning(&warn, "t", "i", "tool", 3).is_none());
    assert!(rate_warning(&off, "t", "i", "tool", 121).is_none());
}

#[test]
fn too_many_keys_are_dropped() {
    let env = vars(&[("SAP_MCP_RATE_LIMIT_MODE", "warn")]);
    let mut r = RateLimiter::new();
    for k in 0..4097 {
        r.check(&env, &format!("t{}", k), "i", "tool", 1);
    }
    // A key that is known stays, whatever the number of keys.
    assert_eq!(r.check(&env, "t0", "i", "tool", 1), (true, 2));
    // A new one drops all others.
    assert_eq!(r.check(&env, "new", "i", "tool", 1), (true, 1));
    assert_eq!(r.check(&env, "t0", "i", "tool", 1), (true, 1));
}

#[test]
fn floods_of_callers_are_bounded() {
    let env = vars(&[("SAP_MCP_RATE_LIMIT_MODE", "block")]);
    let mut r = RateLimiter::new();
    for i in 0..4097 {
        assert_eq!(r.check(&env, &format!("t{}", i), "i", "o", 0), (true, 1));
    }
    // The keys that there are go on to be counted; a new one makes room for itself.
    assert_eq!(r.check(&env, "t0", "i", "o", 0), (true, 2));
    assert_eq!(r.check(&env, "new", "i", "o", 0), (true, 1));
    assert_eq!(r.snapshot(&env, 0).as_array().unwrap().len(), 1);
    assert_eq!(r.check(&env, "t0", "i", "o", 0), (true, 1));
}

#[test]
fn counts_are_those_of_the_window() {
    let env = vars(&[
        ("SAP_MCP_RATE_LIMIT_MODE", "block"),
        ("SAP_MCP_RATE_LIMIT_MAX_CALLS", "2"),
        ("SAP_MCP_RATE_LIMIT_WINDOW", "10"),
    ]);
    let mut r = RateLimiter::new();
    let mut made: Vec<u64> = vec![];
    for at in [0, 3, 3, 9, 10, 13, 14, 19, 24, 24, 40] {
        // What others call is no matter.
        r.check(&env, "other", "i", "tool", at * SECOND);
        r.check(&env, "t", "i", "another", at * SECOND);
        made.push(at);
        let n = made.iter().filter(|m| at - **m <= 10).count();
        assert_eq!(r.check(&env, "t", "i", "tool", at * SECOND), (n <= 2, n));
    }
}
