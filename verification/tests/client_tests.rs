use sa_mcp::config::{single_instance, Env, SapInstanceConfig};
use sa_mcp::edmx::{parse_edmx, Edmx, XmlAttribute, XmlEvent, XmlTag};
use sa_mcp::json::Json;
use sa_mcp::odata::{
    basic_header, error_in, normalize_collection, odata_error, truncate, url_encode,
    url_with_params,
};
use sa_mcp::pool::SapPool;
use sa_mcp::sap_client::{
    read_token_body, ClientCall, HttpReply, HttpRequest, Outcome, Progress, QueryCall, SapClient,
    TokenReply,
};
use sa_mcp::strmap::StrMap;
use sa_mcp::tenant::Tenant;

const SAMPLE_EDMX: &str = r#"<?xml version="1.0" encoding="utf-8"?>
<edmx:Edmx Version="1.0" xmlns:edmx="http://schemas.microsoft.com/ado/2007/06/edmx">
<edmx:DataServices>
<Schema Namespace="API_BUSINESS_PARTNER" xmlns="http://schemas.microsoft.com/ado/2008/09/edm">
<EntityType Name="A_BusinessPartnerType">
<Key><PropertyRef Name="BusinessPartner"/></Key>
<Property Name="BusinessPartner" Type="Edm.String" Nullable="false" MaxLength="10"/>
<Property Name="BusinessPartnerFullName" Type="Edm.String" Nullable="true"/>
</EntityType>
<EntityContainer Name="API_BUSINESS_PARTNER_Entities">
<EntitySet Name="A_BusinessPartner" EntityType="API_BUSINESS_PARTNER.A_BusinessPartnerType" sap:creatable="true" sap:updatable="true" sap:deletable="false"/>
</EntityContainer>
</Schema>
</edmx:DataServices>
</edmx:Edmx>"#;

const MINUTE: u64 = 60_000_000_000;

fn read(text: &str) -> Json {
    match Json::parse(text) {
        Ok(v) => v,
        Err(e) => panic!("{}", e),
    }
}

fn system(vars: &[(&str, &str)]) -> SapInstanceConfig {
    let mut env = Env::new();
    env.set("SAP_URL", "http://sap");
    env.set("SAP_SERVICE", "/svc");
    env.set("SAP_USERNAME", "u");
    env.set("SAP_PASSWORD", "p");
    for (k, v) in vars {
        env.set(k, v);
    }
    single_instance(&env)
}

fn sent(p: Progress) -> (HttpRequest, sa_mcp::sap_client::Exchange) {
    match p {
        Progress::Send { request, next } => (request, next),
        Progress::Done(Outcome::Failed(e)) => panic!("{}", e),
        _ => panic!("request expected"),
    }
}

fn failed(p: Progress) -> String {
    match p {
        Progress::Done(Outcome::Failed(e)) => e,
        _ => panic!("failure expected"),
    }
}

fn gave(p: Progress) -> String {
    match p {
        Progress::Done(Outcome::Value(v)) => v.to_text(),
        Progress::Done(Outcome::Failed(e)) => panic!("{}", e),
        _ => panic!("value expected"),
    }
}

fn answer(status: u16, text: &str) -> HttpReply {
    HttpReply::Answer { status, text: text.to_string(), csrf: None }
}

fn header<'a>(r: &'a HttpRequest, name: &str) -> Option<&'a str> {
    r.headers.iter().find(|(k, _)| k == name).map(|(_, v)| v.as_str())
}

#[test]
fn edmx_parses_sets_types_keys_caps() {
    let md = parse_edmx(SAMPLE_EDMX).ok().unwrap();
    let sets = md.get("entity_sets").unwrap().as_array().unwrap();
    assert_eq!(sets.len(), 1);
    assert_eq!(sets[0].str_at("name").unwrap(), "A_BusinessPartner");
    assert_eq!(sets[0].str_at("entity_type").unwrap(), "A_BusinessPartnerType");
    assert_eq!(sets[0].get("creatable").unwrap().as_bool(), Some(true));
    assert_eq!(sets[0].get("deletable").unwrap().as_bool(), Some(false));
    let t = md.get("entity_types").unwrap().get("A_BusinessPartnerType").unwrap();
    assert_eq!(t.get("keys").unwrap().to_text(), "[\"BusinessPartner\"]");
    assert_eq!(t.get("properties").unwrap().as_array().unwrap().len(), 2);
}

#[test]
fn collection_envelopes_normalized() {
    let v2 = read(r#"{"d": {"results": [{"a": 1}], "__count": "7"}}"#);
    let n = normalize_collection(&v2);
    assert_eq!(n.get("count").unwrap().as_i64(), Some(1));
    assert_eq!(n.get("total").unwrap().as_i64(), Some(7));
    let v4 = read(r#"{"value": [{"a": 1}], "@odata.count": 9}"#);
    let n = normalize_collection(&v4);
    assert_eq!(n.get("total").unwrap().as_i64(), Some(9));
}

#[test]
fn other_envelopes_are_normalized() {
    assert_eq!(normalize_collection(&read("[1,2]")).to_text(), r#"{"count":2,"records":[1,2]}"#);
    assert_eq!(
        normalize_collection(&read(r#"{"a":1}"#)).to_text(),
        r#"{"count":1,"records":[{"a":1}]}"#
    );
    assert_eq!(
        normalize_collection(&read(r#"{"d":{"results":[],"__count":-3}}"#)).to_text(),
        r#"{"count":0,"records":[],"total":-3}"#
    );
    assert_eq!(
        normalize_collection(&read(r#"{"d":{"results":[],"__count":"x"}}"#)).to_text(),
        r#"{"count":0,"records":[]}"#
    );
    assert_eq!(
        normalize_collection(&read(r#"{"value":[],"@odata.count":"9"}"#)).to_text(),
        r#"{"count":0,"records":[]}"#
    );
}

#[test]
fn single_entities_are_unwrapped() {
    assert_eq!(
        normalize_collection(&read(r#"{"d":{"ID":"1","Email":"x"}}"#)).to_text(),
        r#"{"count":1,"records":[{"Email":"x","ID":"1"}]}"#
    );
    assert_eq!(
        normalize_collection(&read(r#"{"d":[{"ID":"1"},{"ID":"2"}]}"#)).to_text(),
        r#"{"count":2,"records":[{"ID":"1"},{"ID":"2"}]}"#
    );
    // A member `d` among others is no envelope.
    assert_eq!(
        normalize_collection(&read(r#"{"ID":"1","d":{"x":1}}"#)).to_text(),
        r#"{"count":1,"records":[{"ID":"1","d":{"x":1}}]}"#
    );
    assert_eq!(
        normalize_collection(&read(r#"{"ID":"1","d":[1]}"#)).to_text(),
        r#"{"count":1,"records":[{"ID":"1","d":[1]}]}"#
    );
    assert_eq!(
        normalize_collection(&read(r#"{"d":5}"#)).to_text(),
        r#"{"count":1,"records":[{"d":5}]}"#
    );
}

#[test]
fn edmx_full_document() {
    let md = parse_edmx(SAMPLE_EDMX).ok().unwrap();
    assert_eq!(
        md.to_text(),
        [
            r#"{"entity_sets":[{"addressable":true,"creatable":true,"deletable":false,"#,
            r#""entity_type":"A_BusinessPartnerType","name":"A_BusinessPartner","updatable":true}],"#,
            r#""entity_types":{"A_BusinessPartnerType":{"keys":["BusinessPartner"],"properties":["#,
            r#"{"max_length":"10","name":"BusinessPartner","nullable":false,"type":"String"},"#,
            r#"{"max_length":null,"name":"BusinessPartnerFullName","nullable":true,"type":"String"}]}}}"#
        ]
        .concat()
    );
}

#[test]
fn edmx_details() {
    let md = parse_edmx(
        r#"<S><EntityType Name="B" BaseType="ns.Base"/><ComplexType Name="C"><Property Name="x"/></ComplexType>
        <e:EntityType Name="T" BaseType="a.b.P"><PropertyRef Name="no"/><Key><PropertyRef Name="k"/></Key>
        <Property Name="q &amp; r" Type="Edm.Int32"/><Property Type="Edm.Int32"/></e:EntityType>
        <EntitySet Name="Ts" EntityType="T" addressable="false" creatable="true"/><EntitySet EntityType="T"/></S>"#,
    )
    .ok()
    .unwrap();
    assert_eq!(
        md.get("entity_types").unwrap().to_text(),
        [
            r#"{"B":{"base_type":"Base","keys":[],"properties":[]},"#,
            r#""T":{"base_type":"P","keys":["k"],"properties":[{"max_length":null,"name":"q & r","nullable":true,"type":"Int32"}]}}"#
        ]
        .concat()
    );
    assert_eq!(
        md.get("entity_sets").unwrap().to_text(),
        r#"[{"addressable":false,"creatable":true,"deletable":null,"entity_type":"T","name":"Ts","updatable":null}]"#
    );
}

#[test]
fn empty_elements_leave_no_trace() {
    let md = parse_edmx(
        r#"<Schema><ComplexType Name="C"/><EntityType Name="T"><Property Name="P" Type="Edm.String"/></EntityType></Schema>"#,
    )
    .ok()
    .unwrap();
    assert_eq!(
        md.get("entity_types").unwrap().get("T").unwrap().get("properties").unwrap().to_text(),
        r#"[{"max_length":null,"name":"P","nullable":true,"type":"String"}]"#
    );
    let md = parse_edmx(
        r#"<S><EntityType Name="T"><Key/><PropertyRef Name="no"/><Property Name="P"/></EntityType></S>"#,
    )
    .ok()
    .unwrap();
    assert_eq!(
        md.get("entity_types").unwrap().get("T").unwrap().get("keys").unwrap().to_text(),
        "[]"
    );
}

#[test]
fn capabilities_are_as_advertised() {
    let md = parse_edmx(
        r#"<S><EntitySet Name="A" EntityType="T" sap:creatable="false"/><EntitySet Name="B" EntityType="T" updatable="true"/></S>"#,
    )
    .ok()
    .unwrap();
    let sets = md.get("entity_sets").unwrap().as_array().unwrap();
    assert_eq!(sets[0].get("creatable").unwrap().as_bool(), Some(false));
    assert!(sets[0].get("updatable").unwrap().is_null());
    assert!(sets[0].get("deletable").unwrap().is_null());
    assert!(sets[1].get("creatable").unwrap().is_null());
    assert_eq!(sets[1].get("updatable").unwrap().as_bool(), Some(true));
}

#[test]
fn edmx_faults_are_reported() {
    match parse_edmx("<a></b>") {
        Err(e) => assert!(e.starts_with("metadata xml error: "), "{}", e),
        Ok(_) => panic!("error expected"),
    }
    assert_eq!(
        parse_edmx("").ok().unwrap().to_text(),
        r#"{"entity_sets":[],"entity_types":{}}"#
    );
}

#[test]
fn edmx_steps_one_by_one() {
    let tag = |name: &str, attrs: Vec<Option<(&str, Option<&str>)>>| XmlTag {
        name: name.to_string(),
        attributes: attrs
            .into_iter()
            .map(|a| {
                a.map(|(k, v)| XmlAttribute { key: k.to_string(), value: v.map(|s| s.to_string()) })
            })
            .collect(),
    };
    let mut s = Edmx::new();
    s.step(&XmlEvent::Start(tag("x:EntityType", vec![None, Some(("Name", None)), Some(("Name", Some("E")))])));
    s.step(&XmlEvent::Start(tag("ComplexType", vec![])));
    s.step(&XmlEvent::Empty(tag("Property", vec![Some(("Name", Some("hidden")))])));
    s.step(&XmlEvent::End("ComplexType".to_string()));
    s.step(&XmlEvent::Empty(tag("Property", vec![Some(("Name", Some("p")))])));
    s.step(&XmlEvent::Other);
    s.step(&XmlEvent::End("x:EntityType".to_string()));
    assert_eq!(
        s.finish().get("entity_types").unwrap().to_text(),
        r#"{"E":{"keys":[],"properties":[{"max_length":null,"name":"p","nullable":true,"type":""}]}}"#
    );
}

#[test]
fn addresses_and_headers() {
    let c = system(&[("SAP_CLIENT", "100")]);
    assert_eq!(
        url_with_params(&c, "http://x", &vec![("a b".to_string(), "c&d".to_string())]),
        "http://x?sap-client=100&$format=json&a%20b=c%26d"
    );
    let v4 = system(&[("SAP_ODATA_VERSION", "v4")]);
    assert_eq!(url_with_params(&v4, "http://x", &vec![]), "http://x");
    assert_eq!(url_encode("ü$'"), "%C3%BC$'");
    assert_eq!(basic_header(&c).unwrap(), "Basic dTpw");
    assert!(basic_header(&system(&[("SAP_AUTH_TYPE", "bearer")])).is_none());
    let mut no_name = system(&[]);
    no_name.username = None;
    assert!(basic_header(&no_name).is_none());
    let mut no_password = system(&[]);
    no_password.password = None;
    assert_eq!(basic_header(&no_password).unwrap(), "Basic dTo=");
}

#[test]
fn errors_are_reported() {
    assert_eq!(
        odata_error(r#"{"error":{"message":{"value":"no"}}}"#).unwrap(),
        "sap error: no"
    );
    assert_eq!(
        odata_error(r#"{"error":{"message":"no"}}"#).unwrap(),
        r#"sap error: {"message":"no"}"#
    );
    assert_eq!(odata_error("plain").unwrap(), "sap http error: plain");
    assert_eq!(odata_error("{}").unwrap(), "sap http error: {}");
    assert!(error_in(&read("{}")).is_none());
    let long = "x".repeat(401);
    assert_eq!(odata_error(&long).unwrap(), format!("sap http error: {}…", "x".repeat(400)));
    let across = format!("{}üx", "x".repeat(399));
    assert!(odata_error(&across).is_none());
    assert_eq!(truncate("aüb", 3).unwrap(), "aü…");
    assert_eq!(truncate("aüb", 4).unwrap(), "aüb");
    assert!(truncate("aüb", 2).is_none());
    assert_eq!(truncate("a€😀b", 4).unwrap(), "a€…");
    assert_eq!(truncate("a€😀b", 8).unwrap(), "a€😀…");
}

#[test]
fn metadata_is_fetched_and_parsed() {
    let mut c = SapClient::new(system(&[]));
    let (r, ex) = sent(c.begin(ClientCall::Metadata { service: None }, 0));
    assert_eq!(r.method, "GET");
    assert_eq!(r.url, "http://sap/svc/$metadata?$format=json");
    let names: Vec<&str> = r.headers.iter().map(|(k, _)| k.as_str()).collect();
    assert_eq!(names, vec!["Accept", "Authorization", "Accept"]);
    assert_eq!(r.headers[2].1, "application/xml");
    assert!(r.body.is_none());
    let md = gave(c.on_reply(ex, &answer(200, SAMPLE_EDMX), 0));
    assert!(md.contains("A_BusinessPartner"));
}

fn query() -> QueryCall {
    QueryCall {
        service: None,
        entity_set: "A_B".to_string(),
        key_segment: None,
        filter: Some("x eq 1".to_string()),
        select: Some("a,b".to_string()),
        expand: None,
        orderby: None,
        top: 25,
        skip: 5,
        count: true,
    }
}

#[test]
fn queries_have_addresses() {
    let c = SapClient::new(system(&[]));
    let (r, _) = sent(c.begin(ClientCall::Query(query()), 0));
    assert_eq!(
        r.url,
        "http://sap/svc/A_B?$format=json&$filter=x%20eq%201&$select=a,b&$top=25&$skip=5&$inlinecount=allpages"
    );
    let v4 = SapClient::new(system(&[("SAP_ODATA_VERSION", "v4")]));
    let mut q = query();
    q.key_segment = Some("K='1'".to_string());
    q.filter = None;
    q.select = None;
    q.expand = Some("N".to_string());
    q.orderby = Some("a desc".to_string());
    q.skip = 0;
    let (r, _) = sent(v4.begin(ClientCall::Query(q), 0));
    assert_eq!(r.url, "http://sap/svc/A_B(K='1')?$expand=N&$orderby=a%20desc&$top=25&$count=true");
    let mut bad = query();
    bad.entity_set = "A/B".to_string();
    assert_eq!(failed(c.begin(ClientCall::Query(bad), 0)), "invalid entity set 'A/B'");
    for k in ["a\nb".to_string(), "a\rb".to_string(), "k".repeat(1025)] {
        let mut bad = query();
        bad.key_segment = Some(k);
        assert_eq!(failed(c.begin(ClientCall::Query(bad), 0)), "invalid key segment");
    }
    let mut bad = query();
    bad.service = Some("x".to_string());
    assert_eq!(failed(c.begin(ClientCall::Query(bad), 0)), "invalid service path 'x'");
}

#[test]
fn reads_are_tried_again() {
    let mut c = SapClient::new(system(&[]));
    let (_, ex) = sent(c.begin(ClientCall::Query(query()), 0));
    let mut next = ex;
    for ms in [500, 1000, 2000] {
        match c.on_reply(next, &answer(503, "busy"), 0) {
            Progress::Sleep { ms: m, next: n } => {
                assert_eq!(m, ms);
                next = sent(c.on_wake(n, 0)).1;
            }
            _ => panic!("wait expected"),
        }
    }
    assert_eq!(failed(c.on_reply(next, &answer(503, "busy"), 0)), "sap http error: busy");
    let (_, ex) = sent(c.begin(ClientCall::Query(query()), 0));
    match c.on_reply(ex, &HttpReply::Unreachable("down".to_string()), 0) {
        Progress::Sleep { .. } => {}
        _ => panic!("wait expected"),
    }
    let (_, ex) = sent(c.begin(ClientCall::Query(query()), 0));
    assert_eq!(failed(c.on_reply(ex, &answer(404, "gone"), 0)), "sap http error: gone");
    let (_, ex) = sent(c.begin(ClientCall::Query(query()), 0));
    assert_eq!(
        gave(c.on_reply(ex, &answer(200, "no json"), 0)),
        r#"{"count":1,"records":["no json"]}"#
    );
    let (_, ex) = sent(c.begin(ClientCall::Query(query()), 0));
    let across = format!("{}ü", "x".repeat(399));
    assert!(matches!(c.on_reply(ex, &answer(400, &across), 0), Progress::Done(Outcome::Fault)));
}

#[test]
fn writes_fetch_a_token_and_are_sent_once() {
    let mut c = SapClient::new(system(&[]));
    let call = || ClientCall::Create {
        service: None,
        entity_set: "A_B".to_string(),
        body: read(r#"{"x":1}"#),
    };
    let (r, ex) = sent(c.begin(call(), 0));
    assert_eq!((r.method.as_str(), r.url.as_str()), ("GET", "http://sap/svc?$format=json"));
    assert_eq!(header(&r, "X-CSRF-Token"), Some("Fetch"));
    let token = HttpReply::Answer { status: 200, text: String::new(), csrf: Some("tok".to_string()) };
    let (r, ex) = sent(c.on_reply(ex, &token, 0));
    assert_eq!((r.method.as_str(), r.url.as_str()), ("POST", "http://sap/svc/A_B?$format=json"));
    assert_eq!(header(&r, "X-CSRF-Token"), Some("tok"));
    assert_eq!(header(&r, "If-Match"), None);
    assert_eq!(r.body.unwrap().to_text(), r#"{"x":1}"#);
    assert_eq!(
        failed(c.on_reply(ex, &HttpReply::Unreachable("lost".to_string()), 0)),
        "http error: lost"
    );
    // The token is kept for twenty minutes.
    let (r, ex) = sent(c.begin(call(), 20 * MINUTE - 1));
    assert_eq!(r.method, "POST");
    assert_eq!(gave(c.on_reply(ex, &answer(201, r#"{"d":1}"#), 0)), r#"{"d":1}"#);
    let (_, ex) = sent(c.begin(call(), 1));
    assert_eq!(gave(c.on_reply(ex, &answer(201, ""), 0)), r#"{"success":true}"#);
    let (_, ex) = sent(c.begin(call(), 1));
    assert_eq!(failed(c.on_reply(ex, &answer(500, "broken"), 0)), "sap http error: broken");
    let (r, _) = sent(c.begin(call(), 20 * MINUTE));
    assert_eq!(r.method, "GET");
}

#[test]
fn tokens_are_refreshed_once() {
    let mut c = SapClient::new(system(&[]));
    let call = ClientCall::Update {
        service: None,
        entity_set: "A_B".to_string(),
        key_segment: "K=1".to_string(),
        body: read("{}"),
        etag: None,
    };
    let token = |t: &str| HttpReply::Answer { status: 200, text: String::new(), csrf: Some(t.to_string()) };
    let (_, ex) = sent(c.begin(call, 0));
    let (r, ex) = sent(c.on_reply(ex, &token("one"), 0));
    assert_eq!((r.method.as_str(), header(&r, "If-Match")), ("MERGE", Some("*")));
    assert_eq!(r.url, "http://sap/svc/A_B(K=1)?$format=json");
    let (r, ex) = sent(c.on_reply(ex, &answer(403, "csrf"), 0));
    assert_eq!(header(&r, "X-CSRF-Token"), Some("Fetch"));
    let (r, ex) = sent(c.on_reply(ex, &token("two"), 0));
    assert_eq!(header(&r, "X-CSRF-Token"), Some("two"));
    assert_eq!(failed(c.on_reply(ex, &answer(403, "still"), 0)), "sap http error: still");
    let del = ClientCall::Delete {
        service: None,
        entity_set: "A_B".to_string(),
        key_segment: "K=1".to_string(),
        etag: Some("W/1".to_string()),
    };
    let (r, ex) = sent(c.begin(del, 0));
    assert_eq!((r.method.as_str(), header(&r, "If-Match")), ("DELETE", Some("W/1")));
    assert!(r.body.is_none());
    assert_eq!(gave(c.on_reply(ex, &answer(204, ""), 0)), r#"{"success":true}"#);
}

#[test]
fn missing_tokens_end_a_write() {
    let mut c = SapClient::new(system(&[]));
    let call = ClientCall::Create { service: None, entity_set: "A".to_string(), body: read("{}") };
    let (_, ex) = sent(c.begin(call, 0));
    assert_eq!(
        failed(c.on_reply(ex, &answer(200, ""), 0)),
        "CSRF token fetch returned empty (check auth)"
    );
}

#[test]
fn fourth_version_needs_no_token() {
    let mut c = SapClient::new(system(&[("SAP_ODATA_VERSION", "v4")]));
    assert!(c.is_v4());
    let call = ClientCall::Update {
        service: Some("/s".to_string()),
        entity_set: "A".to_string(),
        key_segment: "K=1".to_string(),
        body: read("{}"),
        etag: Some("e".to_string()),
    };
    let (r, ex) = sent(c.begin(call, 0));
    assert_eq!((r.method.as_str(), r.url.as_str()), ("PATCH", "http://sap/s/A(K=1)"));
    assert_eq!(header(&r, "X-CSRF-Token"), None);
    assert_eq!(failed(c.on_reply(ex, &answer(403, "no"), 0)), "sap http error: no");
}

#[test]
fn access_tokens_are_fetched_and_kept() {
    let mut c = SapClient::new(system(&[
        ("SAP_AUTH_TYPE", "OAuth2"),
        ("SAP_OAUTH_TOKEN_URL", "http://tok"),
        ("SAP_OAUTH_CLIENT_ID", "i"),
        ("SAP_OAUTH_CLIENT_SECRET", "s"),
        ("SAP_OAUTH_SCOPE", "all"),
    ]));
    let ask = |c: &SapClient, now: u64| match c.begin(ClientCall::Query(query()), now) {
        Progress::FetchToken { url, form, next } => {
            assert_eq!(url, "http://tok");
            let pairs: Vec<String> = form.iter().map(|(k, v)| format!("{}={}", k, v)).collect();
            assert_eq!(
                pairs.join("&"),
                "grant_type=client_credentials&client_id=i&client_secret=s&scope=all"
            );
            next
        }
        _ => panic!("token expected"),
    };
    let text = |status: u16, t: Option<&str>| TokenReply::Answer {
        status,
        status_text: format!("{} Reason", status),
        text: t.map(|s| s.to_string()),
    };
    let ex = ask(&c, 0);
    assert_eq!(failed(c.on_token(ex, &TokenReply::Unreachable, 0)), "oauth token request");
    let ex = ask(&c, 0);
    assert_eq!(failed(c.on_token(ex, &text(401, None), 0)), "oauth token http 401 Reason");
    let ex = ask(&c, 0);
    assert_eq!(failed(c.on_token(ex, &text(200, None), 0)), "parse oauth token");
    let ex = ask(&c, 0);
    assert_eq!(failed(c.on_token(ex, &text(200, Some("{")), 0)), "parse oauth token");
    let ex = ask(&c, 0);
    assert_eq!(
        failed(c.on_token(ex, &text(200, Some("{}")), 0)),
        "oauth response has no access_token"
    );
    let ex = ask(&c, 0);
    let (r, _) =
        sent(c.on_token(ex, &text(200, Some(r#"{"access_token":"T","expires_in":180}"#)), 0));
    assert_eq!(header(&r, "Authorization"), Some("Bearer T"));
    let (r, _) = sent(c.begin(ClientCall::Query(query()), 2 * MINUTE - 1));
    assert_eq!(header(&r, "Authorization"), Some("Bearer T"));
    ask(&c, 2 * MINUTE);
    assert_eq!(read_token_body(&read(r#"{"access_token":"T"}"#)).ok().unwrap().1, 3600);
}

#[test]
fn own_tokens_are_sent() {
    let c = SapClient::new(system(&[("SAP_AUTH_TYPE", "bearer"), ("SAP_TOKEN", "jwt")]));
    let (r, _) = sent(c.begin(ClientCall::Query(query()), 0));
    assert_eq!(header(&r, "Authorization"), Some("Bearer jwt"));
    let mut cfg = system(&[]);
    cfg.auth_type = "none".to_string();
    let (r, _) = sent(SapClient::new(cfg).begin(ClientCall::Query(query()), 0));
    assert_eq!(header(&r, "Authorization"), None);
}

#[test]
fn health_is_a_truth_value() {
    let mut c = SapClient::new(system(&[]));
    for (status, ok) in [(200, "true"), (401, "true"), (403, "true"), (404, "false"), (500, "false"), (199, "false")] {
        let (r, ex) = sent(c.begin(ClientCall::Health, 0));
        assert_eq!(r.url, "http://sap/svc?$format=json");
        assert_eq!(gave(c.on_reply(ex, &answer(status, ""), 0)), ok, "{}", status);
    }
    let (_, ex) = sent(c.begin(ClientCall::Health, 0));
    assert_eq!(gave(c.on_reply(ex, &HttpReply::Unreachable("x".to_string()), 0)), "false");
    let mut cfg = system(&[]);
    cfg.service = None;
    assert_eq!(gave(SapClient::new(cfg).begin(ClientCall::Health, 0)), "false");
    let mut quick = system(&[]);
    quick.timeout_ms = 5;
    assert_eq!(SapClient::new(quick).timeout_ms(), 1000);
    assert_eq!(SapClient::new(system(&[])).timeout_ms(), 30000);
    assert!(SapClient::new(system(&[])).verifies_certificates());
}

fn two_systems() -> SapPool {
    let mut m = StrMap::new();
    let mut b = system(&[("SAP_ODATA_VERSION", "v4")]);
    b.mcp_tokens = vec!["tb".to_string()];
    m.insert("b".to_string(), b);
    m.insert("a".to_string(), system(&[("SAP_MCP_TOKEN", "ta")]));
    SapPool::new("b".to_string(), m)
}

#[test]
fn pools_know_their_systems() {
    let mut p = two_systems();
    assert_eq!(p.instance_names(), vec!["a", "b"]);
    assert_eq!(p.default_name(), "b");
    assert_eq!(p.resolve_name(None), "b");
    assert_eq!(p.resolve_name(Some("x")), "x");
    assert!(p.get("a").is_ok());
    assert_eq!(p.get("x").unwrap_err(), "unknown instance 'x'");
    assert!(matches!(p.config_for("x"), Err(e) if e == "unknown instance 'x'"));
    assert!(p.config_for("b").ok().unwrap().is_v4());
    let t = p.instance_tokens();
    assert_eq!(t.get("a").unwrap(), &vec!["ta".to_string()]);
    assert_eq!(t.get("b").unwrap(), &vec!["tb".to_string()]);
    assert_eq!(
        p.describe_for_admin().to_text(),
        [
            r#"[{"is_default":false,"name":"a","odata":"v2","service":"/svc","url":"http://sap"},"#,
            r#"{"is_default":true,"name":"b","odata":"v4","service":"/svc","url":"http://sap"}]"#
        ]
        .concat()
    );
    let t = Tenant::Restricted { id: "t".to_string(), instances: vec!["a".to_string(), "zz".to_string()] };
    assert_eq!(
        p.describe_for(&t).to_text(),
        r#"[{"is_default":false,"name":"a","odata":"v2","service":"/svc","url":"http://sap"}]"#
    );
}

#[test]
fn pools_keep_the_tokens_of_each_system() {
    let mut p = two_systems();
    let call = || ClientCall::Create { service: None, entity_set: "A".to_string(), body: read("{}") };
    let (r, ex) = sent(p.begin("a", call(), 0));
    assert_eq!(r.method, "GET");
    let token = HttpReply::Answer { status: 200, text: String::new(), csrf: Some("t".to_string()) };
    let (_, ex) = sent(p.on_reply("a", ex, &token, 0));
    assert_eq!(gave(p.on_reply("a", ex, &answer(201, "{}"), 0)), "{}");
    let (r, _) = sent(p.begin("a", call(), 1));
    assert_eq!(header(&r, "X-CSRF-Token"), Some("t"));
    let (r, _) = sent(p.begin("b", call(), 1));
    assert_eq!(header(&r, "X-CSRF-Token"), None);
    assert_eq!(failed(p.begin("x", call(), 1)), "unknown instance 'x'");
}
