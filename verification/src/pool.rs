//! The SAP systems and their clients.

use vstd::prelude::*;
use vstd::string::*;
use crate::config::{configs_of, opt_slice, url_normal, Configs, ConfigV, SapInstanceConfig};
use crate::json::{no_members, opt_str_v, push_value, values, Json, JsonV, Object};
use crate::sap_client::{begun, replied, token_came, tried, ClientCall, ClientV, CallV, Exchange, ExchangeV, HttpReply, HttpReplyV, OutcomeV, Outcome, Progress, ProgressV, SapClient, TokenReply, TokenReplyV};
use crate::strmap::{each, find, keys, lemma_each_find, lemma_each_put, lemma_each_without, lemma_put_find, lemma_put_without, put, StrMap};
use crate::tenant::{tokens_of, Tenant, TenantV, Tokens};
use crate::text::{cat3, copy_list, same, texts};

verus! {

/// The clients, by system.
pub type Clients = Seq<(Seq<char>, ClientV)>;

/// What clients are.
pub open spec fn clients_of(m: Seq<(Seq<char>, SapClient)>) -> Clients {
    each(m, |c: SapClient| c@)
}

/// The systems, which of them is the default one, and the clients that are in use.
pub struct SapPool {
    default: String,
    configs: StrMap<SapInstanceConfig>,
    clients: StrMap<SapClient>,
}

/// The systems, which of them is the default one, and the clients that are in use.
#[verifier::ext_equal]
pub struct PoolV {
    pub default: Seq<char>,
    pub configs: Configs,
    pub clients: Clients,
}

/// What a call for a system that there is not is answered.
pub open spec fn unknown_instance(name: Seq<char>) -> Seq<char> {
    "unknown instance '"@ + name + "'"@
}

impl PoolV {
    /// The client of a system: the one that is in use, or a new one.
    pub open spec fn client(self, name: Seq<char>) -> Option<ClientV> {
        match find(self.clients, name) {
            Some(c) => Some(c),
            None => match find(self.configs, name) {
                Some(cfg) => Some(ClientV { cfg, csrf: None, oauth: None }),
                None => None,
            },
        }
    }

    /// The pool with a client in use.
    pub open spec fn with_client(self, name: Seq<char>, c: ClientV) -> PoolV {
        PoolV { clients: put(self.clients, name, c), ..self }
    }

    /// The system that a request goes to.
    pub open spec fn resolved(self, req: Option<Seq<char>>) -> Seq<char> {
        match req {
            Some(s) => s,
            None => self.default,
        }
    }
}

/// What is shown of a system.
pub open spec fn description(name: Seq<char>, cfg: ConfigV, is_default: bool) -> JsonV {
    let o = put(no_members(), "name"@, JsonV::Str(name));
    let o = put(o, "url"@, JsonV::Str(url_normal(cfg.url)));
    let o = put(
        o,
        "odata"@,
        JsonV::Str(
            if cfg.v4() {
                "v4"@
            } else {
                "v2"@
            },
        ),
    );
    let o = put(o, "service"@, opt_str_v(cfg.service));
    JsonV::Obj(put(o, "is_default"@, JsonV::Bool(is_default)))
}

/// What is shown of systems.
pub open spec fn descriptions(p: PoolV, names: Seq<Seq<char>>) -> Seq<JsonV>
    decreases names.len(),
{
    if names.len() == 0 {
        Seq::empty()
    } else {
        let head = descriptions(p, names.drop_last());
        match find(p.configs, names.last()) {
            Some(cfg) => head.push(description(names.last(), cfg, names.last() == p.default)),
            None => head,
        }
    }
}

/// What a caller is shown of the systems.
pub open spec fn described(p: PoolV, t: TenantV) -> JsonV {
    JsonV::Arr(descriptions(p, t.visible(keys(p.configs))))
}

/// The tokens of the tenants, by system.
pub open spec fn config_tokens(m: Configs) -> Tokens {
    each(m, |c: ConfigV| c.mcp_tokens)
}

/// After a call of the system `name` began.
pub open spec fn pool_begun(p: PoolV, name: Seq<char>, call: CallV, now: u64) -> (PoolV, ProgressV) {
    match p.client(name) {
        Some(c) => (p.with_client(name, c), begun(c, call, now)),
        None => (p, ProgressV::Done(OutcomeV::Failed(unknown_instance(name)))),
    }
}

/// After an access token came.
pub open spec fn pool_token_came(
    p: PoolV,
    name: Seq<char>,
    ex: ExchangeV,
    reply: TokenReplyV,
    now: u64,
) -> (PoolV, ProgressV) {
    match p.client(name) {
        Some(c) => {
            let r = token_came(c, ex, reply, now);
            (p.with_client(name, r.0), r.1)
        },
        None => (p, ProgressV::Done(OutcomeV::Failed(unknown_instance(name)))),
    }
}

/// After an answer came.
pub open spec fn pool_replied(
    p: PoolV,
    name: Seq<char>,
    ex: ExchangeV,
    reply: HttpReplyV,
    now: u64,
) -> (PoolV, ProgressV) {
    match p.client(name) {
        Some(c) => {
            let r = replied(c, ex, reply, now);
            (p.with_client(name, r.0), r.1)
        },
        None => (p, ProgressV::Done(OutcomeV::Failed(unknown_instance(name)))),
    }
}

/// After a wait.
pub open spec fn pool_woken(p: PoolV, name: Seq<char>, ex: ExchangeV, now: u64) -> (
    PoolV,
    ProgressV,
) {
    match p.client(name) {
        Some(c) => (p.with_client(name, c), tried(c, ex, now)),
        None => (p, ProgressV::Done(OutcomeV::Failed(unknown_instance(name)))),
    }
}

impl SapPool {
    /// What the pool is.
    pub closed spec fn view(&self) -> PoolV {
        PoolV {
            default: self.default@,
            configs: configs_of(self.configs@),
            clients: clients_of(self.clients@),
        }
    }

    /// A pool of systems, none of which was called yet.
    pub fn new(default: String, configs: StrMap<SapInstanceConfig>) -> (r: SapPool)
        ensures
            (r@ == PoolV {
                default: default@,
                configs: configs_of(configs@),
                clients: Seq::empty(),
            }),
    {
        let clients: StrMap<SapClient> = StrMap::new();
        assert(clients_of(clients@) =~= Seq::<(Seq<char>, ClientV)>::empty());
        SapPool { default, configs, clients }
    }

    /// The names of the systems, in order.
    pub fn instance_names(&self) -> (r: Vec<String>)
        ensures
            texts(r@) == keys(self@.configs),
    {
        let mut out: Vec<String> = Vec::new();
        let n: usize = self.configs.len();
        let mut i: usize = 0;
        while i < n
            invariant
                i <= n,
                n == self.configs@.len(),
                out@.len() == i,
                forall|k: int| 0 <= k < i ==> #[trigger] out@[k]@ == self.configs@[k].0,
            decreases n - i,
        {
            out.push(self.configs.key_at(i).clone());
            i = i + 1;
        }
        assert(texts(out@) =~= keys(self@.configs));
        out
    }

    /// The name of the default system.
    pub fn default_name(&self) -> (r: &String)
        ensures
            r@ == self@.default,
    {
        &self.default
    }

    /// The system that a request goes to: the one that it names, or the default one.
    pub fn resolve_name(&self, req: Option<&str>) -> (r: String)
        ensures
            r@ == self@.resolved(opt_slice(req)),
    {
        match req {
            Some(s) => s.to_owned(),
            None => self.default.clone(),
        }
    }

    /// The settings of a system.
    pub fn config_for(&self, name: &str) -> (r: Result<SapInstanceConfig, String>)
        ensures
            (match r {
                Ok(c) => find(self@.configs, name@) == Some(c@),
                Err(e) => find(self@.configs, name@) is None && e@ == unknown_instance(name@),
            }),
    {
        proof {
            lemma_each_find(self.configs@, |c: SapInstanceConfig| c@, name@);
        }
        match self.configs.get(name) {
            Some(c) => Ok(c.copy()),
            None => Err(cat3("unknown instance '", name, "'")),
        }
    }

    fn take(&mut self, name: &str) -> (r: Result<SapClient, String>)
        ensures
            (match r {
                Ok(c) => {
                    &&& old(self)@.client(name@) == Some(c@)
                    &&& final(self)@.default == old(self)@.default
                    &&& final(self)@.configs == old(self)@.configs
                    &&& forall|c2: ClientV|
                        #[trigger] put(final(self)@.clients, name@, c2) == put(
                            old(self)@.clients,
                            name@,
                            c2,
                        )
                },
                Err(e) => {
                    &&& old(self)@.client(name@) is None
                    &&& e@ == unknown_instance(name@)
                    &&& final(self)@ == old(self)@
                },
            }),
    {
        let ghost before_take = self@;
        proof {
            lemma_each_find(self.clients@, |c: SapClient| c@, name@);
            lemma_each_find(self.configs@, |c: SapInstanceConfig| c@, name@);
            lemma_each_without(self.clients@, |c: SapClient| c@, name@);
        }
        self.clients.ordered();
        let ghost sorted = self.clients@;
        if self.clients.has(name) {
            let c = self.clients.remove(name);
            proof {
                assert forall|c2: ClientV|
                    #[trigger] put(self@.clients, name@, c2) == put(
                        before_take.clients,
                        name@,
                        c2,
                    ) by {
                    lemma_clients_sorted(sorted);
                    lemma_put_without(before_take.clients, name@, c2);
                }
            }
            if let Some(c) = c {
                return Ok(c);
            }
        }
        match self.configs.get(name) {
            Some(cfg) => Ok(SapClient::new(cfg.copy())),
            None => Err(cat3("unknown instance '", name, "'")),
        }
    }

    fn keep(&mut self, name: &str, c: SapClient)
        ensures
            final(self)@ == old(self)@.with_client(name@, c@),
    {
        proof {
            lemma_each_put(self.clients@, |c: SapClient| c@, name@, c);
        }
        self.clients.insert(name.to_owned(), c);
    }

    /// Takes the client of a system into use.
    pub fn get(&mut self, name: &str) -> (r: Result<(), String>)
        ensures
            (match old(self)@.client(name@) {
                Some(c) => r is Ok && final(self)@ == old(self)@.with_client(name@, c),
                None => r matches Err(e) && e@ == unknown_instance(name@) && final(self)@ == old(
                    self,
                )@,
            }),
    {
        match self.take(name) {
            Ok(c) => {
                self.keep(name, c);
                Ok(())
            },
            Err(e) => Err(e),
        }
    }

    /// Starts a call of a system.
    pub fn begin(&mut self, name: &str, call: ClientCall, now: u64) -> (r: Progress)
        ensures
            (final(self)@, r@) == pool_begun(old(self)@, name@, call@, now),
    {
        match self.take(name) {
            Ok(c) => {
                let p = c.begin(call, now);
                self.keep(name, c);
                p
            },
            Err(e) => Progress::Done(Outcome::Failed(e)),
        }
    }

    /// The answer to a request for an access token came.
    pub fn on_token(&mut self, name: &str, ex: Exchange, reply: &TokenReply, now: u64) -> (r:
        Progress)
        ensures
            (final(self)@, r@) == pool_token_came(old(self)@, name@, ex@, reply@, now),
    {
        match self.take(name) {
            Ok(c) => {
                let mut c = c;
                let p = c.on_token(ex, reply, now);
                self.keep(name, c);
                p
            },
            Err(e) => Progress::Done(Outcome::Failed(e)),
        }
    }

    /// The answer to a request came, or none.
    pub fn on_reply(&mut self, name: &str, ex: Exchange, reply: &HttpReply, now: u64) -> (r:
        Progress)
        ensures
            (final(self)@, r@) == pool_replied(old(self)@, name@, ex@, reply@, now),
    {
        match self.take(name) {
            Ok(c) => {
                let mut c = c;
                let p = c.on_reply(ex, reply, now);
                self.keep(name, c);
                p
            },
            Err(e) => Progress::Done(Outcome::Failed(e)),
        }
    }

    /// The wait before trying again is over.
    pub fn on_wake(&mut self, name: &str, ex: Exchange, now: u64) -> (r: Progress)
        ensures
            (final(self)@, r@) == pool_woken(old(self)@, name@, ex@, now),
    {
        match self.take(name) {
            Ok(c) => {
                let p = c.on_wake(ex, now);
                self.keep(name, c);
                p
            },
            Err(e) => Progress::Done(Outcome::Failed(e)),
        }
    }

    /// The tokens of the tenants, by system.
    pub fn instance_tokens(&self) -> (r: StrMap<Vec<String>>)
        ensures
            tokens_of(r@) == config_tokens(self@.configs),
    {
        let mut out: StrMap<Vec<String>> = StrMap::new();
        let n: usize = self.configs.len();
        let mut i: usize = 0;
        self.configs.ordered();
        while i < n
            invariant
                i <= n,
                n == self.configs@.len(),
                crate::strmap::sorted_keys(self.configs@),
                out@.len() == i,
                forall|k: int|
                    0 <= k < i ==> (#[trigger] out@[k]).0 == self.configs@[k].0 && texts(
                        out@[k].1@,
                    ) == self.configs@[k].1@.mcp_tokens,
            decreases n - i,
        {
            let key = self.configs.key_at(i).clone();
            let value = copy_list(&self.configs.value_at(i).mcp_tokens);
            let ghost before_out = out@;
            proof {
                assert forall|j: int| 0 <= j < before_out.len() implies crate::text::lex_lt(
                    (#[trigger] before_out[j]).0,
                    key@,
                ) by {
                    assert(before_out[j].0 == self.configs@[j].0);
                    assert(crate::text::lex_lt(self.configs@[j].0, self.configs@[i as int].0));
                }
                crate::strmap::lemma_put_last(before_out, key@, value);
            }
            out.insert(key, value);
            i = i + 1;
        }
        assert(tokens_of(out@) =~= config_tokens(self@.configs));
        out
    }

    /// What the operator of the server is shown of the systems.
    pub fn describe_for_admin(&self) -> (r: Json)
        ensures
            (r@ == described(self@, TenantV::Full { id: "local"@ })),
    {
        self.describe_for(&Tenant::Full { id: "local".to_owned() })
    }

    /// What a caller is shown of the systems: those that may be used, without
    /// credentials.
    pub fn describe_for(&self, tenant: &Tenant) -> (r: Json)
        ensures
            r@ == described(self@, tenant@),
    {
        let names = tenant.filter(&self.instance_names());
        let ghost all = texts(names@);
        let mut out: Vec<Json> = Vec::new();
        assert(values(out@) =~= Seq::<JsonV>::empty());
        let mut i: usize = 0;
        while i < names.len()
            invariant
                i <= names@.len(),
                all == texts(names@),
                values(out@) == descriptions(self@, all.take(i as int)),
            decreases names@.len() - i,
        {
            proof {
                assert(all.take(i + 1).drop_last() =~= all.take(i as int));
                lemma_each_find(self.configs@, |c: SapInstanceConfig| c@, names@[i as int]@);
            }
            if let Some(cfg) = self.configs.get(names[i].as_str()) {
                let mut o = Object::new();
                o.set("name", Json::str(names[i].as_str()));
                o.set("url", Json::str(cfg.normalized_url().as_str()));
                o.set(
                    "odata",
                    Json::str(
                        if cfg.is_v4() {
                            "v4"
                        } else {
                            "v2"
                        },
                    ),
                );
                o.set("service", Json::opt_str(&cfg.service));
                o.set(
                    "is_default",
                    Json::Bool(same(names[i].as_str(), self.default.as_str())),
                );
                push_value(&mut out, Json::Object(o));
            }
            i = i + 1;
        }
        assert(all.take(i as int) =~= all);
        Json::Array(out)
    }
}

proof fn lemma_clients_sorted(m: Seq<(Seq<char>, SapClient)>)
    requires
        crate::strmap::sorted_keys(m),
    ensures
        crate::strmap::sorted_keys(clients_of(m)),
{
    let q = clients_of(m);
    assert forall|i: int, j: int| 0 <= i < j < q.len() implies crate::text::lex_lt(
        #[trigger] q[i].0,
        #[trigger] q[j].0,
    ) by {
        assert(q[i].0 == m[i].0 && q[j].0 == m[j].0);
    }
}

proof fn lemma_described_name(name: Seq<char>, cfg: ConfigV, is_default: bool)
    ensures
        description(name, cfg, is_default).text_at("name"@) == Some(name),
{
    reveal_strlit("name");
    reveal_strlit("url");
    reveal_strlit("odata");
    reveal_strlit("service");
    reveal_strlit("is_default");
    assert("name"@.len() == 4 && "url"@.len() == 3 && "odata"@.len() == 5);
    assert("service"@.len() == 7 && "is_default"@.len() == 10);
    let k = "name"@;
    let n = JsonV::Str(name);
    let url = JsonV::Str(url_normal(cfg.url));
    let odata = JsonV::Str(
        if cfg.v4() {
            "v4"@
        } else {
            "v2"@
        },
    );
    let a = put(no_members(), k, n);
    let b = put(a, "url"@, url);
    let c = put(b, "odata"@, odata);
    let d = put(c, "service"@, opt_str_v(cfg.service));
    lemma_put_find(no_members(), k, n, k);
    lemma_put_find(a, "url"@, url, k);
    lemma_put_find(b, "odata"@, odata, k);
    lemma_put_find(c, "service"@, opt_str_v(cfg.service), k);
    lemma_put_find(d, "is_default"@, JsonV::Bool(is_default), k);
}

proof fn lemma_described(p: PoolV, names: Seq<Seq<char>>, i: int)
    requires
        0 <= i < descriptions(p, names).len(),
    ensures
        descriptions(p, names)[i].text_at("name"@) matches Some(n) && names.contains(n),
    decreases names.len(),
{
    let head = descriptions(p, names.drop_last());
    if i < head.len() {
        lemma_described(p, names.drop_last(), i);
        let n = head[i].text_at("name"@)->0;
        let k = choose|k: int| 0 <= k < names.len() - 1 && names.drop_last()[k] == n;
        assert(names[k] == n);
    } else {
        let cfg = find(p.configs, names.last())->0;
        lemma_described_name(names.last(), cfg, names.last() == p.default);
        assert(names[names.len() - 1] == names.last());
    }
}

/// A caller is shown no system that may not be used.
pub proof fn descriptions_respect_tenants(p: PoolV, t: TenantV, i: int)
    requires
        described(p, t) matches JsonV::Arr(a) && 0 <= i < a.len(),
    ensures
        described(p, t)->Arr_0[i].text_at("name"@) matches Some(n) && t.may_use(n),
{
    let v = t.visible(keys(p.configs));
    lemma_described(p, v, i);
    let n = descriptions(p, v)[i].text_at("name"@)->0;
    crate::tenant::visible_is_what_may_be_used(t, keys(p.configs), n);
}

/// A call of one system leaves the tokens that were fetched for every other as they are.
pub proof fn other_clients_stay(
    p: PoolV,
    name: Seq<char>,
    call: CallV,
    ex: ExchangeV,
    token: TokenReplyV,
    reply: HttpReplyV,
    now: u64,
    other: Seq<char>,
)
    requires
        other != name,
    ensures
        pool_begun(p, name, call, now).0.client(other) == p.client(other),
        pool_token_came(p, name, ex, token, now).0.client(other) == p.client(other),
        pool_replied(p, name, ex, reply, now).0.client(other) == p.client(other),
        pool_woken(p, name, ex, now).0.client(other) == p.client(other),
{
    if let Some(c) = p.client(name) {
        lemma_put_find(p.clients, name, c, other);
        lemma_put_find(p.clients, name, token_came(c, ex, token, now).0, other);
        lemma_put_find(p.clients, name, replied(c, ex, reply, now).0, other);
    }
}

proof fn lemma_description_names()
    ensures
        "name"@ != "url"@,
        "name"@ != "odata"@,
        "name"@ != "service"@,
        "name"@ != "is_default"@,
        "url"@ != "odata"@,
        "url"@ != "service"@,
        "url"@ != "is_default"@,
        "odata"@ != "service"@,
        "odata"@ != "is_default"@,
        "service"@ != "is_default"@,
{
    reveal_strlit("name");
    reveal_strlit("url");
    reveal_strlit("odata");
    reveal_strlit("service");
    reveal_strlit("is_default");
    assert("name"@.len() == 4);
    assert("url"@.len() == 3);
    assert("odata"@.len() == 5);
    assert("service"@.len() == 7);
    assert("is_default"@.len() == 10);
}

/// What is shown of a system: its name, address, version and service, and whether it is the
/// default; no credentials.
pub proof fn descriptions_show_the_system(name: Seq<char>, cfg: ConfigV, is_default: bool, k: Seq<char>)
    ensures
        ({
            let d = description(name, cfg, is_default);
            &&& d.get("name"@) == Some(JsonV::Str(name))
            &&& d.get("url"@) == Some(JsonV::Str(url_normal(cfg.url)))
            &&& cfg.v4() ==> d.get("odata"@) == Some(JsonV::Str("v4"@))
            &&& !cfg.v4() ==> d.get("odata"@) == Some(JsonV::Str("v2"@))
            &&& cfg.service matches Some(s) ==> d.get("service"@) == Some(JsonV::Str(s))
            &&& cfg.service is None ==> d.get("service"@) == Some(JsonV::Null)
            &&& d.get("is_default"@) == Some(JsonV::Bool(is_default))
            &&& k != "name"@ && k != "url"@ && k != "odata"@ && k != "service"@ && k
                != "is_default"@ ==> d.get(k) is None
        }),
{
    broadcast use crate::strmap::put_is_found;

    lemma_description_names();
}

/// A caller is shown every system that may be used, in the order of the names.
pub proof fn usable_systems_are_all_shown(p: PoolV, t: TenantV, i: int)
    requires
        0 <= i < p.configs.len(),
        t.may_use(p.configs[i].0),
        crate::strmap::sorted_keys(p.configs),
    ensures
        described(p, t) matches JsonV::Arr(a) && a.contains(
            description(
                p.configs[i].0,
                p.configs[i].1,
                p.configs[i].0 == p.default,
            ),
        ),
{
    let n = p.configs[i].0;
    let names = keys(p.configs);
    assert(names[i] == n);
    assert(names.contains(n));
    crate::tenant::visible_is_what_may_be_used(t, names, n);
    assert forall|j: int| 0 <= j < i implies (#[trigger] p.configs[j]).0 != n by {
        assert(crate::text::lex_lt(p.configs[j].0, p.configs[i].0));
        crate::text::lemma_lex_irreflexive(n);
    }
    crate::strmap::lemma_find_at(p.configs, n, i);
    lemma_shown(p, t.visible(names), n);
}

proof fn lemma_shown(p: PoolV, names: Seq<Seq<char>>, n: Seq<char>)
    requires
        names.contains(n),
        find(p.configs, n) is Some,
    ensures
        descriptions(p, names).contains(
            description(n, find(p.configs, n)->0, n == p.default),
        ),
    decreases names.len(),
{
    let b = names.drop_last();
    let head = descriptions(p, b);
    let all = descriptions(p, names);
    let d = description(n, find(p.configs, n)->0, n == p.default);
    let i = choose|i: int| 0 <= i < names.len() && names[i] == n;
    if i < b.len() {
        assert(b[i] == n);
        lemma_shown(p, b, n);
        let j = choose|j: int| 0 <= j < head.len() && head[j] == d;
        assert(all[j] == d);
    } else {
        assert(all[head.len() as int] == d);
    }
}

/// A request goes to the system that it names, or to the default.
pub proof fn requests_go_to_the_named_system(p: PoolV, name: Seq<char>)
    ensures
        p.resolved(Some(name)) == name,
        p.resolved(None) == p.default,
{
}

/// A system is reached with its own settings, and without tokens until some were fetched; the
/// tokens that were fetched for it stay with it.
pub proof fn systems_are_reached_with_their_settings(p: PoolV, name: Seq<char>, cfg: ConfigV, c: ClientV)
    ensures
        find(p.clients, name) == Some(c) ==> p.client(name) == Some(c),
        find(p.clients, name) is None && find(p.configs, name) == Some(cfg) ==> (p.client(name) matches Some(
            x,
        ) && x.cfg == cfg && x.csrf is None && x.oauth is None),
        find(p.clients, name) is None && find(p.configs, name) is None ==> p.client(name) is None,
        p.with_client(name, c).client(name) == Some(c),
        p.with_client(name, c).configs == p.configs && p.with_client(name, c).default == p.default,
{
    broadcast use crate::strmap::put_is_found;

}

/// A call goes through the client of its system, which is kept as it is after the answer.
pub proof fn calls_go_through_their_system(
    p: PoolV,
    name: Seq<char>,
    c: ClientV,
    call: CallV,
    ex: ExchangeV,
    token: TokenReplyV,
    reply: HttpReplyV,
    now: u64,
)
    requires
        p.client(name) == Some(c),
    ensures
        pool_begun(p, name, call, now).1 == begun(c, call, now),
        pool_token_came(p, name, ex, token, now).1 == token_came(c, ex, token, now).1,
        pool_token_came(p, name, ex, token, now).0.client(name) == Some(
            token_came(c, ex, token, now).0,
        ),
        pool_replied(p, name, ex, reply, now).1 == replied(c, ex, reply, now).1,
        pool_replied(p, name, ex, reply, now).0.client(name) == Some(replied(c, ex, reply, now).0),
        pool_woken(p, name, ex, now).1 == tried(c, ex, now),
        pool_begun(p, name, call, now).0.configs == p.configs,
        pool_replied(p, name, ex, reply, now).0.configs == p.configs,
        pool_token_came(p, name, ex, token, now).0.configs == p.configs,
{
    broadcast use crate::strmap::put_is_found;

}

/// The tokens that let tenants in are those of the systems, each with its system.
pub proof fn tokens_are_those_of_the_systems(m: Configs, i: int)
    requires
        0 <= i < m.len(),
    ensures
        config_tokens(m).len() == m.len(),
        config_tokens(m)[i].0 == m[i].0,
        config_tokens(m)[i].1 == m[i].1.mcp_tokens,
{
}

} // verus!
