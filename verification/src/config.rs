//! Configuration: the environment, the SAP systems, and the rules that names,
//! paths, patterns and paging have to keep.

use vstd::prelude::*;
use vstd::string::*;
use vstd::utf8::encode_utf8;
use crate::codec::{encode_for_key, key_encoded};
use crate::json::{float_trunc, json_parse, Json, JsonV, Number, NumV};
use crate::numeral::{dec, naturals_are_read_back, parse_unsigned, unsigned_of};
use crate::strmap::{each, find, lemma_each_find, lemma_each_put, put, StrMap};
use crate::text::{alnum, cat2, cat3, cat5, chars_of, contains_text, copy_list, copy_opt, ends_with, has_part, has_prefix, has_suffix, is_alnum, items_of, list_items, lower, lowercase, opt_text, same, split, split_at_char, starts_with, texts, trim, trim_end_char, trim_end_of, trimmed};

verus! {

/// The environment variables, by name.
pub struct Env {
    vars: StrMap<String>,
}

/// What environment variables are.
pub type Vars = Seq<(Seq<char>, Seq<char>)>;

impl Env {
    /// The variables and their values.
    pub closed spec fn view(&self) -> Vars {
        each(self.vars@, |s: String| s@)
    }

    /// An environment without variables.
    pub fn new() -> (r: Env)
        ensures
            r@ == Seq::<(Seq<char>, Seq<char>)>::empty(),
    {
        let r = Env { vars: StrMap::new() };
        assert(r@ =~= Seq::<(Seq<char>, Seq<char>)>::empty());
        r
    }

    /// Sets a variable.
    pub fn set(&mut self, name: &str, value: &str)
        ensures
            final(self)@ == put(old(self)@, name@, value@),
    {
        let v = value.to_owned();
        proof {
            lemma_each_put(self.vars@, |s: String| s@, name@, v);
        }
        self.vars.insert(name.to_owned(), v);
    }

    /// The value of a variable.
    pub fn var(&self, name: &str) -> (r: Option<&str>)
        ensures
            (match r {
                Some(v) => find(self@, name@) == Some(v@),
                None => find(self@, name@) is None,
            }),
    {
        proof {
            lemma_each_find(self.vars@, |s: String| s@, name@);
        }
        match self.vars.get(name) {
            Some(s) => Some(s.as_str()),
            None => None,
        }
    }
}

/// The variable, unless it is unset or blank.
pub open spec fn filled(env: Vars, name: Seq<char>) -> Option<Seq<char>> {
    match find(env, name) {
        Some(v) => if trimmed(v).len() == 0 {
            None
        } else {
            Some(v)
        },
        None => None,
    }
}

/// The variable, unless it is unset or blank.
pub fn non_empty_env(env: &Env, name: &str) -> (r: Option<String>)
    ensures
        opt_text(r) == filled(env@, name@),
{
    match env.var(name) {
        Some(v) => if trim(v).as_str().is_empty() {
            None
        } else {
            Some(v.to_owned())
        },
        None => None,
    }
}

/// Whether a value reads as true.
pub open spec fn truthy(v: Seq<char>) -> bool {
    truthy_word(lowercase(trimmed(v)))
}

/// Whether a word, in lower case and without blanks around it, reads as true.
pub open spec fn truthy_word(w: Seq<char>) -> bool {
    w == "1"@ || w == "true"@ || w == "yes"@ || w == "y"@ || w == "on"@
}

/// Whether a value reads as true.
pub fn env_truthy(v: &str) -> (r: bool)
    ensures
        r == truthy(v@),
{
    let w = lower(trim(v).as_str());
    is_truthy_word(w.as_str())
}

/// Whether a word in lower case reads as true.
pub fn is_truthy_word(w: &str) -> (r: bool)
    ensures
        r == truthy_word(w@),
{
    same(w, "1") || same(w, "true") || same(w, "yes") || same(w, "y") || same(w, "on")
}

/// Whether a variable is set to a value that reads as true.
pub open spec fn flag(env: Vars, name: Seq<char>) -> bool {
    match find(env, name) {
        Some(v) => truthy(v),
        None => false,
    }
}

/// Whether a variable is set to a value that reads as true.
pub fn env_flag(env: &Env, name: &str) -> (r: bool)
    ensures
        r == flag(env@, name@),
{
    match env.var(name) {
        Some(v) => env_truthy(v),
        None => false,
    }
}

/// Whether writes are enabled.
pub fn writes_enabled(env: &Env) -> (r: bool)
    ensures
        r == flag(env@, "SAP_MCP_ENABLE_WRITES"@),
{
    env_flag(env, "SAP_MCP_ENABLE_WRITES")
}

/// Whether a call may bring its own SAP credentials (full tenants only).
pub fn auth_override_allowed(env: &Env) -> (r: bool)
    ensures
        r == flag(env@, "SAP_MCP_ALLOW_AUTH_OVERRIDE"@),
{
    env_flag(env, "SAP_MCP_ALLOW_AUTH_OVERRIDE")
}

/// The number that a variable writes, or a default.
pub open spec fn env_number(env: Vars, name: Seq<char>, default: nat) -> nat {
    match find(env, name) {
        Some(v) => match unsigned_of(v, u64::MAX as nat) {
            Some(n) => n,
            None => default,
        },
        None => default,
    }
}

/// The number that a variable writes, or a default.
pub fn env_u64(env: &Env, name: &str, default: u64) -> (r: u64)
    ensures
        r == env_number(env@, name@, default as nat),
{
    match env.var(name) {
        Some(v) => match parse_unsigned(v, u64::MAX) {
            Some(n) => n,
            None => default,
        },
        None => default,
    }
}

/// For how many seconds metadata is kept.
pub fn metadata_cache_ttl(env: &Env) -> (r: u64)
    ensures
        r == env_number(env@, "SAP_METADATA_CACHE_TTL_SECS"@, 600),
{
    env_u64(env, "SAP_METADATA_CACHE_TTL_SECS", 600)
}

/// The file that write events are appended to, if any.
pub fn audit_log_path(env: &Env) -> (r: Option<String>)
    ensures
        opt_text(r) == (match find(env@, "SAP_MCP_AUDIT_LOG"@) {
            Some(v) => if v.len() == 0 {
                None
            } else {
                Some(v)
            },
            None => None,
        }),
{
    match env.var("SAP_MCP_AUDIT_LOG") {
        Some(v) => if v.is_empty() {
            None
        } else {
            Some(v.to_owned())
        },
        None => None,
    }
}

/// The length of a text in bytes.
pub fn byte_len(s: &str) -> (r: usize)
    ensures
        r == encode_utf8(s@).len(),
{
    s.as_bytes().len()
}

/// Names of entity sets, keys and functions: letters, digits and underscores.
pub open spec fn odata_name(s: Seq<char>) -> bool {
    &&& s.len() > 0
    &&& encode_utf8(s).len() <= 128
    &&& forall|i: int| 0 <= i < s.len() ==> alnum(#[trigger] s[i]) || s[i] == '_'
}

/// Whether a text is a name of an entity set, a key or a function.
pub fn valid_odata_name(s: &str) -> (r: bool)
    ensures
        r == odata_name(s@),
{
    if s.is_empty() || byte_len(s) > 128 {
        return false;
    }
    let v = chars_of(s);
    let mut i: usize = 0;
    while i < v.len()
        invariant
            i <= v@.len(),
            v@ == s@,
            forall|k: int| 0 <= k < i ==> alnum(#[trigger] s@[k]) || s@[k] == '_',
        decreases v@.len() - i,
    {
        let c = v[i];
        if !(is_alnum(c) || c == '_') {
            assert(!(alnum(s@[i as int]) || s@[i as int] == '_'));
            return false;
        }
        i = i + 1;
    }
    true
}

/// Characters of a service path, besides letters and digits.
pub open spec fn path_mark(c: char) -> bool {
    c == '/' || c == '.' || c == '_' || c == '-' || c == '~' || c == '%' || c == '(' || c == ')'
        || c == '=' || c == '\''
}

/// Service paths: from the root, without a step up.
pub open spec fn service_path(s: Seq<char>) -> bool {
    &&& s.len() > 0
    &&& encode_utf8(s).len() <= 256
    &&& s[0] == '/'
    &&& !has_part(s, ".."@)
    &&& forall|i: int| 0 <= i < s.len() ==> alnum(#[trigger] s[i]) || path_mark(s[i])
}

/// Whether a text is a service path.
pub fn valid_service_path(s: &str) -> (r: bool)
    ensures
        r == service_path(s@),
{
    if s.is_empty() || byte_len(s) > 256 || contains_text(s, "..") {
        return false;
    }
    let v = chars_of(s);
    if v[0] != '/' {
        return false;
    }
    let mut i: usize = 0;
    while i < v.len()
        invariant
            i <= v@.len(),
            v@ == s@,
            forall|k: int| 0 <= k < i ==> alnum(#[trigger] s@[k]) || path_mark(s@[k]),
        decreases v@.len() - i,
    {
        let c = v[i];
        if !(is_alnum(c) || c == '/' || c == '.' || c == '_' || c == '-' || c == '~' || c == '%'
            || c == '(' || c == ')' || c == '=' || c == '\'') {
            assert(!(alnum(s@[i as int]) || path_mark(s@[i as int])));
            return false;
        }
        i = i + 1;
    }
    true
}

/// Names of SAP systems: letters, digits, hyphens and underscores.
pub open spec fn instance_name(s: Seq<char>) -> bool {
    &&& s.len() > 0
    &&& encode_utf8(s).len() <= 64
    &&& forall|i: int| 0 <= i < s.len() ==> alnum(#[trigger] s[i]) || s[i] == '-' || s[i] == '_'
}

/// Whether a text is a name of a SAP system.
pub fn valid_instance_name(s: &str) -> (r: bool)
    ensures
        r == instance_name(s@),
{
    if s.is_empty() || byte_len(s) > 64 {
        return false;
    }
    let v = chars_of(s);
    let mut i: usize = 0;
    while i < v.len()
        invariant
            i <= v@.len(),
            v@ == s@,
            forall|k: int|
                0 <= k < i ==> alnum(#[trigger] s@[k]) || s@[k] == '-' || s@[k] == '_',
        decreases v@.len() - i,
    {
        let c = v[i];
        if !(is_alnum(c) || c == '-' || c == '_') {
            assert(!(alnum(s@[i as int]) || s@[i as int] == '-' || s@[i as int] == '_'));
            return false;
        }
        i = i + 1;
    }
    true
}

/// No name of an entity set holds a slash, a dollar sign, a dot or any other ASCII
/// character that is not a letter, a digit or the underscore, so that none can step
/// out of its place in a path.
pub proof fn odata_names_stay_in_place(s: Seq<char>, c: char)
    requires
        odata_name(s),
        c <= '\u{7f}',
        !alnum(c),
        c != '_',
    ensures
        !s.contains(c),
{
    if s.contains(c) {
        let i = choose|i: int| 0 <= i < s.len() && s[i] == c;
        assert(alnum(s[i]) || s[i] == '_');
    }
}

/// A service path never names a host, a scheme, a query or a fragment, and never
/// steps up.
pub proof fn service_paths_stay_below_the_root(s: Seq<char>)
    requires
        service_path(s),
    ensures
        !s.contains(':'),
        !s.contains('?'),
        !s.contains('#'),
        !s.contains('\\'),
        !s.contains('@'),
        !s.contains(' '),
        !has_part(s, ".."@),
        s[0] == '/',
{
    assert forall|i: int| 0 <= i < s.len() implies s[i] != ':' && s[i] != '?' && s[i] != '#' && s[i]
        != '\\' && s[i] != '@' && s[i] != ' ' by {
        assert(alnum(s[i]) || path_mark(s[i]));
    }
}

/// The pieces of the exposition list: trimmed, in lower case, without empty ones.
pub open spec fn kept_modes(pieces: Seq<Seq<char>>) -> Seq<Seq<char>>
    decreases pieces.len(),
{
    if pieces.len() == 0 {
        Seq::empty()
    } else {
        let head = kept_modes(pieces.drop_last());
        let last = lowercase(trimmed(pieces.last()));
        if last.len() == 0 {
            head
        } else {
            head.push(last)
        }
    }
}

/// The exposition modes that the environment asks for.
pub open spec fn exposition_modes(env: Vars) -> Seq<Seq<char>> {
    kept_modes(
        split(
            match find(env, "SAP_EXPOSITION"@) {
                Some(v) => v,
                None => "readonly,high"@,
            },
            ',',
        ),
    )
}

/// The exposition modes, `readonly,high` unless the environment says otherwise.
pub fn exposition(env: &Env) -> (r: Vec<String>)
    ensures
        texts(r@) == exposition_modes(env@),
{
    let list = match env.var("SAP_EXPOSITION") {
        Some(v) => v.to_owned(),
        None => "readonly,high".to_owned(),
    };
    let pieces = split_at_char(list.as_str(), ',');
    let mut out: Vec<String> = Vec::new();
    let mut i: usize = 0;
    while i < pieces.len()
        invariant
            i <= pieces@.len(),
            texts(out@) == kept_modes(texts(pieces@).take(i as int)),
        decreases pieces@.len() - i,
    {
        proof {
            assert(texts(pieces@).take(i + 1).drop_last() == texts(pieces@).take(i as int));
        }
        let t = lower(trim(pieces[i].as_str()).as_str());
        let ghost prev = texts(out@);
        if !t.as_str().is_empty() {
            out.push(t);
            assert(texts(out@) =~= prev.push(t@));
        }
        i = i + 1;
    }
    assert(texts(pieces@).take(i as int) == texts(pieces@));
    out
}

/// A list of one mode, in lower case and without commas and blanks, is that mode.
pub proof fn lemma_single_mode(v: Seq<char>)
    requires
        v.len() > 0,
        forall|i: int| 0 <= i < v.len() ==> 'a' <= #[trigger] v[i] <= 'z',
    ensures
        kept_modes(split(v, ',')) == seq![v],
{
    crate::text::lemma_split_none(v, ',');
    crate::text::lemma_trimmed_same(v);
    crate::text::lemma_lowercase_same(v);
    let p = seq![v];
    assert(p.drop_last() =~= Seq::<Seq<char>>::empty());
    assert(kept_modes(p.drop_last()) =~= Seq::<Seq<char>>::empty());
    assert(kept_modes(p) =~= seq![v]);
}

/// Whether the modes show a group of tools: everything but the write tools is
/// always shown; those only with `high` or `write`.
pub open spec fn group_shown(modes: Seq<Seq<char>>, group: Seq<char>) -> bool {
    group == "write"@ ==> modes.contains("high"@) || modes.contains("write"@)
}

/// Whether a group of tools is shown.
pub fn exposition_allows(env: &Env, group: &str) -> (r: bool)
    ensures
        r == group_shown(exposition_modes(env@), group@),
{
    if !same(group, "write") {
        return true;
    }
    let modes = exposition(env);
    crate::text::list_has(&modes, "high") || crate::text::list_has(&modes, "write")
}

/// Whether a text matches a pattern, in which `*` stands for any run of characters
/// and every other character for itself.
pub open spec fn glob(p: Seq<char>, s: Seq<char>) -> bool
    decreases p.len(), s.len(),
{
    if p.len() == 0 {
        s.len() == 0
    } else if p[0] == '*' {
        glob(p.drop_first(), s) || (s.len() > 0 && glob(p, s.drop_first()))
    } else {
        s.len() > 0 && p[0] == s[0] && glob(p.drop_first(), s.drop_first())
    }
}

/// Whether a text matches a pattern.
pub fn glob_match(pat: &str, s: &str) -> (r: bool)
    ensures
        r == glob(pat@, s@),
{
    let p = chars_of(pat);
    let t = chars_of(s);
    let m: usize = t.len();
    // row[j] says whether what is left of the pattern matches the text from j on.
    let mut row: Vec<bool> = Vec::new();
    let mut j: usize = 0;
    assert(p@.skip(p@.len() as int) == Seq::<char>::empty());
    while j < m
        invariant
            j <= m,
            m == t@.len(),
            row@.len() == j,
            p@.skip(p@.len() as int) == Seq::<char>::empty(),
            forall|k: int| 0 <= k < j ==> row@[k] == glob(p@.skip(p@.len() as int), #[trigger] t@.skip(k)),
        decreases m - j,
    {
        row.push(false);
        j = j + 1;
    }
    row.push(true);
    assert(t@.skip(m as int) == Seq::<char>::empty());
    let mut i: usize = p.len();
    while i > 0
        invariant
            i <= p@.len(),
            m == t@.len(),
            row@.len() == m + 1,
            forall|k: int| 0 <= k <= m ==> row@[k] == glob(p@.skip(i as int), #[trigger] t@.skip(k)),
        decreases i,
    {
        let c = p[i - 1];
        let ghost q = p@.skip(i - 1);
        assert(q.drop_first() == p@.skip(i as int));
        assert(q[0] == c);
        let mut next: Vec<bool> = Vec::new();
        let mut k: usize = row.len();
        // built from the end of the text to its start
        while k > 0
            invariant
                k <= m + 1,
                m == t@.len(),
                0 < i <= p@.len(),
                q == p@.skip(i - 1),
                q.len() > 0,
                q[0] == c,
                q.drop_first() == p@.skip(i as int),
                row@.len() == m + 1,
                forall|x: int| 0 <= x <= m ==> row@[x] == glob(p@.skip(i as int), #[trigger] t@.skip(x)),
                next@.len() == m + 1 - k,
                forall|x: int| k <= x <= m ==> next@[m - x] == glob(q, #[trigger] t@.skip(x)),
            decreases k,
        {
            let x: usize = k - 1;
            let ghost rest = t@.skip(x as int);
            if x < m {
                assert(rest.drop_first() == t@.skip(x + 1));
                assert(rest[0] == t@[x as int]);
            }
            let here: bool = if c == '*' {
                row[x] || (x < m && next[m - x - 1])
            } else {
                x < m && t[x] == c && row[x + 1]
            };
            assert(here == glob(q, rest));
            next.push(here);
            k = x;
        }
        let mut flipped: Vec<bool> = Vec::new();
        let mut y: usize = 0;
        while y <= m
            invariant
                y <= m + 1,
                m == t@.len(),
                m < usize::MAX,
                next@.len() == m + 1,
                flipped@.len() == y,
                forall|x: int| 0 <= x <= m ==> next@[m - x] == glob(q, #[trigger] t@.skip(x)),
                forall|x: int| 0 <= x < y ==> flipped@[x] == glob(q, #[trigger] t@.skip(x)),
            decreases m + 1 - y,
        {
            assert(next@[m - y] == glob(q, t@.skip(y as int)));
            flipped.push(next[m - y]);
            y = y + 1;
        }
        row = flipped;
        i = i - 1;
    }
    assert(p@.skip(0) == pat@);
    assert(t@.skip(0) == s@);
    row[0]
}

/// Whether one of the patterns matches.
pub open spec fn glob_any(patterns: Seq<Seq<char>>, s: Seq<char>) -> bool {
    exists|i: int| 0 <= i < patterns.len() && glob(#[trigger] patterns[i], s)
}

/// Whether one of the patterns matches.
fn glob_match_any(patterns: &Vec<String>, s: &str) -> (r: bool)
    ensures
        r == glob_any(texts(patterns@), s@),
{
    let mut i: usize = 0;
    while i < patterns.len()
        invariant
            i <= patterns@.len(),
            forall|k: int| 0 <= k < i ==> !glob(#[trigger] texts(patterns@)[k], s@),
        decreases patterns@.len() - i,
    {
        if glob_match(patterns[i].as_str(), s) {
            assert(glob(texts(patterns@)[i as int], s@));
            return true;
        }
        assert(!glob(texts(patterns@)[i as int], s@));
        i = i + 1;
    }
    false
}

/// The patterns that a variable lists.
pub open spec fn patterns(env: Vars, name: Seq<char>) -> Seq<Seq<char>> {
    match find(env, name) {
        Some(v) => list_items(v),
        None => Seq::empty(),
    }
}

/// The patterns that a variable lists.
fn env_patterns(env: &Env, name: &str) -> (r: Vec<String>)
    ensures
        texts(r@) == patterns(env@, name@),
{
    match env.var(name) {
        Some(v) => items_of(v),
        None => {
            let r: Vec<String> = Vec::new();
            assert(texts(r@) =~= Seq::<Seq<char>>::empty());
            r
        },
    }
}

/// Whether an entity may be touched: no deny pattern matches it, and one of the
/// allow patterns does, where there are any.
pub open spec fn entity_open(env: Vars, entity: Seq<char>) -> bool {
    &&& !glob_any(patterns(env, "SAP_ENTITY_DENY"@), entity)
    &&& patterns(env, "SAP_ENTITY_ALLOW"@).len() == 0 || glob_any(
        patterns(env, "SAP_ENTITY_ALLOW"@),
        entity,
    )
}

/// Whether an entity may be touched.
pub fn entity_allowed(env: &Env, entity: &str) -> (r: bool)
    ensures
        r == entity_open(env@, entity@),
{
    let deny = env_patterns(env, "SAP_ENTITY_DENY");
    if glob_match_any(&deny, entity) {
        return false;
    }
    let allow = env_patterns(env, "SAP_ENTITY_ALLOW");
    assert(allow@.len() == texts(allow@).len());
    allow.len() == 0 || glob_match_any(&allow, entity)
}

/// A deny pattern that matches closes an entity, whatever is allowed.
pub proof fn deny_wins(env: Vars, entity: Seq<char>, i: int)
    requires
        0 <= i < patterns(env, "SAP_ENTITY_DENY"@).len(),
        glob(patterns(env, "SAP_ENTITY_DENY"@)[i], entity),
    ensures
        !entity_open(env, entity),
{
}

/// Without patterns every entity is open.
pub proof fn no_patterns_allow_all(env: Vars, entity: Seq<char>)
    requires
        patterns(env, "SAP_ENTITY_DENY"@).len() == 0,
        patterns(env, "SAP_ENTITY_ALLOW"@).len() == 0,
    ensures
        entity_open(env, entity),
{
}

/// A pattern that is a single star matches every text.
pub proof fn star_matches_all(s: Seq<char>)
    ensures
        glob(seq!['*'], s),
    decreases s.len(),
{
    let p = seq!['*'];
    assert(p.drop_first() =~= Seq::<char>::empty());
    if s.len() > 0 {
        star_matches_all(s.drop_first());
    } else {
        assert(glob(p.drop_first(), s));
    }
}

/// A pattern without stars matches itself and nothing else.
pub proof fn plain_pattern_is_equality(p: Seq<char>, s: Seq<char>)
    requires
        !p.contains('*'),
    ensures
        glob(p, s) == (p == s),
    decreases p.len(),
{
    if p.len() > 0 {
        assert(p.contains(p[0]));
        assert forall|i: int| 0 <= i < p.drop_first().len() implies p.drop_first()[i] != '*' by {
            assert(p.contains(p[i + 1]));
        }
        if s.len() > 0 {
            plain_pattern_is_equality(p.drop_first(), s.drop_first());
            if p[0] == s[0] && p.drop_first() == s.drop_first() {
                assert(p =~= s) by {
                    assert forall|i: int| 0 <= i < p.len() implies p[i] == s[i] by {
                        if i > 0 {
                            assert(p[i] == p.drop_first()[i - 1]);
                            assert(s[i] == s.drop_first()[i - 1]);
                        }
                    }
                    assert(p.len() == p.drop_first().len() + 1);
                    assert(s.len() == s.drop_first().len() + 1);
                }
            }
        }
    } else {
        assert(p == s || s.len() > 0) by {
            if s.len() == 0 {
                assert(p =~= s);
            }
        }
    }
}

/// A pattern that ends in a star matches whatever continues what comes before it.
pub proof fn star_at_the_end_is_a_prefix(p: Seq<char>, s: Seq<char>)
    requires
        !p.contains('*'),
    ensures
        glob(p.push('*'), s) == has_prefix(s, p),
    decreases p.len(),
{
    let q = p.push('*');
    if p.len() == 0 {
        assert(q =~= seq!['*']);
        star_matches_all(s);
        assert(s.take(0) =~= p);
    } else {
        assert(p.contains(p[0]));
        assert(q[0] == p[0]);
        let p1 = p.drop_first();
        assert(q.drop_first() =~= p1.push('*'));
        assert forall|i: int| 0 <= i < p1.len() implies p1[i] != '*' by {
            assert(p.contains(p[i + 1]));
        }
        if s.len() > 0 {
            let s1 = s.drop_first();
            star_at_the_end_is_a_prefix(p1, s1);
            if has_prefix(s, p) {
                assert(s[0] == s.take(p.len() as int)[0]);
                assert(s1.take(p1.len() as int) =~= s.take(p.len() as int).drop_first());
            }
            if p[0] == s[0] && has_prefix(s1, p1) {
                assert(s.take(p.len() as int) =~= p) by {
                    assert forall|i: int| 0 <= i < p.len() implies s.take(p.len() as int)[i] == p[i] by {
                        if i > 0 {
                            assert(p[i] == p1[i - 1]);
                            assert(s1.take(p1.len() as int)[i - 1] == s1[i - 1]);
                        }
                    }
                }
            }
        }
    }
}

/// A text as part of a key in a path: everything but letters, digits, `-`, `_`, `.`,
/// `~` and the quote is percent-encoded, byte by byte.
pub fn odata_path_encode(s: &str) -> (r: String)
    ensures
        r@ == key_encoded(encode_utf8(s@)),
{
    encode_for_key(s)
}

/// The largest page.
pub const MAX_PAGE_TOP: i64 = 200;

/// The longest filter, in characters.
pub const MAX_FILTER_CHARS: usize = 2000;

/// The largest number of selected fields.
pub const MAX_SELECT_FIELDS: usize = 50;

/// The largest number of expanded items.
pub const MAX_EXPAND_ITEMS: usize = 5;

/// The whole number that a JSON number comes to, held to the range of a signed
/// 64-bit number.
pub open spec fn rounded(v: JsonV) -> Option<int> {
    match v {
        JsonV::Num(NumV::Pos(n)) => if n <= i64::MAX {
            Some(n as int)
        } else {
            Some(i64::MAX as int)
        },
        JsonV::Num(NumV::Neg(n)) => Some(n as int),
        JsonV::Num(NumV::Float(b)) => Some(float_trunc(b)),
        _ => None,
    }
}

/// The whole number that an optional JSON value comes to.
pub open spec fn rounded_opt(v: Option<JsonV>) -> Option<int> {
    match v {
        Some(x) => rounded(x),
        None => None,
    }
}

fn rounded_number(v: Option<&Json>) -> (r: Option<i64>)
    ensures
        (match r {
            Some(n) => rounded_opt(opt_json(v)) == Some(n as int),
            None => rounded_opt(opt_json(v)) is None,
        }),
{
    match v {
        Some(Json::Number(Number::PosInt(n))) => if *n <= i64::MAX as u64 {
            Some(*n as i64)
        } else {
            Some(i64::MAX)
        },
        Some(Json::Number(Number::NegInt(n))) => Some(*n),
        Some(Json::Number(Number::Float(f))) => Some(f.trunc()),
        _ => None,
    }
}

/// What an optional JSON value is.
pub open spec fn opt_json(v: Option<&Json>) -> Option<JsonV> {
    match v {
        Some(x) => Some(x@),
        None => None,
    }
}

/// The page size that a request asks for, no larger than the largest page.
pub open spec fn page_top(v: Option<JsonV>, default: int) -> int {
    match rounded_opt(v) {
        Some(n) => if n > MAX_PAGE_TOP {
            MAX_PAGE_TOP as int
        } else if n > 0 {
            n
        } else {
            default
        },
        None => default,
    }
}

/// The page size that a request asks for, no larger than the largest page.
pub fn clamp_top(v: Option<&Json>, default: i64) -> (r: i64)
    ensures
        r == page_top(opt_json(v), default as int),
{
    match rounded_number(v) {
        Some(n) => if n > MAX_PAGE_TOP {
            MAX_PAGE_TOP
        } else if n > 0 {
            n
        } else {
            default
        },
        None => default,
    }
}

/// The offset that a request asks for, never negative.
pub open spec fn page_skip(v: Option<JsonV>) -> int {
    match rounded_opt(v) {
        Some(n) => if n >= 0 {
            n
        } else {
            0
        },
        None => 0,
    }
}

/// The offset that a request asks for, never negative.
pub fn clamp_skip(v: Option<&Json>) -> (r: i64)
    ensures
        r == page_skip(opt_json(v)),
{
    match rounded_number(v) {
        Some(n) => if n >= 0 {
            n
        } else {
            0
        },
        None => 0,
    }
}

/// Whatever a request asks for, the page is not empty, not larger than the largest
/// page, and starts at no negative offset.
pub proof fn paging_stays_in_bounds(v: Option<JsonV>, default: int)
    requires
        0 < default <= MAX_PAGE_TOP,
    ensures
        0 < page_top(v, default) <= MAX_PAGE_TOP,
        page_skip(v) >= 0,
{
}

/// A URL without blanks around it and slashes behind it, with a scheme.
pub open spec fn url_normal(raw: Seq<char>) -> Seq<char> {
    let t = trim_end_of(trimmed(raw), '/');
    if has_prefix(t, "http://"@) || has_prefix(t, "https://"@) {
        t
    } else if t.len() == 0 {
        "http://localhost:8000"@
    } else {
        "http://"@ + t
    }
}

/// A URL without blanks around it and slashes behind it, with a scheme.
pub fn normalize_url(raw: &str) -> (r: String)
    ensures
        r@ == url_normal(raw@),
{
    let t = trim_end_char(trim(raw).as_str(), '/');
    if starts_with(t.as_str(), "http://") || starts_with(t.as_str(), "https://") {
        t
    } else if t.as_str().is_empty() {
        "http://localhost:8000".to_owned()
    } else {
        cat2("http://", t.as_str())
    }
}

/// One SAP system.
pub struct SapInstanceConfig {
    pub url: String,
    /// The SAP client number, such as `100`.
    pub client: Option<String>,
    /// `basic`, `bearer` or `oauth2`.
    pub auth_type: String,
    pub username: Option<String>,
    pub password: Option<String>,
    pub token: Option<String>,
    pub oauth_token_url: Option<String>,
    pub oauth_client_id: Option<String>,
    pub oauth_client_secret: Option<String>,
    pub oauth_scope: Option<String>,
    /// `v2` or `v4`.
    pub odata_version: String,
    /// The service that requests go to unless they name one.
    pub service: Option<String>,
    pub timeout_ms: u64,
    pub max_retries: u32,
    pub verify_ssl: bool,
    /// The tokens of the tenants that may use this system.
    pub mcp_tokens: Vec<String>,
}

/// What the settings of a SAP system are.
#[verifier::ext_equal]
pub struct ConfigV {
    pub url: Seq<char>,
    pub client: Option<Seq<char>>,
    pub auth_type: Seq<char>,
    pub username: Option<Seq<char>>,
    pub password: Option<Seq<char>>,
    pub token: Option<Seq<char>>,
    pub oauth_token_url: Option<Seq<char>>,
    pub oauth_client_id: Option<Seq<char>>,
    pub oauth_client_secret: Option<Seq<char>>,
    pub oauth_scope: Option<Seq<char>>,
    pub odata_version: Seq<char>,
    pub service: Option<Seq<char>>,
    pub timeout_ms: u64,
    pub max_retries: u32,
    pub verify_ssl: bool,
    pub mcp_tokens: Seq<Seq<char>>,
}

/// The SAP systems, by name.
pub type Configs = Seq<(Seq<char>, ConfigV)>;

impl ConfigV {
    /// Whether the system speaks the fourth version of the protocol.
    pub open spec fn v4(self) -> bool {
        let w = lowercase(trimmed(self.odata_version));
        w == "v4"@ || w == "4"@
    }

    /// The service that a request goes to.
    pub open spec fn chosen_service(self, service: Option<Seq<char>>) -> Option<Seq<char>> {
        match service {
            Some(s) => Some(s),
            None => self.service,
        }
    }

    /// The address of the service that a request goes to, without slashes behind it.
    pub open spec fn root(self, service: Option<Seq<char>>) -> Result<Seq<char>, Seq<char>> {
        match self.chosen_service(service) {
            None => Err("no service given and instance has no default service"@),
            Some(svc) => if service_path(svc) {
                Ok(url_normal(self.url) + trim_end_of(svc, '/'))
            } else {
                Err("invalid service path '"@ + svc + "'"@)
            },
        }
    }
}

/// What a result of texts is.
pub open spec fn text_result(r: Result<String, String>) -> Result<Seq<char>, Seq<char>> {
    match r {
        Ok(s) => Ok(s@),
        Err(e) => Err(e@),
    }
}

/// The text of an optional slice.
pub open spec fn opt_slice(o: Option<&str>) -> Option<Seq<char>> {
    match o {
        Some(s) => Some(s@),
        None => None,
    }
}

impl SapInstanceConfig {
    /// What the settings are.
    pub open spec fn view(&self) -> ConfigV {
        ConfigV {
            url: self.url@,
            client: opt_text(self.client),
            auth_type: self.auth_type@,
            username: opt_text(self.username),
            password: opt_text(self.password),
            token: opt_text(self.token),
            oauth_token_url: opt_text(self.oauth_token_url),
            oauth_client_id: opt_text(self.oauth_client_id),
            oauth_client_secret: opt_text(self.oauth_client_secret),
            oauth_scope: opt_text(self.oauth_scope),
            odata_version: self.odata_version@,
            service: opt_text(self.service),
            timeout_ms: self.timeout_ms,
            max_retries: self.max_retries,
            verify_ssl: self.verify_ssl,
            mcp_tokens: texts(self.mcp_tokens@),
        }
    }

    /// A copy.
    pub fn copy(&self) -> (r: SapInstanceConfig)
        ensures
            r@ == self@,
    {
        SapInstanceConfig {
            url: self.url.clone(),
            client: copy_opt(&self.client),
            auth_type: self.auth_type.clone(),
            username: copy_opt(&self.username),
            password: copy_opt(&self.password),
            token: copy_opt(&self.token),
            oauth_token_url: copy_opt(&self.oauth_token_url),
            oauth_client_id: copy_opt(&self.oauth_client_id),
            oauth_client_secret: copy_opt(&self.oauth_client_secret),
            oauth_scope: copy_opt(&self.oauth_scope),
            odata_version: self.odata_version.clone(),
            service: copy_opt(&self.service),
            timeout_ms: self.timeout_ms,
            max_retries: self.max_retries,
            verify_ssl: self.verify_ssl,
            mcp_tokens: copy_list(&self.mcp_tokens),
        }
    }

    /// Whether the system speaks the fourth version of the protocol.
    pub fn is_v4(&self) -> (r: bool)
        ensures
            r == self@.v4(),
    {
        let w = lower(trim(self.odata_version.as_str()).as_str());
        same(w.as_str(), "v4") || same(w.as_str(), "4")
    }

    /// The address of the system, without blanks around it and slashes behind it.
    pub fn normalized_url(&self) -> (r: String)
        ensures
            r@ == url_normal(self@.url),
    {
        normalize_url(self.url.as_str())
    }

    /// The address of a service: the one that is given, or that of the system. There are no
    /// slashes behind it.
    pub fn service_root(&self, service: Option<&str>) -> (r: Result<String, String>)
        ensures
            text_result(r) == self@.root(opt_slice(service)),
    {
        let svc: String = match service {
            Some(s) => s.to_owned(),
            None => match &self.service {
                Some(s) => s.clone(),
                None => {
                    return Err("no service given and instance has no default service".to_owned());
                },
            },
        };
        if !valid_service_path(svc.as_str()) {
            return Err(cat3("invalid service path '", svc.as_str(), "'"));
        }
        let path = trim_end_char(svc.as_str(), '/');
        Ok(cat2(self.normalized_url().as_str(), path.as_str()))
    }
}

proof fn lemma_trim_end_of(s: Seq<char>, c: char)
    ensures
        trim_end_of(s, c).len() > 0 ==> trim_end_of(s, c).last() != c,
    decreases s.len(),
{
    if s.len() > 0 && s.last() == c {
        lemma_trim_end_of(s.drop_last(), c);
    }
}

/// The address of a service never ends in a slash, and begins with that of the system.
pub proof fn service_roots_end_in_no_slash(cfg: ConfigV, service: Option<Seq<char>>)
    ensures
        cfg.root(service) matches Ok(u) ==> u.len() > 0 && u.last() != '/' && has_prefix(
            u,
            url_normal(cfg.url),
        ),
{
    reveal_strlit("http://localhost:8000");
    reveal_strlit("http://");
    reveal_strlit("https://");
    let base = url_normal(cfg.url);
    lemma_trim_end_of(trimmed(cfg.url), '/');
    assert(base.len() > 0 && base.last() != '/');
    if let Some(svc) = cfg.chosen_service(service) {
        lemma_trim_end_of(svc, '/');
        let u = base + trim_end_of(svc, '/');
        assert(u.take(base.len() as int) =~= base);
        if trim_end_of(svc, '/').len() == 0 {
            assert(u =~= base);
        }
    }
}

/// How a system is reached unless its settings say otherwise: `basic`.
pub fn default_auth() -> (r: String)
    ensures
        r@ == "basic"@,
{
    "basic".to_owned()
}

/// The version of the protocol unless the settings say otherwise: `v2`.
pub fn default_odata() -> (r: String)
    ensures
        r@ == "v2"@,
{
    "v2".to_owned()
}

/// The timeout unless the settings say otherwise.
pub fn default_timeout_ms() -> (r: u64)
    ensures
        r == 30000,
{
    30000
}

/// The number of retries unless the settings say otherwise.
pub fn default_max_retries() -> (r: u32)
    ensures
        r == 3,
{
    3
}

/// A variable, or a default where it is unset or blank.
pub open spec fn filled_or(env: Vars, name: Seq<char>, default: Seq<char>) -> Seq<char> {
    match filled(env, name) {
        Some(v) => v,
        None => default,
    }
}

fn env_or(env: &Env, name: &str, default: &str) -> (r: String)
    ensures
        r@ == filled_or(env@, name@, default@),
{
    match non_empty_env(env, name) {
        Some(v) => v,
        None => default.to_owned(),
    }
}

/// The system that the single-instance variables describe.
pub open spec fn single_config(env: Vars) -> ConfigV {
    ConfigV {
        url: filled_or(env, "SAP_URL"@, "http://localhost:8000"@),
        client: filled(env, "SAP_CLIENT"@),
        auth_type: filled_or(env, "SAP_AUTH_TYPE"@, "basic"@),
        username: filled(env, "SAP_USERNAME"@),
        password: filled(env, "SAP_PASSWORD"@),
        token: filled(env, "SAP_TOKEN"@),
        oauth_token_url: filled(env, "SAP_OAUTH_TOKEN_URL"@),
        oauth_client_id: filled(env, "SAP_OAUTH_CLIENT_ID"@),
        oauth_client_secret: filled(env, "SAP_OAUTH_CLIENT_SECRET"@),
        oauth_scope: filled(env, "SAP_OAUTH_SCOPE"@),
        odata_version: filled_or(env, "SAP_ODATA_VERSION"@, "v2"@),
        service: filled(env, "SAP_SERVICE"@),
        timeout_ms: (match filled(env, "SAP_TIMEOUT_MS"@) {
            Some(v) => match unsigned_of(v, u64::MAX as nat) {
                Some(n) => n as u64,
                None => 30000u64,
            },
            None => 30000u64,
        }),
        max_retries: 3,
        verify_ssl: (match filled(env, "SAP_VERIFY_SSL"@) {
            Some(v) => truthy(v),
            None => true,
        }),
        mcp_tokens: (match filled(env, "SAP_MCP_TOKEN"@) {
            Some(t) => seq![t],
            None => Seq::empty(),
        }),
    }
}

/// The system that the single-instance variables describe.
pub fn single_instance(env: &Env) -> (r: SapInstanceConfig)
    ensures
        r@ == single_config(env@),
{
    let timeout: u64 = match non_empty_env(env, "SAP_TIMEOUT_MS") {
        Some(v) => match parse_unsigned(v.as_str(), u64::MAX) {
            Some(n) => n,
            None => 30000,
        },
        None => 30000,
    };
    let verify: bool = match non_empty_env(env, "SAP_VERIFY_SSL") {
        Some(v) => env_truthy(v.as_str()),
        None => true,
    };
    let mut tokens: Vec<String> = Vec::new();
    let token = non_empty_env(env, "SAP_MCP_TOKEN");
    let ghost wanted = opt_text(token);
    if let Some(t) = token {
        tokens.push(t);
        assert(texts(tokens@) =~= seq![wanted->0]);
    } else {
        assert(texts(tokens@) =~= Seq::<Seq<char>>::empty());
    }
    SapInstanceConfig {
        url: env_or(env, "SAP_URL", "http://localhost:8000"),
        client: non_empty_env(env, "SAP_CLIENT"),
        auth_type: env_or(env, "SAP_AUTH_TYPE", "basic"),
        username: non_empty_env(env, "SAP_USERNAME"),
        password: non_empty_env(env, "SAP_PASSWORD"),
        token: non_empty_env(env, "SAP_TOKEN"),
        oauth_token_url: non_empty_env(env, "SAP_OAUTH_TOKEN_URL"),
        oauth_client_id: non_empty_env(env, "SAP_OAUTH_CLIENT_ID"),
        oauth_client_secret: non_empty_env(env, "SAP_OAUTH_CLIENT_SECRET"),
        oauth_scope: non_empty_env(env, "SAP_OAUTH_SCOPE"),
        odata_version: env_or(env, "SAP_ODATA_VERSION", "v2"),
        service: non_empty_env(env, "SAP_SERVICE"),
        timeout_ms: timeout,
        max_retries: 3,
        verify_ssl: verify,
        mcp_tokens: tokens,
    }
}

/// Whether an optional text is missing or blank.
pub open spec fn blank(o: Option<Seq<char>>) -> bool {
    match o {
        Some(s) => trimmed(s).len() == 0,
        None => true,
    }
}

fn is_blank(o: &Option<String>) -> (r: bool)
    ensures
        r == blank(opt_text(*o)),
{
    match o {
        Some(s) => trim(s.as_str()).as_str().is_empty(),
        None => true,
    }
}

/// Whether a list holds a blank text.
pub open spec fn has_blank(v: Seq<Seq<char>>) -> bool {
    exists|i: int| 0 <= i < v.len() && trimmed(#[trigger] v[i]).len() == 0
}

fn list_has_blank(v: &Vec<String>) -> (r: bool)
    ensures
        r == has_blank(texts(v@)),
{
    let mut i: usize = 0;
    while i < v.len()
        invariant
            i <= v@.len(),
            forall|k: int| 0 <= k < i ==> trimmed(#[trigger] texts(v@)[k]).len() > 0,
        decreases v@.len() - i,
    {
        if trim(v[i].as_str()).as_str().is_empty() {
            assert(trimmed(texts(v@)[i as int]).len() == 0);
            return true;
        }
        assert(trimmed(texts(v@)[i as int]).len() > 0);
        i = i + 1;
    }
    false
}

/// What is wrong with the credentials of a system, if anything.
pub open spec fn credential_error(name: Seq<char>, cfg: ConfigV) -> Option<Seq<char>> {
    let auth = lowercase(cfg.auth_type);
    if auth == "basic"@ {
        if blank(cfg.username) || blank(cfg.password) {
            Some("instance '"@ + name + "' (basic) needs username+password"@)
        } else {
            None
        }
    } else if auth == "bearer"@ {
        if blank(cfg.token) {
            Some("instance '"@ + name + "' (bearer) needs token"@)
        } else {
            None
        }
    } else if auth == "oauth2"@ {
        if blank(cfg.oauth_token_url) {
            Some("instance '"@ + name + "' (oauth2) needs oauth_token_url"@)
        } else if blank(cfg.oauth_client_id) {
            Some("instance '"@ + name + "' (oauth2) needs oauth_client_id"@)
        } else if blank(cfg.oauth_client_secret) {
            Some("instance '"@ + name + "' (oauth2) needs oauth_client_secret"@)
        } else {
            None
        }
    } else {
        Some(
            "instance '"@ + name + "' has unknown auth_type '"@ + auth
                + "' (basic|bearer|oauth2)"@,
        )
    }
}

/// What is wrong with the settings of a system, if anything.
pub open spec fn config_error(name: Seq<char>, cfg: ConfigV) -> Option<Seq<char>> {
    if !instance_name(name) {
        Some("invalid instance name '"@ + name + "'"@)
    } else if credential_error(name, cfg) is Some {
        credential_error(name, cfg)
    } else if cfg.timeout_ms == 0 {
        Some("instance '"@ + name + "' has timeout_ms=0"@)
    } else if has_blank(cfg.mcp_tokens) {
        Some("instance '"@ + name + "' has an empty mcp token"@)
    } else {
        None
    }
}

fn check_credentials(name: &str, cfg: &SapInstanceConfig) -> (r: Option<String>)
    ensures
        opt_text(r) == credential_error(name@, cfg@),
{
    let auth = lower(cfg.auth_type.as_str());
    if same(auth.as_str(), "basic") {
        if is_blank(&cfg.username) || is_blank(&cfg.password) {
            Some(cat3("instance '", name, "' (basic) needs username+password"))
        } else {
            None
        }
    } else if same(auth.as_str(), "bearer") {
        if is_blank(&cfg.token) {
            Some(cat3("instance '", name, "' (bearer) needs token"))
        } else {
            None
        }
    } else if same(auth.as_str(), "oauth2") {
        if is_blank(&cfg.oauth_token_url) {
            Some(cat3("instance '", name, "' (oauth2) needs oauth_token_url"))
        } else if is_blank(&cfg.oauth_client_id) {
            Some(cat3("instance '", name, "' (oauth2) needs oauth_client_id"))
        } else if is_blank(&cfg.oauth_client_secret) {
            Some(cat3("instance '", name, "' (oauth2) needs oauth_client_secret"))
        } else {
            None
        }
    } else {
        Some(
            cat5(
                "instance '",
                name,
                "' has unknown auth_type '",
                auth.as_str(),
                "' (basic|bearer|oauth2)",
            ),
        )
    }
}

fn check_config(name: &str, cfg: &SapInstanceConfig) -> (r: Option<String>)
    ensures
        opt_text(r) == config_error(name@, cfg@),
{
    if !valid_instance_name(name) {
        return Some(cat3("invalid instance name '", name, "'"));
    }
    if let Some(e) = check_credentials(name, cfg) {
        return Some(e);
    }
    if cfg.timeout_ms == 0 {
        return Some(cat3("instance '", name, "' has timeout_ms=0"));
    }
    if list_has_blank(&cfg.mcp_tokens) {
        return Some(cat3("instance '", name, "' has an empty mcp token"));
    }
    None
}

/// What the settings in a map are.
pub open spec fn configs_of(m: Seq<(Seq<char>, SapInstanceConfig)>) -> Configs {
    each(m, |c: SapInstanceConfig| c@)
}

/// The first system, in the order of the names, whose settings are wrong.
pub open spec fn first_error(m: Configs) -> Option<Seq<char>>
    decreases m.len(),
{
    if m.len() == 0 {
        None
    } else if config_error(m[0].0, m[0].1) is Some {
        config_error(m[0].0, m[0].1)
    } else {
        first_error(m.drop_first())
    }
}

/// Accepts the systems if the settings of each are right, and says of the first that
/// is not, in the order of the names, what is wrong with it.
pub fn validate_instances(map: StrMap<SapInstanceConfig>) -> (r: Result<
    StrMap<SapInstanceConfig>,
    String,
>)
    ensures
        (match r {
            Ok(m) => m@ == map@ && first_error(configs_of(map@)) is None,
            Err(e) => first_error(configs_of(map@)) == Some(e@),
        }),
{
    let ghost all = configs_of(map@);
    let mut i: usize = 0;
    let n: usize = map.len();
    assert(all.skip(0) =~= all);
    while i < n
        invariant
            i <= n,
            n == map@.len(),
            all == configs_of(map@),
            first_error(all) == first_error(all.skip(i as int)),
        decreases n - i,
    {
        let ghost rest = all.skip(i as int);
        assert(rest[0] == all[i as int]);
        assert(rest.drop_first() =~= all.skip(i + 1));
        if let Some(e) = check_config(map.key_at(i).as_str(), map.value_at(i)) {
            return Err(e);
        }
        i = i + 1;
    }
    Ok(map)
}

/// No system passes whose name, credentials, timeout or tokens are wrong.
pub proof fn accepted_systems_are_right(m: Configs, i: int)
    requires
        first_error(m) is None,
        0 <= i < m.len(),
    ensures
        config_error(m[i].0, m[i].1) is None,
    decreases m.len(),
{
    if i > 0 {
        accepted_systems_are_right(m.drop_first(), i - 1);
    }
}

/// Where the systems are described.
pub enum InstanceSource {
    /// In a file that `SAP_INSTANCES_JSON` names.
    JsonFile(String),
    /// In a file that `SAP_INSTANCES` names.
    File(String),
    /// In `SAP_INSTANCES` itself.
    Inline(String),
    /// In the single-instance variables.
    Variables,
}

/// Where the systems are described.
pub enum SourceV {
    JsonFile(Seq<char>),
    File(Seq<char>),
    Inline(Seq<char>),
    Variables,
}

impl InstanceSource {
    /// What the source is.
    pub open spec fn view(&self) -> SourceV {
        match self {
            InstanceSource::JsonFile(p) => SourceV::JsonFile(p@),
            InstanceSource::File(p) => SourceV::File(p@),
            InstanceSource::Inline(t) => SourceV::Inline(t@),
            InstanceSource::Variables => SourceV::Variables,
        }
    }
}

/// Where the systems are described: `SAP_INSTANCES_JSON` goes before
/// `SAP_INSTANCES`, and that before the single-instance variables.
pub open spec fn source_of(env: Vars) -> SourceV {
    match filled(env, "SAP_INSTANCES_JSON"@) {
        Some(p) => SourceV::JsonFile(p),
        None => match filled(env, "SAP_INSTANCES"@) {
            Some(v) => {
                let t = trimmed(v);
                if has_prefix(t, "{"@) {
                    SourceV::Inline(t)
                } else if has_prefix(t, "/"@) || has_prefix(t, "."@) || has_suffix(t, ".json"@) {
                    SourceV::File(t)
                } else {
                    SourceV::Variables
                }
            },
            None => SourceV::Variables,
        },
    }
}

/// Where the systems are described.
pub fn instance_source(env: &Env) -> (r: InstanceSource)
    ensures
        r@ == source_of(env@),
{
    if let Some(p) = non_empty_env(env, "SAP_INSTANCES_JSON") {
        return InstanceSource::JsonFile(p);
    }
    if let Some(v) = non_empty_env(env, "SAP_INSTANCES") {
        let t = trim(v.as_str());
        if starts_with(t.as_str(), "{") {
            return InstanceSource::Inline(t);
        }
        if starts_with(t.as_str(), "/") || starts_with(t.as_str(), ".") || ends_with(
            t.as_str(),
            ".json",
        ) {
            return InstanceSource::File(t);
        }
    }
    InstanceSource::Variables
}

/// How loading the systems goes on.
pub enum Loading {
    /// A file has to be read and handed to `instances_document`; where that fails,
    /// the error is the text.
    Read { path: String, on_error: String },
    /// The text has to be handed to `instances_document`.
    Parse(String),
    /// The name of the default system, and the systems.
    Loaded(String, StrMap<SapInstanceConfig>),
    /// The settings are wrong.
    Failed(String),
}

/// What loading the systems comes to first.
pub open spec fn loading_is(env: Vars, r: Loading) -> bool {
    match source_of(env) {
        SourceV::JsonFile(p) => r matches Loading::Read { path, on_error } && path@ == p && on_error@
            == "read SAP_INSTANCES_JSON "@ + p,
        SourceV::File(p) => r matches Loading::Read { path, on_error } && path@ == p && on_error@
            == "read SAP_INSTANCES file "@ + p,
        SourceV::Inline(t) => r matches Loading::Parse(text) && text@ == t,
        SourceV::Variables => match config_error("default"@, single_config(env)) {
            Some(e) => r matches Loading::Failed(x) && x@ == e,
            None => r matches Loading::Loaded(name, m) && name@ == "default"@ && configs_of(m@)
                == seq![("default"@, single_config(env))],
        },
    }
}

/// Loads the systems as far as that can be done without reading a file.
pub fn load_instances(env: &Env) -> (r: Loading)
    ensures
        loading_is(env@, r),
{
    match instance_source(env) {
        InstanceSource::JsonFile(p) => {
            let on_error = cat2("read SAP_INSTANCES_JSON ", p.as_str());
            Loading::Read { path: p, on_error }
        },
        InstanceSource::File(p) => {
            let on_error = cat2("read SAP_INSTANCES file ", p.as_str());
            Loading::Read { path: p, on_error }
        },
        InstanceSource::Inline(t) => Loading::Parse(t),
        InstanceSource::Variables => {
            let mut m: StrMap<SapInstanceConfig> = StrMap::new();
            let cfg = single_instance(env);
            let ghost one = seq![("default"@, cfg@)];
            m.insert("default".to_owned(), cfg);
            assert(configs_of(m@) =~= one);
            assert(one.drop_first() =~= Seq::<(Seq<char>, ConfigV)>::empty());
            assert(one[0] == ("default"@, cfg@));
            assert(first_error(one.drop_first()) is None);
            assert(first_error(one) == config_error("default"@, cfg@));
            match validate_instances(m) {
                Ok(m2) => Loading::Loaded("default".to_owned(), m2),
                Err(e) => Loading::Failed(e),
            }
        },
    }
}

/// A document that describes systems.
pub struct InstancesDocument {
    /// The object from names to settings, as a JSON text.
    pub entries: String,
    /// Whether the object was the member `instances` of the document.
    pub wrapped: bool,
    /// The member `default` of such a document.
    pub default: Option<String>,
    /// The message for entries that are not an object from names to settings.
    pub on_error: String,
}

/// Whether `r` holds what a JSON document says of the systems.
pub open spec fn document_is(v: JsonV, r: InstancesDocument) -> bool {
    match v.get("instances"@) {
        Some(entries) => {
            &&& r.wrapped
            &&& r.entries@ == crate::json::json_text(entries)
            &&& opt_text(r.default) == v.text_at("default"@)
            &&& r.on_error@ == "parse instances map"@
        },
        None => {
            &&& !r.wrapped
            &&& r.entries@ == crate::json::json_text(v)
            &&& r.default is None
            &&& r.on_error@ == "parse bare instances map"@
        },
    }
}

/// Takes a JSON document that describes systems apart: under `instances`, with
/// an optional `default`, or as a bare object.
pub fn take_document(v: &Json) -> (r: InstancesDocument)
    ensures
        document_is(v@, r),
{
    match v.get("instances") {
        Some(entries) => InstancesDocument {
            entries: entries.to_text(),
            wrapped: true,
            default: match v.str_at("default") {
                Some(s) => Some(s.clone()),
                None => None,
            },
            on_error: "parse instances map".to_owned(),
        },
        None => InstancesDocument {
            entries: v.to_text(),
            wrapped: false,
            default: None,
            on_error: "parse bare instances map".to_owned(),
        },
    }
}

/// Reads a text that describes systems.
pub fn instances_document(text: &str) -> (r: Result<InstancesDocument, String>)
    ensures
        (match json_parse(text@) {
            Ok(v) => r matches Ok(d) && document_is(v, d),
            Err(_) => r matches Err(e) && e@ == "SAP_INSTANCES is not valid JSON"@,
        }),
{
    match Json::parse(text) {
        Ok(v) => Ok(take_document(&v)),
        Err(_) => Err("SAP_INSTANCES is not valid JSON".to_owned()),
    }
}

/// Which system is the default one.
pub open spec fn default_of(wrapped: bool, default: Option<Seq<char>>, m: Configs) -> Result<
    Seq<char>,
    Seq<char>,
> {
    if m.len() == 0 {
        Err("instances map is empty"@)
    } else if wrapped {
        match default {
            Some(d) => Ok(d),
            None => if m.len() == 1 {
                Ok(m[0].0)
            } else {
                Ok("default"@)
            },
        }
    } else if m.len() == 1 {
        Ok(m[0].0)
    } else if find(m, "default"@) is Some {
        Ok("default"@)
    } else {
        Err("multi-instance JSON needs \"default\" or \"instances\" key"@)
    }
}

/// What a document with these systems comes to: the name of the default system, or
/// what is wrong.
pub open spec fn settled(wrapped: bool, default: Option<Seq<char>>, m: Configs) -> Result<
    Seq<char>,
    Seq<char>,
> {
    match default_of(wrapped, default, m) {
        Err(e) => Err(e),
        Ok(d) => match first_error(m) {
            Some(e) => Err(e),
            None => Ok(d),
        },
    }
}

/// Settles which of the systems of a document is the default one, and that their
/// settings are right.
pub fn settle_instances(
    wrapped: bool,
    default: &Option<String>,
    map: StrMap<SapInstanceConfig>,
) -> (r: Result<(String, StrMap<SapInstanceConfig>), String>)
    ensures
        (match r {
            Ok(p) => settled(wrapped, opt_text(*default), configs_of(map@)) == Ok::<
                Seq<char>,
                Seq<char>,
            >(p.0@) && p.1@ == map@,
            Err(e) => settled(wrapped, opt_text(*default), configs_of(map@)) == Err::<
                Seq<char>,
                Seq<char>,
            >(e@),
        }),
{
    let ghost m = configs_of(map@);
    if map.len() == 0 {
        return Err("instances map is empty".to_owned());
    }
    proof {
        lemma_each_find(map@, |c: SapInstanceConfig| c@, "default"@);
    }
    let name: String = if wrapped {
        match default {
            Some(d) => d.clone(),
            None => if map.len() == 1 {
                map.key_at(0).clone()
            } else {
                "default".to_owned()
            },
        }
    } else if map.len() == 1 {
        map.key_at(0).clone()
    } else if map.has("default") {
        "default".to_owned()
    } else {
        return Err("multi-instance JSON needs \"default\" or \"instances\" key".to_owned());
    };
    match validate_instances(map) {
        Ok(m2) => Ok((name, m2)),
        Err(e) => Err(e),
    }
}

/// Whether a variable is set to something that is not blank.
pub open spec fn set_to(env: Vars, name: Seq<char>, v: Seq<char>) -> bool {
    find(env, name) == Some(v) && trimmed(v).len() > 0
}

/// Whether a variable is unset or blank.
pub open spec fn not_set(env: Vars, name: Seq<char>) -> bool {
    find(env, name) matches Some(v) ==> trimmed(v).len() == 0
}

/// The system of the single-instance variables has each of its settings from its variable,
/// and without it the default.
pub proof fn variables_describe_the_system(env: Vars, v: Seq<char>)
    ensures
        ({
            let c = single_config(env);
            &&& set_to(env, "SAP_URL"@, v) ==> c.url == v
            &&& not_set(env, "SAP_URL"@) ==> c.url == "http://localhost:8000"@
            &&& set_to(env, "SAP_AUTH_TYPE"@, v) ==> c.auth_type == v
            &&& not_set(env, "SAP_AUTH_TYPE"@) ==> c.auth_type == "basic"@
            &&& set_to(env, "SAP_ODATA_VERSION"@, v) ==> c.odata_version == v
            &&& not_set(env, "SAP_ODATA_VERSION"@) ==> c.odata_version == "v2"@
            &&& set_to(env, "SAP_CLIENT"@, v) ==> c.client == Some(v)
            &&& not_set(env, "SAP_CLIENT"@) ==> c.client is None
            &&& set_to(env, "SAP_USERNAME"@, v) ==> c.username == Some(v)
            &&& not_set(env, "SAP_USERNAME"@) ==> c.username is None
            &&& set_to(env, "SAP_PASSWORD"@, v) ==> c.password == Some(v)
            &&& not_set(env, "SAP_PASSWORD"@) ==> c.password is None
            &&& set_to(env, "SAP_TOKEN"@, v) ==> c.token == Some(v)
            &&& not_set(env, "SAP_TOKEN"@) ==> c.token is None
            &&& set_to(env, "SAP_OAUTH_TOKEN_URL"@, v) ==> c.oauth_token_url == Some(v)
            &&& not_set(env, "SAP_OAUTH_TOKEN_URL"@) ==> c.oauth_token_url is None
            &&& set_to(env, "SAP_OAUTH_CLIENT_ID"@, v) ==> c.oauth_client_id == Some(v)
            &&& not_set(env, "SAP_OAUTH_CLIENT_ID"@) ==> c.oauth_client_id is None
            &&& set_to(env, "SAP_OAUTH_CLIENT_SECRET"@, v) ==> c.oauth_client_secret == Some(v)
            &&& not_set(env, "SAP_OAUTH_CLIENT_SECRET"@) ==> c.oauth_client_secret is None
            &&& set_to(env, "SAP_OAUTH_SCOPE"@, v) ==> c.oauth_scope == Some(v)
            &&& not_set(env, "SAP_OAUTH_SCOPE"@) ==> c.oauth_scope is None
            &&& set_to(env, "SAP_SERVICE"@, v) ==> c.service == Some(v)
            &&& not_set(env, "SAP_SERVICE"@) ==> c.service is None
            &&& set_to(env, "SAP_MCP_TOKEN"@, v) ==> c.mcp_tokens == seq![v]
            &&& not_set(env, "SAP_MCP_TOKEN"@) ==> c.mcp_tokens.len() == 0
            &&& not_set(env, "SAP_TIMEOUT_MS"@) ==> c.timeout_ms == 30000
            &&& set_to(env, "SAP_VERIFY_SSL"@, v) ==> c.verify_ssl == truthy(v)
            &&& not_set(env, "SAP_VERIFY_SSL"@) ==> c.verify_ssl
            &&& c.max_retries == 3
        }),
{
}

/// The timeout of the single system is the number of its variable.
pub proof fn the_timeout_is_read(env: Vars, n: nat)
    requires
        n <= u64::MAX,
        find(env, "SAP_TIMEOUT_MS"@) == Some(dec(n)),
    ensures
        single_config(env).timeout_ms == n,
{
    naturals_are_read_back(n, u64::MAX as nat);
    let d = dec(n);
    crate::numeral::lemma_dec(n);
    assert(crate::numeral::is_digit(d[0]) && crate::numeral::is_digit(d[d.len() - 1]));
    crate::text::lemma_trimmed_same(d);
}

/// A value reads as true if and only if it is one of five words, in any case and with blanks
/// around it.
pub proof fn five_words_read_as_true(v: Seq<char>)
    ensures
        truthy(v) <==> (lowercase(trimmed(v)) == "1"@ || lowercase(trimmed(v)) == "true"@
            || lowercase(trimmed(v)) == "yes"@ || lowercase(trimmed(v)) == "y"@ || lowercase(
            trimmed(v),
        ) == "on"@),
{
}

/// A page has the size that is asked for, up to the largest; without a size that is a number
/// above zero it has the usual one. The offset is the one that is asked for, if it is none
/// below zero.
pub proof fn pages_are_as_asked_for(v: JsonV, n: int, default: int)
    requires
        v == JsonV::Num(crate::json::number_of(n)),
        i64::MIN <= n <= i64::MAX,
    ensures
        1 <= n <= 200 ==> page_top(Some(v), default) == n,
        n > 200 ==> page_top(Some(v), default) == 200,
        n <= 0 ==> page_top(Some(v), default) == default,
        page_top(None, default) == default,
        n >= 0 ==> page_skip(Some(v)) == n,
        n < 0 ==> page_skip(Some(v)) == 0,
        page_skip(None) == 0,
{
}

/// A pattern of two parts matches a text if and only if the text has two parts that they
/// match, one behind the other.
pub proof fn patterns_match_part_by_part(p: Seq<char>, q: Seq<char>, s: Seq<char>)
    ensures
        glob(p + q, s) <==> exists|k: int|
            0 <= k <= s.len() && glob(p, #[trigger] s.take(k)) && glob(q, s.skip(k)),
    decreases p.len(), s.len(),
{
    let pq = p + q;
    if p.len() == 0 {
        assert(pq =~= q);
        assert(s.skip(0) =~= s);
        assert(s.take(0).len() == 0);
        if exists|k: int| 0 <= k <= s.len() && glob(p, #[trigger] s.take(k)) && glob(q, s.skip(k)) {
            let k = choose|k: int|
                0 <= k <= s.len() && glob(p, #[trigger] s.take(k)) && glob(q, s.skip(k));
            assert(s.take(k).len() == 0);
            assert(k == 0);
        }
    } else {
        let p1 = p.drop_first();
        assert(pq.drop_first() =~= p1 + q);
        assert(pq[0] == p[0]);
        if p[0] == '*' {
            patterns_match_part_by_part(p1, q, s);
            if s.len() > 0 {
                let s1 = s.drop_first();
                patterns_match_part_by_part(p, q, s1);
                assert(p1 + q =~= pq.drop_first());
            }
            if glob(pq, s) {
                if glob(p1 + q, s) {
                    let k = choose|k: int|
                        0 <= k <= s.len() && glob(p1, #[trigger] s.take(k)) && glob(q, s.skip(k));
                    assert(glob(p, s.take(k)));
                } else {
                    let s1 = s.drop_first();
                    let k = choose|k: int|
                        0 <= k <= s1.len() && glob(p, #[trigger] s1.take(k)) && glob(q, s1.skip(k));
                    assert(s.take(k + 1).drop_first() =~= s1.take(k));
                    assert(s.skip(k + 1) =~= s1.skip(k));
                    assert(glob(p, s.take(k + 1)));
                }
            }
            if exists|k: int|
                0 <= k <= s.len() && glob(p, #[trigger] s.take(k)) && glob(q, s.skip(k)) {
                let k = choose|k: int|
                    0 <= k <= s.len() && glob(p, #[trigger] s.take(k)) && glob(q, s.skip(k));
                let t = s.take(k);
                if glob(p1, t) {
                    assert(glob(p1 + q, s));
                } else {
                    let s1 = s.drop_first();
                    assert(t.drop_first() =~= s1.take(k - 1));
                    assert(s.skip(k) =~= s1.skip(k - 1));
                    assert(glob(p, s1.take(k - 1)) && glob(q, s1.skip(k - 1)));
                    assert(glob(pq, s1));
                }
            }
        } else {
            if s.len() > 0 {
                let s1 = s.drop_first();
                patterns_match_part_by_part(p1, q, s1);
                if glob(pq, s) {
                    let k = choose|k: int|
                        0 <= k <= s1.len() && glob(p1, #[trigger] s1.take(k)) && glob(q, s1.skip(k));
                    assert(s.take(k + 1).drop_first() =~= s1.take(k));
                    assert(s.take(k + 1)[0] == s[0]);
                    assert(s.skip(k + 1) =~= s1.skip(k));
                    assert(glob(p, s.take(k + 1)));
                }
                if exists|k: int|
                    0 <= k <= s.len() && glob(p, #[trigger] s.take(k)) && glob(q, s.skip(k)) {
                    let k = choose|k: int|
                        0 <= k <= s.len() && glob(p, #[trigger] s.take(k)) && glob(q, s.skip(k));
                    let t = s.take(k);
                    assert(t.drop_first() =~= s1.take(k - 1));
                    assert(s.skip(k) =~= s1.skip(k - 1));
                    assert(t[0] == s[0]);
                    assert(glob(p1, s1.take(k - 1)) && glob(q, s1.skip(k - 1)));
                }
            } else {
                if exists|k: int|
                    0 <= k <= s.len() && glob(p, #[trigger] s.take(k)) && glob(q, s.skip(k)) {
                    let k = choose|k: int|
                        0 <= k <= s.len() && glob(p, #[trigger] s.take(k)) && glob(q, s.skip(k));
                    assert(s.take(k).len() == 0);
                }
            }
        }
    }
}

/// An entity may be touched if and only if no pattern of the deny list matches it, and one of
/// the allow list does, where that names any.
pub proof fn entities_are_open_by_the_lists(
    env: Vars,
    entity: Seq<char>,
    deny: Seq<char>,
    allow: Seq<char>,
)
    requires
        find(env, "SAP_ENTITY_DENY"@) == Some(deny),
        find(env, "SAP_ENTITY_ALLOW"@) == Some(allow),
    ensures
        entity_open(env, entity) <==> (forall|i: int|
            0 <= i < list_items(deny).len() ==> !glob(#[trigger] list_items(deny)[i], entity)) && (
        list_items(allow).len() == 0 || exists|i: int|
            0 <= i < list_items(allow).len() && glob(#[trigger] list_items(allow)[i], entity)),
{
}

/// Write tools are shown with `high` or `write` among the modes, and only then; all others
/// always.
pub proof fn modes_show_the_write_tools(modes: Seq<Seq<char>>, group: Seq<char>)
    ensures
        group != "write"@ ==> group_shown(modes, group),
        group == "write"@ ==> (group_shown(modes, group) <==> modes.contains("high"@)
            || modes.contains("write"@)),
{
}

/// The modes are the items of their list, in lower case; without one they are `readonly` and
/// `high`.
pub proof fn modes_are_the_items_of_their_list(a: Seq<Seq<char>>, b: Seq<Seq<char>>, x: Seq<char>)
    ensures
        kept_modes(a + b) == kept_modes(a) + kept_modes(b),
        lowercase(trimmed(x)).len() > 0 ==> kept_modes(seq![x]) == seq![lowercase(trimmed(x))],
    decreases b.len(),
{
    assert(seq![x].drop_last() =~= Seq::<Seq<char>>::empty());
    assert(kept_modes(Seq::<Seq<char>>::empty()) == Seq::<Seq<char>>::empty());
    if lowercase(trimmed(x)).len() > 0 {
        assert(kept_modes(seq![x]) =~= seq![lowercase(trimmed(x))]);
    }
    if b.len() == 0 {
        assert(a + b =~= a);
        assert(kept_modes(a) + kept_modes(b) =~= kept_modes(a));
    } else {
        modes_are_the_items_of_their_list(a, b.drop_last(), x);
        assert((a + b).drop_last() =~= a + b.drop_last());
        assert(kept_modes(a + b) =~= kept_modes(a) + kept_modes(b));
    }
}

/// The address of a service is that of its system, without slashes behind it, and the path of
/// the service: the one that is asked for, or that of the settings.
pub proof fn services_are_below_their_system(cfg: ConfigV, svc: Seq<char>)
    requires
        service_path(svc),
        svc.last() != '/',
    ensures
        cfg.root(Some(svc)) == Ok::<Seq<char>, Seq<char>>(url_normal(cfg.url) + svc),
        cfg.service == Some(svc) ==> cfg.root(None) == Ok::<Seq<char>, Seq<char>>(
            url_normal(cfg.url) + svc,
        ),
        cfg.service is None ==> cfg.root(None) is Err,
{
}

/// A path that is none is refused.
pub proof fn wrong_services_are_refused(cfg: ConfigV, svc: Seq<char>)
    requires
        !service_path(svc),
    ensures
        cfg.root(Some(svc)) == Err::<Seq<char>, Seq<char>>("invalid service path '"@ + svc + "'"@),
{
}

/// An address with a scheme and without blanks around it and slashes behind it stays as it is;
/// one without a scheme gets one.
pub proof fn addresses_get_a_scheme(url: Seq<char>)
    requires
        url.len() > 0,
        trimmed(url) == url,
        url.last() != '/',
    ensures
        has_prefix(url, "http://"@) || has_prefix(url, "https://"@) ==> url_normal(url) == url,
        !has_prefix(url, "http://"@) && !has_prefix(url, "https://"@) ==> url_normal(url)
            == "http://"@ + url,
{
}

/// What a system needs to be accepted: a name that is one, a kind of authentication that there
/// is with all that it needs, a timeout, and no blank token.
pub proof fn systems_are_accepted_with_what_they_need(name: Seq<char>, cfg: ConfigV)
    ensures
        config_error(name, cfg) is None <==> instance_name(name) && ((lowercase(cfg.auth_type)
            == "basic"@ && !blank(cfg.username) && !blank(cfg.password)) || (lowercase(
            cfg.auth_type,
        ) == "bearer"@ && !blank(cfg.token)) || (lowercase(cfg.auth_type) == "oauth2"@ && !blank(
            cfg.oauth_token_url,
        ) && !blank(cfg.oauth_client_id) && !blank(cfg.oauth_client_secret))) && cfg.timeout_ms > 0
            && forall|i: int| 0 <= i < cfg.mcp_tokens.len() ==> trimmed(#[trigger] cfg.mcp_tokens[i]).len() > 0,
{
    reveal_strlit("basic");
    reveal_strlit("bearer");
    reveal_strlit("oauth2");
    assert("basic"@.len() == 5 && "bearer"@.len() == 6 && "oauth2"@.len() == 6);
    assert("bearer"@[0] != "oauth2"@[0]);
}

/// A wrong system is never accepted, wherever it stands among others.
pub proof fn wrong_systems_are_refused(m: Configs, i: int)
    requires
        0 <= i < m.len(),
        config_error(m[i].0, m[i].1) is Some,
    ensures
        first_error(m) is Some,
    decreases m.len(),
{
    if i > 0 {
        wrong_systems_are_refused(m.drop_first(), i - 1);
    }
}

/// Which system is the default: the one that a document names; of one system that one;
/// otherwise the one named `default`.
pub proof fn defaults_are_as_named(d: Seq<char>, m: Configs)
    requires
        m.len() > 0,
    ensures
        default_of(true, Some(d), m) == Ok::<Seq<char>, Seq<char>>(d),
        m.len() == 1 ==> default_of(true, None, m) == Ok::<Seq<char>, Seq<char>>(m[0].0)
            && default_of(false, None, m) == Ok::<Seq<char>, Seq<char>>(m[0].0),
        m.len() > 1 ==> default_of(true, None, m) == Ok::<Seq<char>, Seq<char>>("default"@),
        m.len() > 1 && find(m, "default"@) is Some ==> default_of(false, None, m) == Ok::<
            Seq<char>,
            Seq<char>,
        >("default"@),
        m.len() > 1 && find(m, "default"@) is None ==> default_of(false, None, m) is Err,
        default_of(true, Some(d), Seq::empty()) is Err,
        default_of(false, None, Seq::empty()) is Err,
{
}

/// Systems are settled with their default if and only if all of them are right.
pub proof fn right_systems_are_settled(wrapped: bool, default: Option<Seq<char>>, m: Configs, d: Seq<char>)
    requires
        default_of(wrapped, default, m) == Ok::<Seq<char>, Seq<char>>(d),
    ensures
        settled(wrapped, default, m) == Ok::<Seq<char>, Seq<char>>(d) <==> forall|i: int|
            0 <= i < m.len() ==> config_error((#[trigger] m[i]).0, m[i].1) is None,
{
    if first_error(m) is None {
        assert forall|i: int| 0 <= i < m.len() implies config_error((#[trigger] m[i]).0, m[i].1) is None by {
            accepted_systems_are_right(m, i);
        }
    } else {
        if forall|i: int| 0 <= i < m.len() ==> config_error((#[trigger] m[i]).0, m[i].1) is None {
            lemma_no_error(m);
        }
    }
}

proof fn lemma_no_error(m: Configs)
    requires
        forall|i: int| 0 <= i < m.len() ==> config_error((#[trigger] m[i]).0, m[i].1) is None,
    ensures
        first_error(m) is None,
    decreases m.len(),
{
    if m.len() > 0 {
        let t = m.drop_first();
        assert(config_error(m[0].0, m[0].1) is None);
        assert forall|i: int| 0 <= i < t.len() implies config_error((#[trigger] t[i]).0, t[i].1) is None by {
            assert(t[i] == m[i + 1]);
        }
        lemma_no_error(t);
    }
}

/// Where the systems are looked for: in the file of `SAP_INSTANCES_JSON` first, then in
/// `SAP_INSTANCES`, which is a document, a file, or neither.
pub proof fn sources_have_their_order(env: Vars, v: Seq<char>)
    ensures
        set_to(env, "SAP_INSTANCES_JSON"@, v) ==> source_of(env) == SourceV::JsonFile(v),
        not_set(env, "SAP_INSTANCES_JSON"@) && not_set(env, "SAP_INSTANCES"@) ==> source_of(env)
            == SourceV::Variables,
        not_set(env, "SAP_INSTANCES_JSON"@) && set_to(env, "SAP_INSTANCES"@, v) && has_prefix(
            trimmed(v),
            "{"@,
        ) ==> source_of(env) == SourceV::Inline(trimmed(v)),
        not_set(env, "SAP_INSTANCES_JSON"@) && set_to(env, "SAP_INSTANCES"@, v) && !has_prefix(
            trimmed(v),
            "{"@,
        ) && (has_prefix(trimmed(v), "/"@) || has_prefix(trimmed(v), "."@) || has_suffix(
            trimmed(v),
            ".json"@,
        )) ==> source_of(env) == SourceV::File(trimmed(v)),
{
}

/// What loading comes to is what its source says: the file to read, the text to parse, or the
/// one system of the variables, under the name `default`, where it is right.
pub proof fn loading_goes_by_the_source(env: Vars, r: Loading, p: Seq<char>)
    requires
        loading_is(env, r),
    ensures
        source_of(env) == SourceV::JsonFile(p) || source_of(env) == SourceV::File(p) ==> (r matches Loading::Read {
            path,
            ..
        } && path@ == p),
        source_of(env) == SourceV::Inline(p) ==> (r matches Loading::Parse(t) && t@ == p),
        source_of(env) == SourceV::Variables && config_error("default"@, single_config(env)) is None
            ==> (r matches Loading::Loaded(name, m) && name@ == "default"@ && configs_of(m@).len()
            == 1 && configs_of(m@)[0] == ("default"@, single_config(env))),
        source_of(env) == SourceV::Variables && config_error("default"@, single_config(env)) is Some
            ==> r is Failed,
{
}

/// The systems of a document are the member `instances` with the default beside it, or the
/// document itself.
pub proof fn documents_hold_their_systems(v: JsonV, r: InstancesDocument, e: JsonV)
    requires
        document_is(v, r),
    ensures
        v.get("instances"@) == Some(e) ==> r.entries@ == crate::json::json_text(e) && opt_text(
            r.default,
        ) == v.text_at("default"@),
        v.get("instances"@) is None ==> r.entries@ == crate::json::json_text(v) && r.default is None,
{
}

/// Whether a character is a letter or a digit of ASCII.
pub open spec fn plain_char(c: char) -> bool {
    'a' <= c <= 'z' || 'A' <= c <= 'Z' || '0' <= c <= '9'
}

/// Names of letters, digits and underscores are names of entity sets and of systems; a name of
/// a system may hold hyphens too.
pub proof fn plain_names_are_names(s: Seq<char>)
    requires
        s.len() > 0,
        encode_utf8(s).len() <= 64,
    ensures
        (forall|i: int| 0 <= i < s.len() ==> plain_char(#[trigger] s[i]) || s[i] == '_')
            ==> odata_name(s),
        (forall|i: int|
            0 <= i < s.len() ==> plain_char(#[trigger] s[i]) || s[i] == '_' || s[i] == '-')
            ==> instance_name(s),
{
}

/// What is empty or too long is no name and no path.
pub proof fn names_have_their_length(s: Seq<char>)
    ensures
        encode_utf8(s).len() > 128 ==> !odata_name(s),
        encode_utf8(s).len() > 64 ==> !instance_name(s),
        encode_utf8(s).len() > 256 ==> !service_path(s),
        s.len() == 0 ==> !odata_name(s) && !instance_name(s) && !service_path(s),
{
}

/// No name of a system holds an ASCII character that is not a letter, a digit, a hyphen or the
/// underscore.
pub proof fn names_of_systems_are_plain(s: Seq<char>, c: char)
    requires
        instance_name(s),
        c <= '\u{7f}',
        !plain_char(c),
        c != '_',
        c != '-',
    ensures
        !s.contains(c),
{
    if s.contains(c) {
        let i = choose|i: int| 0 <= i < s.len() && s[i] == c;
        assert(alnum(s[i]) || s[i] == '-' || s[i] == '_');
    }
}

/// A path from the root, made of plain characters and the marks of paths, is a service path
/// unless it steps up.
pub proof fn plain_paths_are_services(s: Seq<char>)
    requires
        s.len() > 0,
        encode_utf8(s).len() <= 256,
        s[0] == '/',
        forall|i: int|
            0 <= i < s.len() ==> plain_char(#[trigger] s[i]) || s[i] == '/' || s[i] == '.' || s[i]
                == '_' || s[i] == '-' || s[i] == '~' || s[i] == '%' || s[i] == '(' || s[i] == ')'
                || s[i] == '=' || s[i] == '\'',
    ensures
        service_path(s) <==> !has_part(s, ".."@),
{
}

/// A page that is asked for with a fraction is cut to the whole number; what is no number asks
/// for nothing.
pub proof fn fractions_are_cut_in_pages(b: u64, s: Seq<char>, default: int)
    ensures
        ({
            let v = Some(JsonV::Num(NumV::Float(b)));
            let t = float_trunc(b);
            &&& 1 <= t <= 200 ==> page_top(v, default) == t
            &&& t > 200 ==> page_top(v, default) == 200
            &&& t <= 0 ==> page_top(v, default) == default
            &&& t >= 0 ==> page_skip(v) == t
            &&& t < 0 ==> page_skip(v) == 0
        }),
        page_top(Some(JsonV::Str(s)), default) == default && page_skip(Some(JsonV::Str(s))) == 0,
        page_top(Some(JsonV::Null), default) == default && page_skip(Some(JsonV::Null)) == 0,
{
}

/// A system speaks the fourth version of the protocol if and only if its version is written
/// `v4` or `4`, in either case and with blanks around it.
pub proof fn versions_are_named(c: ConfigV)
    ensures
        c.v4() <==> lowercase(trimmed(c.odata_version)) == "v4"@ || lowercase(
            trimmed(c.odata_version),
        ) == "4"@,
{
}

/// An optional text or value is there if and only if what it views is, and is what that holds.
pub proof fn optional_views_are_kept(s: &str, v: &Json)
    ensures
        opt_slice(Some(s)) == Some(s@),
        opt_slice(None) is None,
        opt_json(Some(v)) == Some(v@),
        opt_json(None) is None,
{
}

} // verus!
