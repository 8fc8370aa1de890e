//! What happens before the server runs: settings from a file, and the choice of a
//! transport.

use vstd::prelude::*;
use vstd::string::*;
use crate::config::{Env, Vars};
use crate::odata::{pairs_of, push_pair, Pairs};
use crate::strmap::{find, put};
use crate::text::{after_prefix, cat3, cat5, chars_of, cut, cut_at_char, ends_with, has_prefix, has_suffix, same, split, split_at_char, starts_with, strip_prefix, text_of, texts, trim, trimmed};

verus! {

/// A line of a settings file.
pub enum Setting {
    /// It sets nothing.
    Nothing,
    /// It sets a variable to a value.
    Assign(String, String),
    /// Its value is a lone quote.
    Fault,
}

/// A line of a settings file.
pub enum SettingV {
    Nothing,
    Assign(Seq<char>, Seq<char>),
    Fault,
}

impl Setting {
    /// What the line is.
    pub open spec fn view(&self) -> SettingV {
        match self {
            Setting::Nothing => SettingV::Nothing,
            Setting::Assign(k, v) => SettingV::Assign(k@, v@),
            Setting::Fault => SettingV::Fault,
        }
    }
}

/// Whether a value stands between quotes.
pub open spec fn in_quotes(v: Seq<char>) -> bool {
    (has_prefix(v, "\""@) && has_suffix(v, "\""@)) || (has_prefix(v, "'"@) && has_suffix(v, "'"@))
}

/// The name of a variable, with or without `export` before it.
pub open spec fn setting_name(k: Seq<char>) -> Seq<char> {
    trimmed(
        match after_prefix(trimmed(k), "export "@) {
            Some(x) => x,
            None => trimmed(k),
        },
    )
}

/// What a line of a settings file is: `KEY=VALUE`, where the value may stand between
/// quotes. Blank lines and comments set nothing.
pub open spec fn setting(line: Seq<char>) -> SettingV {
    let l = trimmed(line);
    if l.len() == 0 || has_prefix(l, "#"@) {
        SettingV::Nothing
    } else {
        match cut(l, '=') {
            None => SettingV::Nothing,
            Some((k, v0)) => {
                let v = trimmed(v0);
                if in_quotes(v) {
                    if v.len() >= 2 {
                        SettingV::Assign(setting_name(k), v.subrange(1, v.len() - 1))
                    } else {
                        SettingV::Fault
                    }
                } else {
                    SettingV::Assign(setting_name(k), v)
                }
            },
        }
    }
}

/// What a line of a settings file is.
pub fn read_setting(line: &str) -> (r: Setting)
    ensures
        r@ == setting(line@),
{
    let l = trim(line);
    if l.as_str().is_empty() || starts_with(l.as_str(), "#") {
        return Setting::Nothing;
    }
    let (k, v0) = match cut_at_char(l.as_str(), '=') {
        Some(p) => p,
        None => {
            return Setting::Nothing;
        },
    };
    let kt = trim(k.as_str());
    let name: String = match strip_prefix(kt.as_str(), "export ") {
        Some(x) => trim(x.as_str()),
        None => trim(kt.as_str()),
    };
    let v = trim(v0.as_str());
    let quoted = (starts_with(v.as_str(), "\"") && ends_with(v.as_str(), "\"")) || (starts_with(
        v.as_str(),
        "'",
    ) && ends_with(v.as_str(), "'"));
    if quoted {
        let c = chars_of(v.as_str());
        if c.len() < 2 {
            return Setting::Fault;
        }
        let inner = text_of(&c, 1, c.len() - 1);
        assert(inner@ =~= v@.subrange(1, v@.len() - 1));
        Setting::Assign(name, inner)
    } else {
        Setting::Assign(name, v)
    }
}

/// The variables that lines set: each that is not set yet, in the order of the lines.
/// There are none where the value of a line is a lone quote.
pub open spec fn settings(env: Vars, lines: Seq<Seq<char>>) -> Option<Pairs>
    decreases lines.len(),
{
    if lines.len() == 0 {
        Some(Seq::empty())
    } else {
        match setting(lines[0]) {
            SettingV::Nothing => settings(env, lines.drop_first()),
            SettingV::Fault => None,
            SettingV::Assign(k, v) => if find(env, k) is Some {
                settings(env, lines.drop_first())
            } else {
                match settings(put(env, k, v), lines.drop_first()) {
                    Some(rest) => Some(seq![(k, v)] + rest),
                    None => None,
                }
            },
        }
    }
}

/// The variables that a settings file sets: each that is not set yet. They are also set
/// in `env`. There are none where the value of a line is a lone quote.
pub fn load_dotenv_fallback(env: &mut Env, text: &str) -> (r: Option<Vec<(String, String)>>)
    ensures
        (match r {
            Some(p) => settings(old(env)@, split(text@, '\n')) == Some(pairs_of(p@)),
            None => settings(old(env)@, split(text@, '\n')) is None,
        }),
        r matches Some(p) ==> final(env)@ == with_settings(old(env)@, pairs_of(p@)),
{
    let lines = split_at_char(text, '\n');
    let ghost all = texts(lines@);
    let ghost start = env@;
    let mut out: Vec<(String, String)> = Vec::new();
    assert(pairs_of(out@) =~= Seq::<(Seq<char>, Seq<char>)>::empty());
    let mut i: usize = 0;
    proof {
        assert(all.skip(0) =~= all);
        if let Some(rest) = settings(start, all) {
            assert(pairs_of(out@) + rest =~= rest);
        }
    }
    while i < lines.len()
        invariant
            i <= lines@.len(),
            all == texts(lines@),
            all == split(text@, '\n'),
            start == old(env)@,
            settings(start, all) == (match settings(env@, all.skip(i as int)) {
                Some(rest) => Some(pairs_of(out@) + rest),
                None => None,
            }),
            env@ == with_settings(start, pairs_of(out@)),
        decreases lines@.len() - i,
    {
        let ghost rest = all.skip(i as int);
        assert(rest[0] == all[i as int]);
        assert(rest.drop_first() =~= all.skip(i + 1));
        match read_setting(lines[i].as_str()) {
            Setting::Nothing => {},
            Setting::Fault => {
                return None;
            },
            Setting::Assign(k, v) => {
                if env.var(k.as_str()).is_none() {
                    let ghost prev = pairs_of(out@);
                    let ghost before_env = env@;
                    env.set(k.as_str(), v.as_str());
                    push_pair(&mut out, k.as_str(), v.as_str());
                    proof {
                        if let Some(tail) = settings(env@, all.skip(i + 1)) {
                            assert(prev + (seq![(k@, v@)] + tail) =~= pairs_of(out@) + tail);
                        }
                        assert(pairs_of(out@).drop_last() =~= prev);
                    }
                }
            },
        }
        i = i + 1;
    }
    proof {
        assert(all.skip(i as int) =~= Seq::<Seq<char>>::empty());
        assert(pairs_of(out@) + Seq::<(Seq<char>, Seq<char>)>::empty() =~= pairs_of(out@));
    }
    Some(out)
}

/// An environment with variables set.
pub open spec fn with_settings(env: Vars, p: Pairs) -> Vars
    decreases p.len(),
{
    if p.len() == 0 {
        env
    } else {
        put(with_settings(env, p.drop_last()), p.last().0, p.last().1)
    }
}

/// A settings file never changes a variable that is set.
pub proof fn settings_do_not_overwrite(env: Vars, lines: Seq<Seq<char>>, i: int)
    requires
        settings(env, lines) matches Some(p) && 0 <= i < p.len(),
    ensures
        find(env, settings(env, lines)->0[i].0) is None,
    decreases lines.len(),
{
    match setting(lines[0]) {
        SettingV::Assign(k, v) => {
            if find(env, k) is Some {
                settings_do_not_overwrite(env, lines.drop_first(), i);
            } else if i > 0 {
                settings_do_not_overwrite(put(env, k, v), lines.drop_first(), i - 1);
                let rest = settings(put(env, k, v), lines.drop_first())->0;
                crate::strmap::lemma_put_find(env, k, v, rest[i - 1].0);
            }
        },
        _ => {
            settings_do_not_overwrite(env, lines.drop_first(), i);
        },
    }
}

/// A way in which requests come in.
pub enum Transport {
    Stdio,
    Http,
    Ws,
}

/// The transport that a name stands for.
pub open spec fn transport_named(name: Seq<char>) -> Option<Transport> {
    if name == "stdio"@ {
        Some(Transport::Stdio)
    } else if name == "http"@ || name == "streamable-http"@ || name == "sse"@ {
        Some(Transport::Http)
    } else if name == "ws"@ || name == "websocket"@ {
        Some(Transport::Ws)
    } else {
        None
    }
}

/// The transport that a name stands for.
pub fn choose_transport(name: &str) -> (r: Result<Transport, String>)
    ensures
        (match r {
            Ok(t) => transport_named(name@) == Some(t),
            Err(e) => transport_named(name@) is None && e@ == "unknown transport '"@ + name@
                + "' (use stdio|http|sse|ws)"@,
        }),
{
    if same(name, "stdio") {
        Ok(Transport::Stdio)
    } else if same(name, "http") || same(name, "streamable-http") || same(name, "sse") {
        Ok(Transport::Http)
    } else if same(name, "ws") || same(name, "websocket") {
        Ok(Transport::Ws)
    } else {
        Err(cat3("unknown transport '", name, "' (use stdio|http|sse|ws)"))
    }
}

/// A truth value in words.
pub open spec fn truth_word(b: bool) -> Seq<char> {
    if b {
        "true"@
    } else {
        "false"@
    }
}

/// What the check of the configuration reports of a system.
pub fn reach_line(name: &str, reachable: bool, v4: bool) -> (r: String)
    ensures
        r@ == "- "@ + name@ + ": reachable="@ + truth_word(reachable) + " v4="@ + truth_word(v4),
{
    let a: &str = if reachable {
        "true"
    } else {
        "false"
    };
    let b: &str = if v4 {
        "true"
    } else {
        "false"
    };
    let mut t = cat5("- ", name, ": reachable=", a, " v4=");
    t.append(b);
    t
}

/// A line `name=value` sets the variable to the value, with the blanks around both taken away.
pub proof fn lines_set_their_variable(line: Seq<char>, k: Seq<char>, v: Seq<char>)
    requires
        trimmed(line) == k + seq!['='] + v,
        !k.contains('='),
        trimmed(k) == k,
        trimmed(v) == v,
        k.len() > 0,
        k[0] != '#',
        !has_prefix(k, "export "@),
        !in_quotes(v),
    ensures
        setting(line) == SettingV::Assign(k, v),
{
    lemma_setting(line, k, v);
}

proof fn lemma_setting(line: Seq<char>, k: Seq<char>, v: Seq<char>)
    requires
        trimmed(line) == k + seq!['='] + v,
        !k.contains('='),
        trimmed(k) == k,
        k.len() > 0,
        k[0] != '#',
        !has_prefix(k, "export "@),
    ensures
        !has_prefix(trimmed(line), "#"@),
        trimmed(line).len() > 0,
        cut(trimmed(line), '=') == Some((k, v)),
        setting_name(k) == k,
{
    let l = k + seq!['='] + v;
    reveal_strlit("#");
    if has_prefix(l, "#"@) {
        assert(l.take(1)[0] == l[0]);
        assert("#"@[0] == '#');
    }
    assert forall|i: int| 0 <= i < k.len() implies l[i] != '=' by {
        assert(l[i] == k[i]);
        assert(k.contains(k[i]));
    }
    crate::text::lemma_cut_at(l, '=', k.len() as int);
    assert(l.take(k.len() as int) =~= k);
    assert(l.skip(k.len() as int + 1) =~= v);
}

/// A value between quotes is taken without them.
pub proof fn quoted_values_lose_their_quotes(line: Seq<char>, k: Seq<char>, v: Seq<char>, q: char)
    requires
        q == '"' || q == '\'',
        trimmed(line) == k + seq!['='] + (seq![q] + v + seq![q]),
        !k.contains('='),
        trimmed(k) == k,
        trimmed(seq![q] + v + seq![q]) == seq![q] + v + seq![q],
        k.len() > 0,
        k[0] != '#',
        !has_prefix(k, "export "@),
    ensures
        setting(line) == SettingV::Assign(k, v),
{
    let w = seq![q] + v + seq![q];
    lemma_setting(line, k, w);
    reveal_strlit("\"");
    reveal_strlit("'");
    assert("\""@ =~= seq!['"']);
    assert("'"@ =~= seq!['\'']);
    assert(w.take(1) =~= seq![q]);
    assert(w.skip(w.len() - 1) =~= seq![q]);
    assert(w.subrange(1, w.len() - 1) =~= v);
}

/// A blank line, a comment and a line without an equals sign set nothing.
pub proof fn other_lines_set_nothing(line: Seq<char>)
    requires
        trimmed(line).len() == 0 || trimmed(line)[0] == '#' || !trimmed(line).contains('='),
    ensures
        setting(line) == SettingV::Nothing,
{
    let l = trimmed(line);
    reveal_strlit("#");
    assert("#"@ =~= seq!['#']);
    if l.len() > 0 {
        assert(l.take(1) =~= seq![l[0]]);
    }
    crate::text::cuts_are_at_the_first(l, '=');
    if let Some((a, b)) = cut(l, '=') {
        assert(l[a.len() as int] == '=');
    }
}

/// A variable that is not set yet gets the value of the first line that sets it, and the
/// lines behind it go on from there.
pub proof fn settings_are_made_in_order(env: Vars, line: Seq<char>, rest: Seq<Seq<char>>, k: Seq<char>, v: Seq<char>)
    requires
        setting(line) == SettingV::Assign(k, v),
    ensures
        find(env, k) is None ==> (settings(put(env, k, v), rest) matches Some(p) ==> settings(
            env,
            seq![line] + rest,
        ) == Some(seq![(k, v)] + p)),
        find(env, k) is Some ==> settings(env, seq![line] + rest) == settings(env, rest),
{
    let all = seq![line] + rest;
    assert(all[0] == line);
    assert(all.drop_first() =~= rest);
}

/// Lines that set nothing are passed over.
pub proof fn empty_lines_are_passed_over(env: Vars, line: Seq<char>, rest: Seq<Seq<char>>)
    requires
        setting(line) == SettingV::Nothing,
    ensures
        settings(env, seq![line] + rest) == settings(env, rest),
{
    let all = seq![line] + rest;
    assert(all[0] == line);
    assert(all.drop_first() =~= rest);
}

/// The transports by their names.
pub proof fn transports_go_by_their_names()
    ensures
        transport_named("stdio"@) == Some(Transport::Stdio),
        transport_named("http"@) == Some(Transport::Http),
        transport_named("streamable-http"@) == Some(Transport::Http),
        transport_named("sse"@) == Some(Transport::Http),
        transport_named("ws"@) == Some(Transport::Ws),
        transport_named("websocket"@) == Some(Transport::Ws),
{
    lemma_transport_names();
}

proof fn lemma_transport_names()
    ensures
        "stdio"@ != "http"@,
        "stdio"@ != "streamable-http"@,
        "stdio"@ != "sse"@,
        "stdio"@ != "ws"@,
        "stdio"@ != "websocket"@,
        "http"@ != "streamable-http"@,
        "http"@ != "sse"@,
        "http"@ != "ws"@,
        "http"@ != "websocket"@,
        "streamable-http"@ != "sse"@,
        "streamable-http"@ != "ws"@,
        "streamable-http"@ != "websocket"@,
        "sse"@ != "ws"@,
        "sse"@ != "websocket"@,
        "ws"@ != "websocket"@,
{
    reveal_strlit("stdio");
    reveal_strlit("http");
    reveal_strlit("streamable-http");
    reveal_strlit("sse");
    reveal_strlit("ws");
    reveal_strlit("websocket");
    assert("stdio"@.len() == 5);
    assert("http"@.len() == 4);
    assert("streamable-http"@.len() == 15);
    assert("sse"@.len() == 3);
    assert("ws"@.len() == 2);
    assert("websocket"@.len() == 9);
}

/// Any other name is none.
pub proof fn other_names_are_no_transport(name: Seq<char>)
    requires
        name != "stdio"@,
        name != "http"@,
        name != "streamable-http"@,
        name != "sse"@,
        name != "ws"@,
        name != "websocket"@,
    ensures
        transport_named(name) is None,
{
}

/// A line may put `export` before the name.
pub proof fn exported_lines_set_their_variable(line: Seq<char>, k: Seq<char>, v: Seq<char>)
    requires
        trimmed(line) == "export "@ + k + seq!['='] + v,
        !k.contains('='),
        trimmed("export "@ + k) == "export "@ + k,
        trimmed(k) == k,
        trimmed(v) == v,
        !in_quotes(v),
    ensures
        setting(line) == SettingV::Assign(k, v),
{
    let e = "export "@ + k;
    let l = trimmed(line);
    reveal_strlit("export ");
    reveal_strlit("#");
    assert("export "@.len() == 7);
    assert(l[0] == 'e');
    assert("#"@[0] == '#');
    if has_prefix(l, "#"@) {
        assert(l.take(1)[0] == l[0]);
    }
    assert forall|i: int| 0 <= i < e.len() implies l[i] != '=' by {
        assert(l[i] == e[i]);
        if i >= 7 {
            assert(e[i] == k[i - 7]);
            assert(k.contains(k[i - 7]));
        }
    }
    crate::text::lemma_cut_at(l, '=', e.len() as int);
    assert(l.take(e.len() as int) =~= e);
    assert(l.skip(e.len() as int + 1) =~= v);
    assert(e.take(7) =~= "export "@);
    assert(e.skip(7) =~= k);
}

/// What is set reaches the environment, a later setting over an earlier one, and nothing else
/// changes.
pub proof fn settings_reach_the_environment(env: Vars, p: Pairs, k: Seq<char>, v: Seq<char>, other: Seq<char>)
    requires
        other != k,
    ensures
        with_settings(env, Seq::empty()) == env,
        find(with_settings(env, p.push((k, v))), k) == Some(v),
        find(with_settings(env, p.push((k, v))), other) == find(with_settings(env, p), other),
{
    broadcast use crate::strmap::put_is_found;

    assert(p.push((k, v)).drop_last() =~= p);
}

/// Truth values are reported in words.
pub proof fn truth_is_reported_in_words(b: bool)
    ensures
        truth_word(true) == "true"@,
        truth_word(false) == "false"@,
{
}

} // verus!
