//! Text primitives over the characters of a string.

use vstd::prelude::*;
use vstd::string::*;
use vstd::utf8::*;
use vstd::std_specs::iter::IteratorSpec;

verus! {

/// `String::push` appends one character.
pub assume_specification[ std::string::String::push ](s: &mut std::string::String, c: char)
    ensures
        final(s)@ == old(s)@.push(c),
;

/// Lexicographic order by character code.
pub open spec fn lex_lt(a: Seq<char>, b: Seq<char>) -> bool
    decreases a.len(),
{
    if b.len() == 0 {
        false
    } else if a.len() == 0 {
        true
    } else if a[0] != b[0] {
        (a[0] as u32) < (b[0] as u32)
    } else {
        lex_lt(a.drop_first(), b.drop_first())
    }
}

/// The characters of a string, in order.
pub fn chars_of(s: &str) -> (r: Vec<char>)
    ensures
        r@ == s@,
{
    let mut v: Vec<char> = Vec::new();
    for c in it: s.chars()
        invariant
            it.seq() == s@,
            v@ == s@.take(it.index() as int),
    {
        assert(s@.take(it.index() + 1) == s@.take(it.index() as int).push(s@[it.index() as int]));
        v.push(c);
    }
    assert(s@.take(s@.len() as int) == s@);
    v
}

/// The string made of the characters `from..to` of `v`.
pub fn text_of(v: &Vec<char>, from: usize, to: usize) -> (r: String)
    requires
        from <= to <= v@.len(),
    ensures
        r@ == v@.subrange(from as int, to as int),
{
    let mut s = String::new();
    let mut i: usize = from;
    while i < to
        invariant
            from <= i <= to <= v@.len(),
            s@ == v@.subrange(from as int, i as int),
        decreases to - i,
    {
        s.push(v[i]);
        i = i + 1;
        assert(v@.subrange(from as int, i as int) == v@.subrange(from as int, i - 1).push(v@[i - 1]));
    }
    s
}

/// Whether two strings hold the same characters.
pub fn same(a: &str, b: &str) -> (r: bool)
    ensures
        r == (a@ == b@),
{
    let mut x = a.chars();
    let mut y = b.chars();
    let ghost mut k: int = 0;
    assert(a@.skip(0) == a@);
    assert(b@.skip(0) == b@);
    loop
        invariant
            0 <= k <= a@.len(),
            k <= b@.len(),
            x.remaining() == a@.skip(k),
            y.remaining() == b@.skip(k),
            a@.take(k) == b@.take(k),
            x.obeys_prophetic_iter_laws(),
            y.obeys_prophetic_iter_laws(),
        decreases a@.len() - k,
    {
        match (x.next(), y.next()) {
            (None, None) => {
                assert(a@.take(k) == a@ && b@.take(k) == b@);
                return true;
            },
            (Some(c), Some(d)) => {
                assert(a@[k] == c && b@[k] == d);
                if c != d {
                    return false;
                }
                proof {
                    assert(a@.skip(k).drop_first() == a@.skip(k + 1));
                    assert(b@.skip(k).drop_first() == b@.skip(k + 1));
                    assert(a@.take(k + 1) == a@.take(k).push(c));
                    assert(b@.take(k + 1) == b@.take(k).push(d));
                    k = k + 1;
                }
            },
            _ => {
                return false;
            },
        }
    }
}

/// The views of a list of strings.
pub open spec fn texts(v: Seq<String>) -> Seq<Seq<char>> {
    Seq::new(v.len(), |i: int| v[i]@)
}

/// Whether `a` comes before `b` in lexicographic order.
pub fn before(a: &str, b: &str) -> (r: bool)
    ensures
        r == lex_lt(a@, b@),
{
    let mut x = a.chars();
    let mut y = b.chars();
    let ghost mut k: int = 0;
    assert(a@.skip(0) == a@);
    assert(b@.skip(0) == b@);
    loop
        invariant
            0 <= k <= a@.len(),
            k <= b@.len(),
            x.remaining() == a@.skip(k),
            y.remaining() == b@.skip(k),
            lex_lt(a@, b@) == lex_lt(a@.skip(k), b@.skip(k)),
            x.obeys_prophetic_iter_laws(),
            y.obeys_prophetic_iter_laws(),
        decreases a@.len() - k,
    {
        match (x.next(), y.next()) {
            (_, None) => {
                return false;
            },
            (None, Some(_)) => {
                return true;
            },
            (Some(c), Some(d)) => {
                assert(a@.skip(k)[0] == c && b@.skip(k)[0] == d);
                if c != d {
                    return (c as u32) < (d as u32);
                }
                proof {
                    assert(a@.skip(k).drop_first() == a@.skip(k + 1));
                    assert(b@.skip(k).drop_first() == b@.skip(k + 1));
                    k = k + 1;
                }
            },
        }
    }
}

/// The order is irreflexive.
pub proof fn lemma_lex_irreflexive(a: Seq<char>)
    ensures
        !lex_lt(a, a),
    decreases a.len(),
{
    if a.len() > 0 {
        lemma_lex_irreflexive(a.drop_first());
    }
}

/// The order is transitive.
pub proof fn lemma_lex_transitive(a: Seq<char>, b: Seq<char>, c: Seq<char>)
    requires
        lex_lt(a, b),
        lex_lt(b, c),
    ensures
        lex_lt(a, c),
    decreases a.len(),
{
    if a.len() > 0 && a[0] == b[0] && b[0] == c[0] {
        lemma_lex_transitive(a.drop_first(), b.drop_first(), c.drop_first());
    }
}

/// Of two different texts one comes first.
pub proof fn lemma_lex_total(a: Seq<char>, b: Seq<char>)
    ensures
        a == b || lex_lt(a, b) || lex_lt(b, a),
    decreases a.len(),
{
    if a.len() == 0 {
        if b.len() == 0 {
            assert(a =~= b);
        }
    } else if b.len() > 0 && a[0] == b[0] {
        lemma_lex_total(a.drop_first(), b.drop_first());
        if a.drop_first() == b.drop_first() {
            assert(a =~= seq![a[0]] + a.drop_first());
            assert(b =~= seq![b[0]] + b.drop_first());
            assert(a == b);
        }
    } else if b.len() > 0 {
        char_u32_cast(a[0], a[0] as u32);
        char_u32_cast(b[0], b[0] as u32);
    }
}

/// Whether a character is white space, as the Unicode property `White_Space` lists it: the
/// controls from tab to carriage return, the space, the next line, and the spaces and
/// separators beyond ASCII.
pub open spec fn white(c: char) -> bool {
    ||| '\t' <= c <= '\r'
    ||| c == ' '
    ||| c == '\u{85}'
    ||| c == '\u{a0}'
    ||| c == '\u{1680}'
    ||| '\u{2000}' <= c <= '\u{200a}'
    ||| c == '\u{2028}'
    ||| c == '\u{2029}'
    ||| c == '\u{202f}'
    ||| c == '\u{205f}'
    ||| c == '\u{3000}'
}

/// `char::is_whitespace`: whether a character has the Unicode property `White_Space`.
#[verifier::external_body]
pub(crate) fn is_white(c: char) -> (r: bool)
    ensures
        r == white(c),
{
    c.is_whitespace()
}

/// Whether a character beyond ASCII is a letter or a numeral, as Unicode has it.
pub uninterp spec fn wide_alnum(c: char) -> bool;

/// Whether a character is a letter or a numeral: in ASCII the letters and the
/// digits, beyond it what Unicode says.
pub open spec fn alnum(c: char) -> bool {
    if c <= '\u{7f}' {
        ('a' <= c && c <= 'z') || ('A' <= c && c <= 'Z') || ('0' <= c && c <= '9')
    } else {
        wide_alnum(c)
    }
}

/// `char::is_alphanumeric`: the Unicode properties `Alphabetic` and `Numeric`.
/// Of the ASCII characters, exactly the letters and digits have one.
#[verifier::external_body]
pub(crate) fn is_alnum(c: char) -> (r: bool)
    ensures
        c > '\u{7f}' ==> r == wide_alnum(c),
        r == alnum(c),
{
    c.is_alphanumeric()
}

/// The lower-case form of a text that is not all ASCII, as Unicode has it.
pub uninterp spec fn wide_lowercase(s: Seq<char>) -> Seq<char>;

/// The lower-case form of an ASCII character.
pub open spec fn ascii_lower(c: char) -> char {
    if 'A' <= c && c <= 'Z' {
        (c as u32 + 32) as char
    } else {
        c
    }
}

/// The lower-case form of a text.
pub open spec fn lowercase(s: Seq<char>) -> Seq<char> {
    if is_ascii_chars(s) {
        s.map_values(|c: char| ascii_lower(c))
    } else {
        wide_lowercase(s)
    }
}

/// `str::to_lowercase`: the lower-case form by the Unicode tables, which take
/// the ASCII capitals to the small letters and leave the rest of ASCII.
#[verifier::external_body]
pub(crate) fn lower(s: &str) -> (r: String)
    ensures
        !is_ascii_chars(s@) ==> r@ == wide_lowercase(s@),
        r@ == lowercase(s@),
{
    s.to_lowercase()
}

/// A text without the white space at its start.
pub open spec fn trim_start(s: Seq<char>) -> Seq<char>
    decreases s.len(),
{
    if s.len() > 0 && white(s[0]) {
        trim_start(s.drop_first())
    } else {
        s
    }
}

/// A text without the white space at its end.
pub open spec fn trim_end(s: Seq<char>) -> Seq<char>
    decreases s.len(),
{
    if s.len() > 0 && white(s.last()) {
        trim_end(s.drop_last())
    } else {
        s
    }
}

/// A text without the white space around it.
pub open spec fn trimmed(s: Seq<char>) -> Seq<char> {
    trim_end(trim_start(s))
}

/// A text without the occurrences of `c` at its end.
pub open spec fn trim_end_of(s: Seq<char>, c: char) -> Seq<char>
    decreases s.len(),
{
    if s.len() > 0 && s.last() == c {
        trim_end_of(s.drop_last(), c)
    } else {
        s
    }
}

/// A text without the occurrences of `c` at its start.
pub open spec fn trim_start_of(s: Seq<char>, c: char) -> Seq<char>
    decreases s.len(),
{
    if s.len() > 0 && s[0] == c {
        trim_start_of(s.drop_first(), c)
    } else {
        s
    }
}

/// Strips the white space around a text.
pub fn trim(s: &str) -> (r: String)
    ensures
        r@ == trimmed(s@),
{
    let v = chars_of(s);
    let mut i: usize = 0;
    assert(v@.skip(0) == s@);
    while i < v.len() && is_white(v[i])
        invariant
            i <= v@.len(),
            v@ == s@,
            trim_start(s@) == trim_start(v@.skip(i as int)),
        decreases v@.len() - i,
    {
        assert(v@.skip(i as int).drop_first() == v@.skip(i + 1));
        i = i + 1;
    }
    let mut j: usize = v.len();
    assert(v@.skip(i as int) == v@.subrange(i as int, j as int));
    while j > i && is_white(v[j - 1])
        invariant
            i <= j <= v@.len(),
            v@ == s@,
            trimmed(s@) == trim_end(v@.subrange(i as int, j as int)),
        decreases j,
    {
        assert(v@.subrange(i as int, j as int).drop_last() == v@.subrange(i as int, j - 1));
        j = j - 1;
    }
    text_of(&v, i, j)
}

/// Strips the occurrences of `c` at the end of a text.
pub fn trim_end_char(s: &str, c: char) -> (r: String)
    ensures
        r@ == trim_end_of(s@, c),
{
    let v = chars_of(s);
    let mut j: usize = v.len();
    assert(v@.take(j as int) == s@);
    while j > 0 && v[j - 1] == c
        invariant
            j <= v@.len(),
            trim_end_of(s@, c) == trim_end_of(v@.take(j as int), c),
        decreases j,
    {
        assert(v@.take(j as int).drop_last() == v@.take(j - 1));
        j = j - 1;
    }
    assert(v@.take(j as int) == v@.subrange(0, j as int));
    text_of(&v, 0, j)
}

/// Strips the occurrences of `c` at the start of a text.
pub fn trim_start_char(s: &str, c: char) -> (r: String)
    ensures
        r@ == trim_start_of(s@, c),
{
    let v = chars_of(s);
    let mut i: usize = 0;
    assert(v@.skip(0) == s@);
    while i < v.len() && v[i] == c
        invariant
            i <= v@.len(),
            trim_start_of(s@, c) == trim_start_of(v@.skip(i as int), c),
        decreases v@.len() - i,
    {
        assert(v@.skip(i as int).drop_first() == v@.skip(i + 1));
        i = i + 1;
    }
    assert(v@.skip(i as int) == v@.subrange(i as int, v@.len() as int));
    text_of(&v, i, v.len())
}

/// Whether `p` is the beginning of `s`.
pub open spec fn has_prefix(s: Seq<char>, p: Seq<char>) -> bool {
    p.len() <= s.len() && s.take(p.len() as int) == p
}

/// Whether `p` is the end of `s`.
pub open spec fn has_suffix(s: Seq<char>, p: Seq<char>) -> bool {
    p.len() <= s.len() && s.skip(s.len() - p.len()) == p
}

/// Whether `p` occurs in `s` at position `i`.
pub open spec fn occurs_at(s: Seq<char>, p: Seq<char>, i: int) -> bool {
    0 <= i && i + p.len() <= s.len() && s.subrange(i, i + p.len()) == p
}

/// Whether `p` occurs somewhere in `s`.
pub open spec fn has_part(s: Seq<char>, p: Seq<char>) -> bool {
    exists|i: int| occurs_at(s, p, i)
}

/// Whether the characters `p` stand in `v` from position `i` on.
fn stands_at(v: &Vec<char>, p: &Vec<char>, i: usize) -> (r: bool)
    requires
        i <= v@.len(),
    ensures
        r == occurs_at(v@, p@, i as int),
{
    let n: usize = v.len();
    if n - i < p.len() {
        return false;
    }
    let mut k: usize = 0;
    while k < p.len()
        invariant
            k <= p@.len(),
            i + p@.len() <= v@.len(),
            n == v@.len(),
            forall|m: int| 0 <= m < k ==> v@[i + m] == p@[m],
        decreases p@.len() - k,
    {
        if v[i + k] != p[k] {
            assert(v@.subrange(i as int, i + p@.len())[k as int] != p@[k as int]);
            return false;
        }
        k = k + 1;
    }
    assert(v@.subrange(i as int, i + p@.len()) =~= p@);
    true
}

/// Whether a text starts with another.
pub fn starts_with(s: &str, p: &str) -> (r: bool)
    ensures
        r == has_prefix(s@, p@),
{
    let v = chars_of(s);
    let w = chars_of(p);
    assert(w@.len() <= v@.len() ==> v@.subrange(0, w@.len() as int) == v@.take(w@.len() as int));
    stands_at(&v, &w, 0)
}

/// Whether a text ends with another.
pub fn ends_with(s: &str, p: &str) -> (r: bool)
    ensures
        r == has_suffix(s@, p@),
{
    let v = chars_of(s);
    let w = chars_of(p);
    if v.len() < w.len() {
        return false;
    }
    assert(v@.subrange(v@.len() - w@.len(), v@.len() as int) == v@.skip(v@.len() - w@.len()));
    stands_at(&v, &w, v.len() - w.len())
}

/// Whether a text occurs in another.
pub fn contains_text(s: &str, p: &str) -> (r: bool)
    ensures
        r == has_part(s@, p@),
{
    let v = chars_of(s);
    let w = chars_of(p);
    let mut i: usize = 0;
    while i <= v.len()
        invariant
            i <= v@.len() + 1,
            v@ == s@,
            w@ == p@,
            forall|m: int| 0 <= m < i ==> !occurs_at(s@, p@, m),
        decreases v@.len() + 1 - i,
    {
        if stands_at(&v, &w, i) {
            return true;
        }
        if i == v.len() {
            return false;
        }
        i = i + 1;
    }
    false
}

/// Whether a text holds a character.
pub fn contains_char(s: &str, c: char) -> (r: bool)
    ensures
        r == s@.contains(c),
{
    let v = chars_of(s);
    let mut i: usize = 0;
    while i < v.len()
        invariant
            i <= v@.len(),
            v@ == s@,
            forall|m: int| 0 <= m < i ==> v@[m] != c,
        decreases v@.len() - i,
    {
        if v[i] == c {
            assert(s@[i as int] == c);
            return true;
        }
        i = i + 1;
    }
    false
}

/// The pieces of a text between the occurrences of `c`.
pub open spec fn split(s: Seq<char>, c: char) -> Seq<Seq<char>>
    decreases s.len(),
{
    if s.len() == 0 {
        seq![s]
    } else {
        let head = split(s.drop_last(), c);
        if s.last() == c {
            head.push(Seq::empty())
        } else {
            head.drop_last().push(head.last().push(s.last()))
        }
    }
}

/// There is always at least one piece.
pub proof fn lemma_split_nonempty(s: Seq<char>, c: char)
    ensures
        split(s, c).len() > 0,
    decreases s.len(),
{
    if s.len() > 0 {
        lemma_split_nonempty(s.drop_last(), c);
    }
}

/// Splits a text at every occurrence of `c`.
pub fn split_at_char(s: &str, c: char) -> (r: Vec<String>)
    ensures
        texts(r@) == split(s@, c),
        r@.len() > 0,
{
    let v = chars_of(s);
    let mut out: Vec<String> = Vec::new();
    let mut start: usize = 0;
    let mut i: usize = 0;
    assert(v@.take(0) == Seq::<char>::empty());
    assert(split(v@.take(0), c) == seq![Seq::<char>::empty()]);
    while i < v.len()
        invariant
            start <= i <= v@.len(),
            texts(out@).push(v@.subrange(start as int, i as int)) == split(v@.take(i as int), c),
        decreases v@.len() - i,
    {
        proof {
            assert(v@.take(i + 1).drop_last() == v@.take(i as int));
            assert(v@.take(i + 1).last() == v@[i as int]);
        }
        let ghost prev = texts(out@).push(v@.subrange(start as int, i as int));
        if v[i] == c {
            out.push(text_of(&v, start, i));
            start = i + 1;
            assert(texts(out@) =~= prev);
            assert(v@.subrange(start as int, i + 1) =~= Seq::<char>::empty());
        } else {
            assert(prev.drop_last() =~= texts(out@));
            assert(prev.last() =~= v@.subrange(start as int, i as int));
            assert(v@.subrange(start as int, i + 1) =~= v@.subrange(start as int, i as int).push(
                v@[i as int],
            ));
        }
        i = i + 1;
    }
    let ghost prev = texts(out@);
    out.push(text_of(&v, start, i));
    assert(texts(out@) =~= prev.push(v@.subrange(start as int, i as int)));
    assert(v@.take(i as int) == s@);
    out
}

/// The pieces of a comma-separated list: trimmed, without the empty ones.
pub open spec fn kept_items(pieces: Seq<Seq<char>>) -> Seq<Seq<char>>
    decreases pieces.len(),
{
    if pieces.len() == 0 {
        Seq::empty()
    } else {
        let head = kept_items(pieces.drop_last());
        let last = trimmed(pieces.last());
        if last.len() == 0 {
            head
        } else {
            head.push(last)
        }
    }
}

/// The items of a comma-separated list.
pub open spec fn list_items(s: Seq<char>) -> Seq<Seq<char>> {
    kept_items(split(s, ','))
}

/// Reads a comma-separated list.
pub fn items_of(s: &str) -> (r: Vec<String>)
    ensures
        texts(r@) == list_items(s@),
{
    let pieces = split_at_char(s, ',');
    let mut out: Vec<String> = Vec::new();
    let mut i: usize = 0;
    while i < pieces.len()
        invariant
            i <= pieces@.len(),
            texts(out@) == kept_items(texts(pieces@).take(i as int)),
        decreases pieces@.len() - i,
    {
        proof {
            assert(texts(pieces@).take(i + 1).drop_last() == texts(pieces@).take(i as int));
        }
        let t = trim(pieces[i].as_str());
        let ghost prev = texts(out@);
        if !t.as_str().is_empty() {
            out.push(t);
            assert(texts(out@) =~= prev.push(t@));
        }
        i = i + 1;
    }
    assert(texts(pieces@).take(i as int) == texts(pieces@));
    out
}

/// What stands before the first occurrence of `c`, or the whole text.
pub open spec fn first_piece(s: Seq<char>, c: char) -> Seq<char> {
    split(s, c).first()
}

/// What stands after the last occurrence of `c`, or the whole text.
pub open spec fn last_piece(s: Seq<char>, c: char) -> Seq<char> {
    split(s, c).last()
}

/// The part of a text before the first `c`.
pub fn before_char(s: &str, c: char) -> (r: String)
    ensures
        r@ == first_piece(s@, c),
{
    let pieces = split_at_char(s, c);
    assert(texts(pieces@)[0] == pieces@[0]@);
    pieces[0].clone()
}

/// The part of a text after the last `c`.
pub fn after_char(s: &str, c: char) -> (r: String)
    ensures
        r@ == last_piece(s@, c),
{
    let pieces = split_at_char(s, c);
    assert(texts(pieces@).last() == pieces@.last()@);
    pieces[pieces.len() - 1].clone()
}

/// Joins texts with a separator.
pub open spec fn joined(parts: Seq<Seq<char>>, sep: Seq<char>) -> Seq<char>
    decreases parts.len(),
{
    if parts.len() == 0 {
        Seq::empty()
    } else if parts.len() == 1 {
        parts[0]
    } else {
        joined(parts.drop_last(), sep) + sep + parts.last()
    }
}

/// Joins strings with a separator.
pub fn join(parts: &Vec<String>, sep: &str) -> (r: String)
    ensures
        r@ == joined(texts(parts@), sep@),
{
    let mut out = String::new();
    let mut i: usize = 0;
    let ghost all = texts(parts@);
    while i < parts.len()
        invariant
            i <= parts@.len(),
            all == texts(parts@),
            out@ == joined(all.take(i as int), sep@),
        decreases parts@.len() - i,
    {
        proof {
            assert(all.take(i + 1).drop_last() == all.take(i as int));
        }
        if i > 0 {
            out.append(sep);
        }
        out.append(parts[i].as_str());
        i = i + 1;
        assert(out@ =~= joined(all.take(i as int), sep@));
    }
    assert(all.take(i as int) == all);
    out
}

/// Whether a list of strings holds a text.
pub fn list_has(v: &Vec<String>, s: &str) -> (r: bool)
    ensures
        r == texts(v@).contains(s@),
{
    let mut i: usize = 0;
    while i < v.len()
        invariant
            i <= v@.len(),
            forall|m: int| 0 <= m < i ==> v@[m]@ != s@,
        decreases v@.len() - i,
    {
        if same(v[i].as_str(), s) {
            assert(texts(v@)[i as int] == s@);
            return true;
        }
        i = i + 1;
    }
    assert(!texts(v@).contains(s@));
    false
}

/// A copy of a list of strings.
pub fn copy_list(v: &Vec<String>) -> (r: Vec<String>)
    ensures
        texts(r@) == texts(v@),
{
    let mut out: Vec<String> = Vec::new();
    let mut i: usize = 0;
    while i < v.len()
        invariant
            i <= v@.len(),
            out@.len() == i,
            forall|m: int| 0 <= m < i ==> (#[trigger] out@[m])@ == v@[m]@,
        decreases v@.len() - i,
    {
        out.push(v[i].clone());
        i = i + 1;
    }
    assert(texts(out@) =~= texts(v@));
    out
}

/// The text of an optional string.
pub open spec fn opt_text(o: Option<String>) -> Option<Seq<char>> {
    match o {
        Some(s) => Some(s@),
        None => None,
    }
}

/// A copy of an optional string.
pub fn copy_opt(o: &Option<String>) -> (r: Option<String>)
    ensures
        opt_text(r) == opt_text(*o),
{
    match o {
        Some(s) => Some(s.clone()),
        None => None,
    }
}

/// Puts `a` and `b` together.
pub fn cat2(a: &str, b: &str) -> (r: String)
    ensures
        r@ == a@ + b@,
{
    let mut s = String::new();
    s.append(a);
    s.append(b);
    s
}

/// Puts three texts together.
pub fn cat3(a: &str, b: &str, c: &str) -> (r: String)
    ensures
        r@ == a@ + b@ + c@,
{
    let mut s = cat2(a, b);
    s.append(c);
    s
}

/// Four texts, one after the other.
pub fn cat4(a: &str, b: &str, c: &str, d: &str) -> (r: String)
    ensures
        r@ == a@ + b@ + c@ + d@,
{
    let mut s = cat3(a, b, c);
    s.append(d);
    s
}

/// Puts five texts together.
pub fn cat5(a: &str, b: &str, c: &str, d: &str, e: &str) -> (r: String)
    ensures
        r@ == a@ + b@ + c@ + d@ + e@,
{
    let mut s = cat3(a, b, c);
    s.append(d);
    s.append(e);
    s
}

/// What stands before and behind the first `c`, if there is one.
pub open spec fn cut(s: Seq<char>, c: char) -> Option<(Seq<char>, Seq<char>)>
    decreases s.len(),
{
    if s.len() == 0 {
        None
    } else if s[0] == c {
        Some((Seq::empty(), s.drop_first()))
    } else {
        match cut(s.drop_first(), c) {
            Some((a, b)) => Some((seq![s[0]] + a, b)),
            None => None,
        }
    }
}

/// The first `c` is where the text is cut.
pub proof fn lemma_cut_at(s: Seq<char>, c: char, i: int)
    requires
        0 <= i <= s.len(),
        forall|k: int| 0 <= k < i ==> s[k] != c,
        i < s.len() ==> s[i] == c,
    ensures
        cut(s, c) == (if i < s.len() {
            Some((s.take(i), s.skip(i + 1)))
        } else {
            None
        }),
    decreases s.len(),
{
    if s.len() > 0 {
        let t = s.drop_first();
        if i == 0 {
            assert(s.take(0) =~= Seq::<char>::empty());
            assert(s.skip(1) =~= t);
        } else {
            assert forall|k: int| 0 <= k < i - 1 implies t[k] != c by {
                assert(t[k] == s[k + 1]);
            }
            lemma_cut_at(t, c, i - 1);
            if i < s.len() {
                assert(seq![s[0]] + t.take(i - 1) =~= s.take(i));
                assert(t.skip(i) =~= s.skip(i + 1));
            }
        }
    }
}

/// What stands before and behind the first `c`, if there is one.
pub fn cut_at_char(s: &str, c: char) -> (r: Option<(String, String)>)
    ensures
        (match r {
            Some(p) => cut(s@, c) == Some((p.0@, p.1@)),
            None => cut(s@, c) is None,
        }),
{
    let v = chars_of(s);
    let n: usize = v.len();
    let mut i: usize = 0;
    while i < n && v[i] != c
        invariant
            i <= n,
            n == v@.len(),
            v@ == s@,
            forall|k: int| 0 <= k < i ==> s@[k] != c,
        decreases n - i,
    {
        i = i + 1;
    }
    proof {
        lemma_cut_at(s@, c, i as int);
    }
    if i < n {
        let a = text_of(&v, 0, i);
        let b = text_of(&v, i + 1, n);
        assert(a@ =~= s@.take(i as int));
        assert(b@ =~= s@.skip(i + 1));
        Some((a, b))
    } else {
        None
    }
}

/// What follows a prefix, where the text has it.
pub open spec fn after_prefix(s: Seq<char>, p: Seq<char>) -> Option<Seq<char>> {
    if has_prefix(s, p) {
        Some(s.skip(p.len() as int))
    } else {
        None
    }
}

/// What follows a prefix, where the text has it.
pub fn strip_prefix(s: &str, p: &str) -> (r: Option<String>)
    ensures
        opt_text(r) == after_prefix(s@, p@),
{
    if starts_with(s, p) {
        let v = chars_of(s);
        let from: usize = chars_of(p).len();
        let r = text_of(&v, from, v.len());
        assert(r@ =~= s@.skip(p@.len() as int));
        Some(r)
    } else {
        None
    }
}

/// A text without `c` is its only piece.
pub proof fn lemma_split_none(s: Seq<char>, c: char)
    requires
        forall|i: int| 0 <= i < s.len() ==> s[i] != c,
    ensures
        split(s, c) == seq![s],
    decreases s.len(),
{
    if s.len() > 0 {
        lemma_split_none(s.drop_last(), c);
        let head = seq![s.drop_last()];
        assert(head.drop_last() =~= Seq::<Seq<char>>::empty());
        assert(s.drop_last().push(s.last()) =~= s);
        assert(split(s, c) =~= seq![s]);
    }
}

/// A text that neither starts nor ends with white space is its trimmed form.
pub proof fn lemma_trimmed_same(s: Seq<char>)
    requires
        s.len() > 0 ==> !white(s[0]) && !white(s.last()),
    ensures
        trimmed(s) == s,
{
}

/// A text of ASCII characters without capitals is its lower-case form.
pub proof fn lemma_lowercase_same(s: Seq<char>)
    requires
        forall|i: int| 0 <= i < s.len() ==> #[trigger] s[i] <= '\u{7f}' && !('A' <= s[i] <= 'Z'),
    ensures
        lowercase(s) == s,
{
    assert(is_ascii_chars(s)) by {
        assert forall|i: int| 0 <= i < s.len() implies '\0' <= #[trigger] s[i] <= '\u{7f}' by {
            char_u32_cast(s[i], s[i] as u32);
        }
    }
    assert(s.map_values(|c: char| ascii_lower(c)) =~= s);
}

proof fn lemma_joined_push(parts: Seq<Seq<char>>, sep: Seq<char>, x: Seq<char>)
    ensures
        joined(parts.push(x), sep) == (if parts.len() == 0 {
            x
        } else {
            joined(parts, sep) + sep + x
        }),
{
    assert(parts.push(x).drop_last() =~= parts);
}

/// The pieces of a text, joined by what they were cut at, are the text; and it stands in none
/// of them.
pub proof fn pieces_join_back(s: Seq<char>, c: char)
    ensures
        joined(split(s, c), seq![c]) == s,
        forall|i: int| 0 <= i < split(s, c).len() ==> !(#[trigger] split(s, c)[i]).contains(c),
        split(s, c).len() > 0,
    decreases s.len(),
{
    lemma_split_nonempty(s, c);
    if s.len() > 0 {
        let b = s.drop_last();
        let x = s.last();
        pieces_join_back(b, c);
        let head = split(b, c);
        let p = split(s, c);
        assert(s =~= b.push(x));
        if x == c {
            lemma_joined_push(head, seq![c], Seq::empty());
            assert(joined(p, seq![c]) =~= s);
        } else {
            let init = head.drop_last();
            assert(head =~= init.push(head.last()));
            lemma_joined_push(init, seq![c], head.last());
            lemma_joined_push(init, seq![c], head.last().push(x));
            assert(joined(p, seq![c]) =~= s);
        }
        assert forall|i: int| 0 <= i < p.len() implies !(#[trigger] p[i]).contains(c) by {
            if i < head.len() - 1 || x == c {
                if i < head.len() {
                    assert(p[i] == head[i]);
                }
            } else {
                let h = head.last();
                assert(p[i] == h.push(x));
                assert(!h.contains(c));
                assert forall|k: int| 0 <= k < h.push(x).len() implies h.push(x)[k] != c by {
                    if k < h.len() {
                        assert(h[k] == h.push(x)[k]);
                        assert(h.contains(h[k]));
                    }
                }
            }
        }
    }
}

/// Texts that do not hold what they are joined by come back when the whole is cut there.
pub proof fn joined_pieces_come_back(parts: Seq<Seq<char>>, c: char)
    requires
        parts.len() > 0,
        forall|i: int| 0 <= i < parts.len() ==> !(#[trigger] parts[i]).contains(c),
    ensures
        split(joined(parts, seq![c]), c) == parts,
    decreases parts.len(),
{
    let b = parts.drop_last();
    let x = parts.last();
    if parts.len() == 1 {
        lemma_split_none(x, c);
        assert(parts =~= seq![x]);
    } else {
        assert forall|i: int| 0 <= i < b.len() implies !(#[trigger] b[i]).contains(c) by {
            assert(b[i] == parts[i]);
        }
        joined_pieces_come_back(b, c);
        lemma_split_more(joined(b, seq![c]), c, x);
        assert(joined(parts, seq![c]) == joined(b, seq![c]) + seq![c] + x);
        assert(b.push(x) =~= parts);
    }
}

proof fn lemma_split_more(s: Seq<char>, c: char, x: Seq<char>)
    requires
        !x.contains(c),
    ensures
        split(s + seq![c] + x, c) == split(s, c).push(x),
    decreases x.len(),
{
    let t = s + seq![c] + x;
    lemma_split_nonempty(s, c);
    if x.len() == 0 {
        assert(t.drop_last() =~= s);
        assert(x =~= Seq::empty());
    } else {
        let y = x.drop_last();
        assert(x.contains(x.last()));
        assert forall|k: int| 0 <= k < y.len() implies y[k] != c by {
            assert(x[k] == y[k]);
            assert(x.contains(x[k]));
        }
        lemma_split_more(s, c, y);
        assert(t.drop_last() =~= s + seq![c] + y);
        let head = split(s, c).push(y);
        assert(head.drop_last() =~= split(s, c));
        assert(head.last().push(x.last()) =~= x);
    }
}

/// What stands behind the last occurrence is the last piece; without one it is the text.
pub proof fn last_pieces_stand_last(s: Seq<char>, c: char, x: Seq<char>)
    requires
        !x.contains(c),
    ensures
        last_piece(s + seq![c] + x, c) == x,
        last_piece(x, c) == x,
{
    lemma_split_more(s, c, x);
    lemma_split_none(x, c);
}

/// A text is cut at the first occurrence, and nowhere where there is none.
pub proof fn cuts_are_at_the_first(s: Seq<char>, c: char)
    ensures
        (match cut(s, c) {
            Some((a, b)) => s == a + seq![c] + b && !a.contains(c),
            None => !s.contains(c),
        }),
    decreases s.len(),
{
    if s.len() > 0 {
        let t = s.drop_first();
        cuts_are_at_the_first(t, c);
        if s[0] == c {
            assert(s =~= Seq::<char>::empty() + seq![c] + t);
        } else {
            match cut(t, c) {
                Some((a, b)) => {
                    let p = seq![s[0]] + a;
                    assert(s =~= seq![s[0]] + t);
                    assert(t == a + seq![c] + b);
                    assert(seq![s[0]] + (a + seq![c] + b) =~= p + seq![c] + b);
                    assert forall|k: int| 0 <= k < p.len() implies p[k] != c by {
                        if k > 0 {
                            assert(p[k] == a[k - 1]);
                            assert(a.contains(a[k - 1]));
                        }
                    }
                },
                None => {
                    assert forall|k: int| 0 <= k < s.len() implies s[k] != c by {
                        if k > 0 {
                            assert(s[k] == t[k - 1]);
                            assert(t.contains(t[k - 1]));
                        }
                    }
                },
            }
        }
    }
}

proof fn lemma_trim_start(s: Seq<char>) -> (i: int)
    ensures
        0 <= i <= s.len(),
        trim_start(s) == s.skip(i),
        forall|k: int| 0 <= k < i ==> white(#[trigger] s[k]),
        i < s.len() ==> !white(s[i]),
    decreases s.len(),
{
    if s.len() > 0 && white(s[0]) {
        let t = s.drop_first();
        let j = lemma_trim_start(t);
        assert(t.skip(j) =~= s.skip(j + 1));
        assert forall|k: int| 0 <= k < j + 1 implies white(#[trigger] s[k]) by {
            if k > 0 {
                assert(t[k - 1] == s[k]);
            }
        }
        if j + 1 < s.len() {
            assert(t[j] == s[j + 1]);
        }
        j + 1
    } else {
        assert(s.skip(0) =~= s);
        0
    }
}

proof fn lemma_trim_end(s: Seq<char>) -> (j: int)
    ensures
        0 <= j <= s.len(),
        trim_end(s) == s.take(j),
        forall|k: int| j <= k < s.len() ==> white(#[trigger] s[k]),
        j > 0 ==> !white(s[j - 1]),
    decreases s.len(),
{
    if s.len() > 0 && white(s.last()) {
        let t = s.drop_last();
        let j = lemma_trim_end(t);
        assert(t.take(j) =~= s.take(j));
        assert forall|k: int| j <= k < s.len() implies white(#[trigger] s[k]) by {
            if k < t.len() {
                assert(t[k] == s[k]);
            }
        }
        if j > 0 {
            assert(t[j - 1] == s[j - 1]);
        }
        j
    } else {
        assert(s.take(s.len() as int) =~= s);
        s.len() as int
    }
}

/// A trimmed text is what stands in the text between its white space: nothing but white space
/// is taken away, and none is left at either end.
pub proof fn trimming_takes_the_white_ends(s: Seq<char>) -> (r: (int, int))
    ensures
        0 <= r.0 <= r.1 <= s.len(),
        trimmed(s) == s.subrange(r.0, r.1),
        forall|k: int| (0 <= k < r.0 || r.1 <= k < s.len()) ==> white(#[trigger] s[k]),
        r.0 < r.1 ==> !white(s[r.0]) && !white(s[r.1 - 1]),
{
    let i = lemma_trim_start(s);
    let t = s.skip(i);
    let j = lemma_trim_end(t);
    assert(t.take(j) =~= s.subrange(i, i + j));
    assert forall|k: int| (0 <= k < i || i + j <= k < s.len()) implies white(#[trigger] s[k]) by {
        if k >= i {
            assert(t[k - i] == s[k]);
        }
    }
    if j > 0 {
        assert(t[j - 1] == s[i + j - 1]);
        if i < s.len() {
            assert(t[0] == s[i]);
        }
    }
    (i, i + j)
}

/// The lower-case form of a text of ASCII has a small letter for every capital, and every
/// other character as it is.
pub proof fn small_letters_stand_for_capitals(s: Seq<char>, i: int)
    requires
        is_ascii_chars(s),
        0 <= i < s.len(),
    ensures
        lowercase(s).len() == s.len(),
        'A' <= s[i] <= 'Z' ==> lowercase(s)[i] as u32 == s[i] as u32 + 32,
        !('A' <= s[i] <= 'Z') ==> lowercase(s)[i] == s[i],
{
}

/// The items of a list are its pieces, trimmed, in their order; blank ones are left out.
pub proof fn items_are_the_trimmed_pieces(a: Seq<Seq<char>>, b: Seq<Seq<char>>, x: Seq<char>)
    ensures
        kept_items(a + b) == kept_items(a) + kept_items(b),
        trimmed(x).len() > 0 ==> kept_items(seq![x]) == seq![trimmed(x)],
        trimmed(x).len() == 0 ==> kept_items(seq![x]) == Seq::<Seq<char>>::empty(),
    decreases b.len(),
{
    assert(seq![x].drop_last() =~= Seq::<Seq<char>>::empty());
    assert(kept_items(Seq::<Seq<char>>::empty()) == Seq::<Seq<char>>::empty());
    if trimmed(x).len() > 0 {
        assert(kept_items(seq![x]) =~= seq![trimmed(x)]);
    }
    if b.len() == 0 {
        assert(a + b =~= a);
        assert(kept_items(a) + kept_items(b) =~= kept_items(a));
    } else {
        items_are_the_trimmed_pieces(a, b.drop_last(), x);
        assert((a + b).drop_last() =~= a + b.drop_last());
        assert(kept_items(a + b) =~= kept_items(a) + kept_items(b));
    }
}

/// Taking a character from the end of a text takes nothing else, and leaves none there.
pub proof fn ends_are_taken_whole(s: Seq<char>, c: char)
    ensures
        has_prefix(s, trim_end_of(s, c)),
        trim_end_of(s, c).len() > 0 ==> trim_end_of(s, c).last() != c,
        forall|k: int| trim_end_of(s, c).len() <= k < s.len() ==> #[trigger] s[k] == c,
    decreases s.len(),
{
    if s.len() > 0 && s.last() == c {
        let t = s.drop_last();
        ends_are_taken_whole(t, c);
        let e = trim_end_of(s, c);
        assert(s.take(e.len() as int) =~= t.take(e.len() as int));
        assert forall|k: int| e.len() <= k < s.len() implies #[trigger] s[k] == c by {
            if k < t.len() {
                assert(t[k] == s[k]);
            }
        }
    } else {
        assert(s.take(s.len() as int) =~= s);
    }
}

/// Taking a character from the start of a text takes nothing else, and leaves none there.
pub proof fn starts_are_taken_whole(s: Seq<char>, c: char)
    ensures
        has_suffix(s, trim_start_of(s, c)),
        trim_start_of(s, c).len() > 0 ==> trim_start_of(s, c)[0] != c,
        forall|k: int| 0 <= k < s.len() - trim_start_of(s, c).len() ==> #[trigger] s[k] == c,
    decreases s.len(),
{
    if s.len() > 0 && s[0] == c {
        let t = s.drop_first();
        starts_are_taken_whole(t, c);
        let e = trim_start_of(s, c);
        assert(s.skip(s.len() - e.len()) =~= t.skip(t.len() - e.len()));
        assert forall|k: int| 0 <= k < s.len() - e.len() implies #[trigger] s[k] == c by {
            if k > 0 {
                assert(t[k - 1] == s[k]);
            }
        }
    } else {
        assert(s.skip(0) =~= s);
    }
}

/// What stands before the first occurrence is the first piece; without one it is the text.
pub proof fn first_pieces_stand_first(a: Seq<char>, c: char, b: Seq<char>)
    requires
        !a.contains(c),
    ensures
        first_piece(a + seq![c] + b, c) == a,
        first_piece(a, c) == a,
{
    assert forall|i: int| 0 <= i < a.len() implies a[i] != c by {
        assert(a.contains(a[i]));
    }
    lemma_split_none(a, c);
    lemma_first(a, c, b);
}

proof fn lemma_first(a: Seq<char>, c: char, b: Seq<char>)
    requires
        split(a, c) == seq![a],
    ensures
        split(a + seq![c] + b, c).len() >= 2,
        split(a + seq![c] + b, c)[0] == a,
    decreases b.len(),
{
    let s = a + seq![c] + b;
    if b.len() == 0 {
        assert(s.drop_last() =~= a);
    } else {
        lemma_first(a, c, b.drop_last());
        assert(s.drop_last() =~= a + seq![c] + b.drop_last());
    }
}

/// A part of a text stands between a beginning and an end.
pub proof fn parts_stand_in_the_text(s: Seq<char>, a: Seq<char>, p: Seq<char>, b: Seq<char>)
    ensures
        has_part(a + p + b, p),
        has_part(s, p) ==> exists|x: Seq<char>, y: Seq<char>| s == #[trigger] (x + p + y),
{
    let t = a + p + b;
    assert(t.subrange(a.len() as int, (a.len() + p.len()) as int) =~= p);
    assert(occurs_at(t, p, a.len() as int));
    if has_part(s, p) {
        let i = choose|i: int| occurs_at(s, p, i);
        let x = s.take(i);
        let y = s.skip(i + p.len());
        assert(s =~= x + p + y);
    }
}

/// The letters and the digits of ASCII are word characters, and no other character of it is.
pub proof fn letters_and_digits_make_words(c: char)
    ensures
        'a' <= c <= 'z' || 'A' <= c <= 'Z' || '0' <= c <= '9' ==> alnum(c),
        c <= '\u{7f}' && !('a' <= c <= 'z') && !('A' <= c <= 'Z') && !('0' <= c <= '9') ==> !alnum(
            c,
        ),
{
}

/// An optional text is there if and only if the string is, and is what the string holds.
pub proof fn optional_texts_are_kept(s: String)
    ensures
        opt_text(Some(s)) == Some(s@),
        opt_text(None) is None,
{
}

} // verus!
