//! Tables whose keys are lists of texts.

use vstd::prelude::*;
use vstd::string::*;
use crate::text::{same, texts};

verus! {

/// What a table holds.
pub type Rows<V> = Seq<(Seq<Seq<char>>, V)>;

/// The value that a table has for a key.
pub open spec fn lookup<V>(s: Rows<V>, k: Seq<Seq<char>>) -> Option<V>
    decreases s.len(),
{
    if s.len() == 0 {
        None
    } else if s[0].0 == k {
        Some(s[0].1)
    } else {
        lookup(s.drop_first(), k)
    }
}

/// A table with a key set to a value: in the key's place, or at the end.
pub open spec fn store<V>(s: Rows<V>, k: Seq<Seq<char>>, v: V) -> Rows<V>
    decreases s.len(),
{
    if s.len() == 0 {
        seq![(k, v)]
    } else if s[0].0 == k {
        seq![(k, v)] + s.drop_first()
    } else {
        seq![s[0]] + store(s.drop_first(), k, v)
    }
}

/// Setting a key changes what the table has for that key, and for no other.
pub proof fn lemma_store_lookup<V>(s: Rows<V>, k: Seq<Seq<char>>, v: V, k2: Seq<Seq<char>>)
    ensures
        lookup(store(s, k, v), k2) == (if k2 == k {
            Some(v)
        } else {
            lookup(s, k2)
        }),
    decreases s.len(),
{
    let p = store(s, k, v);
    if s.len() == 0 {
        assert(p.drop_first() =~= s);
    } else if s[0].0 == k {
        assert(p.drop_first() =~= s.drop_first());
    } else {
        assert(p.drop_first() =~= store(s.drop_first(), k, v));
        lemma_store_lookup(s.drop_first(), k, v, k2);
    }
}

/// Where a key stands, it is found and set.
proof fn lemma_at<V>(s: Rows<V>, k: Seq<Seq<char>>, i: int)
    requires
        0 <= i <= s.len(),
        forall|j: int| 0 <= j < i ==> (#[trigger] s[j]).0 != k,
        i < s.len() ==> s[i].0 == k,
    ensures
        lookup(s, k) == (if i < s.len() {
            Some(s[i].1)
        } else {
            None
        }),
        forall|v: V|
            #[trigger] store(s, k, v) == (if i < s.len() {
                s.update(i, (k, v))
            } else {
                s.push((k, v))
            }),
    decreases s.len(),
{
    if s.len() == 0 {
        assert forall|v: V| #[trigger] store(s, k, v) == s.push((k, v)) by {
            assert(s.push((k, v)) =~= seq![(k, v)]);
        }
    } else {
        let t = s.drop_first();
        if i > 0 {
            assert(s[0].0 != k);
            assert forall|j: int| 0 <= j < i - 1 implies (#[trigger] t[j]).0 != k by {
                assert(t[j] == s[j + 1]);
            }
            lemma_at(t, k, i - 1);
        }
        assert forall|v: V|
            #[trigger] store(s, k, v) == (if i < s.len() {
                s.update(i, (k, v))
            } else {
                s.push((k, v))
            }) by {
            if i == 0 {
                assert(seq![(k, v)] + t =~= s.update(0, (k, v)));
            } else {
                let _ = store(t, k, v);
                if i < s.len() {
                    assert(seq![s[0]] + t.update(i - 1, (k, v)) =~= s.update(i, (k, v)));
                } else {
                    assert(seq![s[0]] + t.push((k, v)) =~= s.push((k, v)));
                }
            }
        }
    }
}

/// Whether two lists hold the same texts.
pub fn same_list(a: &Vec<String>, b: &Vec<String>) -> (r: bool)
    ensures
        r == (texts(a@) == texts(b@)),
{
    if a.len() != b.len() {
        assert(texts(a@).len() != texts(b@).len());
        return false;
    }
    let mut i: usize = 0;
    while i < a.len()
        invariant
            i <= a@.len(),
            a@.len() == b@.len(),
            forall|k: int| 0 <= k < i ==> a@[k]@ == b@[k]@,
        decreases a@.len() - i,
    {
        if !same(a[i].as_str(), b[i].as_str()) {
            assert(texts(a@)[i as int] != texts(b@)[i as int]);
            return false;
        }
        i = i + 1;
    }
    assert(texts(a@) =~= texts(b@));
    true
}

/// A table from lists of texts to values of type `V`.
pub struct Table<V> {
    rows: Vec<(Vec<String>, V)>,
}

impl<V> Table<V> {
    /// The rows.
    pub closed spec fn view(&self) -> Rows<V> {
        Seq::new(self.rows@.len(), |i: int| (texts(self.rows@[i].0@), self.rows@[i].1))
    }

    /// The empty table.
    pub fn new() -> (r: Self)
        ensures
            r@ == Seq::<(Seq<Seq<char>>, V)>::empty(),
    {
        let r = Table { rows: Vec::new() };
        assert(r@ =~= Seq::<(Seq<Seq<char>>, V)>::empty());
        r
    }

    /// The number of rows.
    pub fn len(&self) -> (r: usize)
        ensures
            r == self@.len(),
    {
        self.rows.len()
    }

    fn place(&self, key: &Vec<String>) -> (i: usize)
        ensures
            i <= self@.len(),
            forall|j: int| 0 <= j < i ==> (#[trigger] self@[j]).0 != texts(key@),
            i < self@.len() ==> self@[i as int].0 == texts(key@),
    {
        let mut i: usize = 0;
        while i < self.rows.len()
            invariant
                i <= self@.len(),
                self@.len() == self.rows@.len(),
                forall|j: int| 0 <= j < i ==> (#[trigger] self@[j]).0 != texts(key@),
            decreases self.rows@.len() - i,
        {
            if same_list(&self.rows[i].0, key) {
                return i;
            }
            i = i + 1;
        }
        i
    }

    /// The value of a key.
    pub fn get(&self, key: &Vec<String>) -> (r: Option<&V>)
        ensures
            (match r {
                Some(v) => lookup(self@, texts(key@)) == Some(*v),
                None => lookup(self@, texts(key@)) is None,
            }),
    {
        let i = self.place(key);
        proof {
            lemma_at(self@, texts(key@), i as int);
        }
        if i < self.rows.len() {
            Some(&self.rows[i].1)
        } else {
            None
        }
    }

    /// Sets a key to a value.
    pub fn set(&mut self, key: Vec<String>, value: V)
        ensures
            final(self)@ == store(old(self)@, texts(key@), value),
    {
        let i = self.place(&key);
        let ghost k = texts(key@);
        let ghost s = self@;
        proof {
            lemma_at(s, k, i as int);
            let _ = store(s, k, value);
        }
        if i < self.rows.len() {
            self.rows.set(i, (key, value));
            assert(self@ =~= s.update(i as int, (k, value)));
        } else {
            self.rows.push((key, value));
            assert(self@ =~= s.push((k, value)));
        }
    }

    /// The key at a position.
    pub fn key_at(&self, i: usize) -> (r: &Vec<String>)
        requires
            i < self@.len(),
        ensures
            texts(r@) == self@[i as int].0,
    {
        &self.rows[i].0
    }

    /// The value at a position.
    pub fn value_at(&self, i: usize) -> (r: &V)
        requires
            i < self@.len(),
        ensures
            *r == self@[i as int].1,
    {
        &self.rows[i].1
    }

    /// Removes every row.
    pub fn clear(&mut self)
        ensures
            final(self)@ == Seq::<(Seq<Seq<char>>, V)>::empty(),
    {
        self.rows = Vec::new();
        assert(self@ =~= Seq::<(Seq<Seq<char>>, V)>::empty());
    }
}

/// A key of two texts.
pub fn key2(a: &str, b: &str) -> (r: Vec<String>)
    ensures
        texts(r@) == seq![a@, b@],
{
    let mut r: Vec<String> = Vec::new();
    r.push(a.to_owned());
    r.push(b.to_owned());
    assert(texts(r@) =~= seq![a@, b@]);
    r
}

/// A key of three texts.
pub fn key3(a: &str, b: &str, c: &str) -> (r: Vec<String>)
    ensures
        texts(r@) == seq![a@, b@, c@],
{
    let mut r: Vec<String> = Vec::new();
    r.push(a.to_owned());
    r.push(b.to_owned());
    r.push(c.to_owned());
    assert(texts(r@) =~= seq![a@, b@, c@]);
    r
}

} // verus!
