//! The cache of metadata.

use vstd::prelude::*;
use vstd::string::*;
use crate::json::{Json, JsonV};
use crate::table::{key2, lemma_store_lookup, lookup, store, Rows, Table};
use crate::tenant::{is_older, older};
use crate::text::texts;

verus! {

/// What a cache holds: values, with the moments at which they were put there.
pub type Cached = Rows<(JsonV, u64)>;

/// The value that is still good at a moment.
pub open spec fn fresh(s: Cached, ttl_secs: nat, key: Seq<Seq<char>>, now: u64) -> Option<JsonV> {
    if ttl_secs == 0 {
        None
    } else {
        match lookup(s, key) {
            Some(e) => if older(e.1, now, ttl_secs) {
                None
            } else {
                Some(e.0)
            },
            None => None,
        }
    }
}

/// The cache with one more value. A cache whose values hold for no time stays empty.
pub open spec fn cached(s: Cached, ttl_secs: nat, key: Seq<Seq<char>>, v: JsonV, now: u64) -> Cached {
    if ttl_secs == 0 {
        s
    } else {
        store(s, key, (v, now))
    }
}

/// What rows are.
pub open spec fn cached_of(rows: Rows<(Json, u64)>) -> Cached {
    Seq::new(rows.len(), |i: int| (rows[i].0, (rows[i].1.0@, rows[i].1.1)))
}

proof fn lemma_cached_lookup(rows: Rows<(Json, u64)>, key: Seq<Seq<char>>)
    ensures
        lookup(cached_of(rows), key) == (match lookup(rows, key) {
            Some(e) => Some((e.0@, e.1)),
            None => None,
        }),
    decreases rows.len(),
{
    if rows.len() > 0 {
        assert(cached_of(rows).drop_first() =~= cached_of(rows.drop_first()));
        lemma_cached_lookup(rows.drop_first(), key);
    }
}

proof fn lemma_cached_store(rows: Rows<(Json, u64)>, key: Seq<Seq<char>>, e: (Json, u64))
    ensures
        cached_of(store(rows, key, e)) == store(cached_of(rows), key, (e.0@, e.1)),
    decreases rows.len(),
{
    let c = cached_of(rows);
    if rows.len() == 0 {
        assert(cached_of(store(rows, key, e)) =~= store(c, key, (e.0@, e.1)));
    } else {
        lemma_cached_store(rows.drop_first(), key, e);
        assert(c.drop_first() =~= cached_of(rows.drop_first()));
        assert(cached_of(store(rows, key, e)) =~= store(c, key, (e.0@, e.1)));
    }
}

/// Keeps metadata per system and service for a time.
pub struct MetadataCache {
    rows: Table<(Json, u64)>,
    ttl_secs: u64,
}

impl MetadataCache {
    /// What the cache holds.
    pub closed spec fn view(&self) -> Cached {
        cached_of(self.rows@)
    }

    /// For how many seconds a value holds.
    pub closed spec fn ttl(&self) -> nat {
        self.ttl_secs as nat
    }

    /// An empty cache.
    pub fn new(ttl_secs: u64) -> (r: MetadataCache)
        ensures
            r@ == Seq::<(Seq<Seq<char>>, (JsonV, u64))>::empty(),
            r.ttl() == ttl_secs,
    {
        let r = MetadataCache { rows: Table::new(), ttl_secs };
        assert(r@ =~= Seq::<(Seq<Seq<char>>, (JsonV, u64))>::empty());
        r
    }

    /// The value that is still good.
    pub fn get(&self, instance: &str, model: &str, now: u64) -> (r: Option<Json>)
        ensures
            (match r {
                Some(v) => fresh(self@, self.ttl(), seq![instance@, model@], now) == Some(v@),
                None => fresh(self@, self.ttl(), seq![instance@, model@], now) is None,
            }),
    {
        if self.ttl_secs == 0 {
            return None;
        }
        let key = key2(instance, model);
        proof {
            lemma_cached_lookup(self.rows@, texts(key@));
        }
        match self.rows.get(&key) {
            Some(e) => if is_older(e.1, now, self.ttl_secs) {
                None
            } else {
                Some(e.0.copy())
            },
            None => None,
        }
    }

    /// Puts a value into the cache.
    pub fn insert(&mut self, instance: &str, model: &str, v: Json, now: u64)
        ensures
            final(self)@ == cached(
                old(self)@,
                old(self).ttl(),
                seq![instance@, model@],
                v@,
                now,
            ),
            final(self).ttl() == old(self).ttl(),
    {
        if self.ttl_secs == 0 {
            return;
        }
        let key = key2(instance, model);
        proof {
            lemma_cached_store(self.rows@, texts(key@), (v, now));
        }
        self.rows.set(key, (v, now));
    }
}

/// What was put into the cache comes back while it is good, and not after that.
pub proof fn cached_value_comes_back(
    s: Cached,
    ttl_secs: nat,
    key: Seq<Seq<char>>,
    v: JsonV,
    at: u64,
    now: u64,
)
    ensures
        fresh(cached(s, ttl_secs, key, v, at), ttl_secs, key, now) == (if ttl_secs > 0 && !older(
            at,
            now,
            ttl_secs,
        ) {
            Some(v)
        } else {
            None
        }),
{
    lemma_store_lookup(s, key, (v, at), key);
}

/// Putting a value into the cache leaves every other as it is.
pub proof fn other_values_stay(
    s: Cached,
    ttl_secs: nat,
    key: Seq<Seq<char>>,
    v: JsonV,
    at: u64,
    other: Seq<Seq<char>>,
    now: u64,
)
    requires
        other != key,
    ensures
        fresh(cached(s, ttl_secs, key, v, at), ttl_secs, other, now) == fresh(
            s,
            ttl_secs,
            other,
            now,
        ),
{
    lemma_store_lookup(s, key, (v, at), other);
}

} // verus!
