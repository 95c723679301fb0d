//! A key-value cache with per-entry expiry, memoizing externally fetched
//! records under string keys. `set` stores a serialized value with a
//! time-to-live; `get` returns it until the expiry passes, and nothing
//! afterwards: expiry is reported as absence, never as an error. Time is an
//! explicit parameter, so every caller states which instant it asks about.

use vstd::prelude::*;
use crate::text::{chars_eq, str_to_chars};

verus! {

/// One stored record: a serialized value under a key, valid strictly
/// before `expires_at`.
pub struct CacheEntry {
    pub key: String,
    pub value: String,
    pub expires_at: u64,
}

/// The cache store. Later entries shadow earlier ones with the same key.
pub struct Cache {
    entries: Vec<CacheEntry>,
}

/// The newest record stored under `key`: its value and its expiry instant.
pub open spec fn lookup(es: Seq<CacheEntry>, key: Seq<char>) -> Option<(Seq<char>, int)>
    decreases es.len(),
{
    if es.len() == 0 {
        None
    } else if es.last().key@ == key {
        Some((es.last().value@, es.last().expires_at as int))
    } else {
        lookup(es.drop_last(), key)
    }
}

/// What `get` returns at instant `now`: the stored value while it is
/// unexpired, nothing when it is absent or expired.
pub open spec fn get_spec(es: Seq<CacheEntry>, key: Seq<char>, now: int) -> Option<Seq<char>> {
    match lookup(es, key) {
        Some((v, exp)) => if now < exp {
            Some(v)
        } else {
            None
        },
        None => None,
    }
}

impl Cache {
    /// The stored records, oldest first.
    pub closed spec fn view(&self) -> Seq<CacheEntry> {
        self.entries@
    }

    /// Creates an empty cache.
    pub fn new() -> (r: Cache)
        ensures
            r@.len() == 0,
    {
        Cache { entries: Vec::new() }
    }

    /// Stores `value` under `key` for `ttl` seconds from `now`. The new
    /// record shadows any earlier one under the same key; every other key
    /// is untouched.
    pub fn set(&mut self, key: String, value: String, ttl: u64, now: u64)
        requires
            now + ttl <= u64::MAX,
        ensures
            lookup(final(self)@, key@) == Some((value@, now + ttl as int)),
            forall|k: Seq<char>| k != key@ ==> lookup(final(self)@, k) == lookup(old(self)@, k),
    {
        let ghost before = self.entries@;
        let entry = CacheEntry { key, value, expires_at: now + ttl };
        self.entries.push(entry);
        proof {
            assert(self.entries@.last() == entry);
            assert(self.entries@.drop_last() =~= before);
        }
    }

    /// Returns the value stored under `key` when it is present and
    /// unexpired at instant `now`, and nothing otherwise.
    pub fn get(&self, key: &str, now: u64) -> (r: Option<String>)
        ensures
            match get_spec(self@, key@, now as int) {
                Some(v) => r is Some && r->0@ == v,
                None => r is None,
            },
    {
        let kchars = str_to_chars(key);
        let n = self.entries.len();
        let mut i: usize = n;
        proof {
            assert(self.entries@.subrange(0, n as int) =~= self.entries@);
        }
        while i > 0
            invariant
                kchars@ == key@,
                n == self.entries@.len(),
                i <= n,
                lookup(self.entries@, key@) == lookup(
                    self.entries@.subrange(0, i as int),
                    key@,
                ),
            decreases i,
        {
            let e = &self.entries[i - 1];
            let echars = str_to_chars(e.key.as_str());
            proof {
                assert(self.entries@.subrange(0, i as int).last() == self.entries@[i - 1]);
                assert(self.entries@.subrange(0, i as int).drop_last() =~= self.entries@.subrange(
                    0,
                    i - 1,
                ));
            }
            if chars_eq(&echars, &kchars) {
                if now < e.expires_at {
                    let mut out = String::new();
                    out.append(e.value.as_str());
                    return Some(out);
                }
                return None;
            }
            i -= 1;
        }
        proof {
            assert(self.entries@.subrange(0, 0) =~= Seq::<CacheEntry>::empty());
        }
        None
    }
}

/// Cache semantics: immediately after a store, and at any instant before
/// the time-to-live has elapsed, a read returns exactly the stored value;
/// from the expiry instant on it returns nothing rather than an error, and
/// no other key is affected by the store.
pub proof fn lemma_cache_semantics(
    before: Seq<CacheEntry>,
    after: Seq<CacheEntry>,
    key: Seq<char>,
    value: Seq<char>,
    ttl: int,
    now: int,
    later: int,
)
    requires
        lookup(after, key) == Some((value, now + ttl)),
        forall|k: Seq<char>| k != key ==> lookup(after, k) == lookup(before, k),
    ensures
        later < now + ttl ==> get_spec(after, key, later) == Some(value),
        later >= now + ttl ==> get_spec(after, key, later) is None,
        forall|k: Seq<char>, t: int| k != key ==> get_spec(after, k, t) == get_spec(before, k, t),
{
}

} // verus!
