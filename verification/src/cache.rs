//! The fetch cache: a bounded map from 64-bit URL keys to raw source bytes
//! with strict least-recently-used eviction. The key is a verified FNV-1a
//! hash of the URL; the bounded map itself is the `lru` crate's `LruCache`,
//! used through trusted wrappers whose contracts speak of the cache's
//! contents as a most-recently-used-first sequence of entries.
//!
//! The network itself is not here: a caller looks a URL up, fetches outside
//! on a miss, and stores what arrived, so the decision to fetch is exactly
//! `lookup` returning `None`.

use vstd::prelude::*;

verus! {

/// Why a fetch failed; produced by the caller that performs the network
/// access, guided by `status_class`.
#[derive(Clone, Copy, Debug, PartialEq, Eq, Structural)]
pub enum FetchError {
    NetworkFailure,
    NonSuccessStatus,
    Timeout,
}

pub const FNV_OFFSET: u64 = 0xcbf29ce484222325;

pub const FNV_PRIME: u64 = 0x100000001b3;

/// One FNV-1a round: fold a character's code point into the running hash.
pub open spec fn fnv_step(h: u64, c: char) -> u64 {
    vstd::wrapping::u64_specs::wrapping_mul(h ^ (c as u32) as u64, FNV_PRIME)
}

/// The stable 64-bit key of a URL: FNV-1a over its characters.
pub open spec fn url_key(s: Seq<char>) -> u64
    decreases s.len(),
{
    if s.len() == 0 {
        FNV_OFFSET
    } else {
        fnv_step(url_key(s.drop_last()), s.last())
    }
}

/// Compute the key of a URL.
pub fn url_key_exec(url: &str) -> (k: u64)
    ensures
        k == url_key(url@),
{
    let n = url.unicode_len();
    let mut h: u64 = FNV_OFFSET;
    let mut i: usize = 0;
    proof {
        assert(url@.take(0) =~= Seq::<char>::empty());
    }
    while i < n
        invariant
            i <= n,
            n == url@.len(),
            h == url_key(url@.take(i as int)),
        decreases n - i,
    {
        let c = url.get_char(i);
        h = (h ^ (c as u32) as u64).wrapping_mul(FNV_PRIME);
        proof {
            assert(url@.take(i as int + 1).drop_last() =~= url@.take(i as int));
            assert(url@.take(i as int + 1).last() == c);
        }
        i += 1;
    }
    assert(url@.take(n as int) =~= url@);
    h
}

/// The class of an HTTP status code: success is exactly 200 through 299, as
/// a fetched response must be before its body is cached.
pub fn status_class(code: u16) -> (r: Result<(), FetchError>)
    ensures
        r is Ok <==> 200 <= code <= 299,
        r is Err ==> r == Err::<(), FetchError>(FetchError::NonSuccessStatus),
{
    if 200 <= code && code <= 299 {
        Ok(())
    } else {
        Err(FetchError::NonSuccessStatus)
    }
}

#[verifier::external_type_specification]
#[verifier::external_body]
#[verifier::reject_recursive_types(K)]
#[verifier::reject_recursive_types(V)]
#[verifier::reject_recursive_types(S)]
pub struct ExLruCache<K, V, S>(lru::LruCache<K, V, S>);

/// What the `lru` cache holds: its entries as key-value pairs, most recently
/// used first, values as byte sequences.
pub uninterp spec fn lru_entries(
    c: lru::LruCache<u64, Vec<u8>, std::collections::hash_map::RandomState>,
) -> Seq<(u64, Seq<u8>)>;

/// The bound the `lru` cache was constructed with.
pub uninterp spec fn lru_cap(
    c: lru::LruCache<u64, Vec<u8>, std::collections::hash_map::RandomState>,
) -> nat;

/// Relies on lru::LruCache::with_hasher: a fresh cache is empty and holds at
/// most `cap` entries from then on.
#[verifier::external_body]
fn lru_new(cap: usize) -> (c: lru::LruCache<u64, Vec<u8>, std::collections::hash_map::RandomState>)
    requires
        cap >= 1,
    ensures
        lru_entries(c) == Seq::<(u64, Seq<u8>)>::empty(),
        lru_cap(c) == cap as nat,
{
    let nz = match std::num::NonZeroUsize::new(cap) {
        Some(nz) => nz,
        None => std::num::NonZeroUsize::MIN,
    };
    lru::LruCache::with_hasher(nz, std::collections::hash_map::RandomState::new())
}

/// Relies on lru::LruCache::get: on a hit it returns the stored value and
/// moves that entry to the most-recent position; a miss changes nothing.
#[verifier::external_body]
fn lru_get(c: &mut lru::LruCache<u64, Vec<u8>, std::collections::hash_map::RandomState>, k: u64) -> (r:
    Option<Vec<u8>>)
    ensures
        lru_cap(*final(c)) == lru_cap(*old(c)),
        match r {
            Some(v) => exists|i: int|
                0 <= i < lru_entries(*old(c)).len() && lru_entries(*old(c))[i] == (k, v@)
                    && lru_entries(*final(c)) == seq![(k, v@)] + lru_entries(*old(c)).remove(i),
            None => (forall|i: int|
                0 <= i < lru_entries(*old(c)).len() ==> lru_entries(*old(c))[i].0 != k)
                && lru_entries(*final(c)) == lru_entries(*old(c)),
        },
{
    c.get(&k).cloned()
}

/// Relies on lru::LruCache::put: a present key has its value replaced and
/// moves to the most-recent position; a new key is inserted there, evicting
/// the least recently used entry when the cache is full.
#[verifier::external_body]
fn lru_put(
    c: &mut lru::LruCache<u64, Vec<u8>, std::collections::hash_map::RandomState>,
    k: u64,
    v: Vec<u8>,
) -> (r: Option<Vec<u8>>)
    ensures
        lru_cap(*final(c)) == lru_cap(*old(c)),
        match r {
            Some(w) => exists|i: int|
                0 <= i < lru_entries(*old(c)).len() && lru_entries(*old(c))[i] == (k, w@)
                    && lru_entries(*final(c)) == seq![(k, v@)] + lru_entries(*old(c)).remove(i),
            None => (forall|i: int|
                0 <= i < lru_entries(*old(c)).len() ==> lru_entries(*old(c))[i].0 != k) && (
            if lru_entries(*old(c)).len() < lru_cap(*old(c)) {
                lru_entries(*final(c)) == seq![(k, v@)] + lru_entries(*old(c))
            } else {
                lru_entries(*final(c)) == seq![(k, v@)] + lru_entries(*old(c)).drop_last()
            }),
        },
{
    c.put(k, v)
}

/// No two entries share a key.
pub open spec fn distinct_keys(es: Seq<(u64, Seq<u8>)>) -> bool {
    forall|i: int, j: int| 0 <= i < j < es.len() ==> es[i].0 != es[j].0
}

pub open spec fn has_key(es: Seq<(u64, Seq<u8>)>, k: u64) -> bool {
    exists|i: int| 0 <= i < es.len() && es[i].0 == k
}

/// The index of the entry with the given key; meaningful under
/// `distinct_keys` and `has_key`.
pub open spec fn key_index(es: Seq<(u64, Seq<u8>)>, k: u64) -> int {
    choose|i: int| 0 <= i < es.len() && es[i].0 == k
}

/// What a hit does to the entries: the hit entry moves to the front.
pub open spec fn touch_model(es: Seq<(u64, Seq<u8>)>, k: u64) -> Seq<(u64, Seq<u8>)> {
    if has_key(es, k) {
        seq![es[key_index(es, k)]] + es.remove(key_index(es, k))
    } else {
        es
    }
}

/// What an insertion does to the entries: the new entry goes to the front; a
/// present key is replaced in place of its old entry, and a new key on a full
/// cache evicts the least recently used entry, the last one.
pub open spec fn put_model(es: Seq<(u64, Seq<u8>)>, cap: nat, k: u64, v: Seq<u8>) -> Seq<
    (u64, Seq<u8>),
> {
    if has_key(es, k) {
        seq![(k, v)] + es.remove(key_index(es, k))
    } else if es.len() < cap {
        seq![(k, v)] + es
    } else {
        seq![(k, v)] + es.drop_last()
    }
}

/// A bounded least-recently-used cache of fetched source bytes, keyed by the
/// FNV-1a hash of the source URL.
pub struct FetchCache {
    inner: lru::LruCache<u64, Vec<u8>, std::collections::hash_map::RandomState>,
}

impl FetchCache {
    /// The entries, most recently used first.
    pub closed spec fn entries(&self) -> Seq<(u64, Seq<u8>)> {
        lru_entries(self.inner)
    }

    /// The configured maximum entry count.
    pub closed spec fn capacity(&self) -> nat {
        lru_cap(self.inner)
    }

    /// Well-formed: one entry per key, never above capacity. Open, so a
    /// caller can hand its conjuncts to the public lemmas on the model.
    pub open spec fn wf(&self) -> bool {
        &&& distinct_keys(self.entries())
        &&& self.entries().len() <= self.capacity()
        &&& self.capacity() >= 1
    }

    pub fn new(cap: usize) -> (c: Self)
        requires
            cap >= 1,
        ensures
            c.wf(),
            c.entries() == Seq::<(u64, Seq<u8>)>::empty(),
            c.capacity() == cap as nat,
    {
        FetchCache { inner: lru_new(cap) }
    }

    /// Look a URL up. A hit returns the cached bytes and marks the entry most
    /// recently used; a miss returns `None` and changes nothing, and is
    /// exactly the case in which the caller must fetch.
    pub fn lookup(&mut self, url: &str) -> (r: Option<Vec<u8>>)
        requires
            old(self).wf(),
        ensures
            final(self).wf(),
            final(self).capacity() == old(self).capacity(),
            match r {
                Some(v) => has_key(old(self).entries(), url_key(url@))
                    && v@ == old(self).entries()[key_index(old(self).entries(), url_key(url@))].1
                    && final(self).entries() == touch_model(old(self).entries(), url_key(url@)),
                None => !has_key(old(self).entries(), url_key(url@)) && final(self).entries()
                    == old(self).entries(),
            },
    {
        let k = url_key_exec(url);
        let ghost es = lru_entries(self.inner);
        let r = lru_get(&mut self.inner, k);
        proof {
            if r is Some {
                let i = choose|i: int|
                    0 <= i < es.len() && es[i] == (k, r.unwrap()@) && lru_entries(self.inner)
                        == seq![(k, r.unwrap()@)] + es.remove(i);
                assert(es[i].0 == k);
                assert(has_key(es, k));
                let j = key_index(es, k);
                assert(0 <= j < es.len() && es[j].0 == k);
                assert(i == j);
                assert(lru_entries(self.inner) =~= touch_model(es, k));
                lemma_remove_distinct(es, i);
                assert(forall|m: int|
                    1 <= m < lru_entries(self.inner).len() ==> lru_entries(self.inner)[m].0 != k);
            }
        }
        r
    }

    /// Store fetched bytes under a URL. The entry becomes the most recent;
    /// when the key is new and the cache is full, the least recently used
    /// entry is evicted.
    pub fn store(&mut self, url: &str, data: Vec<u8>)
        requires
            old(self).wf(),
        ensures
            final(self).wf(),
            final(self).capacity() == old(self).capacity(),
            final(self).entries() == put_model(
                old(self).entries(),
                old(self).capacity(),
                url_key(url@),
                data@,
            ),
            has_key(final(self).entries(), url_key(url@)),
    {
        let k = url_key_exec(url);
        let ghost es = lru_entries(self.inner);
        let ghost cap = lru_cap(self.inner);
        let ghost d = data@;
        let r = lru_put(&mut self.inner, k, data);
        proof {
            if r is Some {
                let i = choose|i: int|
                    0 <= i < es.len() && es[i] == (k, r.unwrap()@) && lru_entries(self.inner)
                        == seq![(k, d)] + es.remove(i);
                assert(es[i].0 == k);
                assert(has_key(es, k));
                let j = key_index(es, k);
                assert(i == j);
                assert(lru_entries(self.inner) =~= put_model(es, cap, k, d));
                lemma_remove_distinct(es, i);
            } else {
                assert(!has_key(es, k));
                if es.len() >= cap {
                    assert(es.len() == cap);
                    assert(es.drop_last().len() == es.len() - 1);
                    assert(forall|i: int, j: int|
                        0 <= i < j < es.drop_last().len() ==> es.drop_last()[i].0
                            != es.drop_last()[j].0);
                }
                assert(lru_entries(self.inner) =~= put_model(es, cap, k, d));
            }
            assert(lru_entries(self.inner)[0] == (k, d));
        }
    }
}

/// Removing the sole entry with a key from a key-distinct sequence leaves a
/// key-distinct sequence without that key.
proof fn lemma_remove_distinct(es: Seq<(u64, Seq<u8>)>, i: int)
    requires
        distinct_keys(es),
        0 <= i < es.len(),
    ensures
        distinct_keys(es.remove(i)),
        forall|m: int| 0 <= m < es.remove(i).len() ==> es.remove(i)[m].0 != es[i].0,
{
    let r = es.remove(i);
    assert forall|m: int, n: int| 0 <= m < n < r.len() implies r[m].0 != r[n].0 by {
        assert(r[m] == (if m < i {
            es[m]
        } else {
            es[m + 1]
        }));
        assert(r[n] == (if n < i {
            es[n]
        } else {
            es[n + 1]
        }));
    }
    assert forall|m: int| 0 <= m < r.len() implies r[m].0 != es[i].0 by {
        assert(r[m] == (if m < i {
            es[m]
        } else {
            es[m + 1]
        }));
    }
}

/// A value just stored is found by a lookup of the same key: the entry stands
/// at the most-recent position of `put_model`, so `touch_model` hits it and
/// no second fetch is needed.
pub proof fn lemma_lookup_after_store(es: Seq<(u64, Seq<u8>)>, cap: nat, k: u64, v: Seq<u8>)
    requires
        distinct_keys(es),
        es.len() <= cap,
        cap >= 1,
    ensures
        has_key(put_model(es, cap, k, v), k),
        put_model(es, cap, k, v)[key_index(put_model(es, cap, k, v), k)].1 == v,
{
    let es2 = put_model(es, cap, k, v);
    assert(es2[0] == (k, v));
    assert(has_key(es2, k));
    let j = key_index(es2, k);
    assert(0 <= j < es2.len() && es2[j].0 == k);
    if has_key(es, k) {
        lemma_remove_distinct(es, key_index(es, k));
        assert(forall|m: int| 1 <= m < es2.len() ==> es2[m].0 != k);
    } else if es.len() < cap {
        assert(forall|m: int| 1 <= m < es2.len() ==> es2[m].0 != k);
    } else {
        assert forall|m: int| 0 <= m < es.drop_last().len() implies es.drop_last()[m].0 != k by {
            assert(es.drop_last()[m] == es[m]);
        }
        assert(forall|m: int| 1 <= m < es2.len() ==> es2[m].0 != k);
    }
    assert(j == 0);
}

/// Strict least-recently-used eviction: inserting a fresh key into a full
/// cache drops exactly the last entry, and every other entry survives.
pub proof fn lemma_eviction(es: Seq<(u64, Seq<u8>)>, cap: nat, k: u64, v: Seq<u8>)
    requires
        distinct_keys(es),
        !has_key(es, k),
        es.len() == cap,
        cap >= 1,
    ensures
        !has_key(put_model(es, cap, k, v), es.last().0),
        forall|i: int|
            0 <= i < es.len() - 1 ==> put_model(es, cap, k, v)[i + 1] == es[i],
{
    let es2 = put_model(es, cap, k, v);
    assert(es2 =~= seq![(k, v)] + es.drop_last());
    let lk = es.last().0;
    assert(lk != k);
    assert forall|m: int| 0 <= m < es2.len() implies es2[m].0 != lk by {
        if m >= 1 {
            assert(es2[m] == es[m - 1]);
            assert(es[m - 1].0 != es[es.len() - 1].0);
        }
    }
}

/// Touching an entry protects it from the next eviction: after a hit on `k1`,
/// inserting a fresh key into the full cache evicts some other entry, and
/// `k1` is still present.
pub proof fn lemma_touch_protects(es: Seq<(u64, Seq<u8>)>, cap: nat, k1: u64, k2: u64, v: Seq<u8>)
    requires
        distinct_keys(es),
        has_key(es, k1),
        k2 != k1,
        cap >= 2,
        es.len() <= cap,
    ensures
        has_key(put_model(touch_model(es, k1), cap, k2, v), k1),
{
    let i = key_index(es, k1);
    assert(0 <= i < es.len() && es[i].0 == k1);
    let t = touch_model(es, k1);
    assert(t[0] == es[i]);
    assert(t.len() == es.len());
    lemma_remove_distinct(es, i);
    assert(forall|m: int| 1 <= m < t.len() ==> t[m].0 != k1);
    assert(distinct_keys(t));
    let p = put_model(t, cap, k2, v);
    if has_key(t, k2) {
        let m = key_index(t, k2);
        assert(0 <= m < t.len() && t[m].0 == k2);
        assert(m != 0);
        assert(p == seq![(k2, v)] + t.remove(m));
        assert(t.remove(m)[0] == t[0]);
        assert(p[1] == t[0]);
        assert(has_key(p, k1));
    } else if t.len() < cap {
        assert(p == seq![(k2, v)] + t);
        assert(p[1] == t[0]);
        assert(has_key(p, k1));
    } else {
        assert(p == seq![(k2, v)] + t.drop_last());
        assert(t.len() >= 2);
        assert(p[1] == t.drop_last()[0]);
        assert(t.drop_last()[0] == t[0]);
        assert(has_key(p, k1));
    }
}

} // verus!
