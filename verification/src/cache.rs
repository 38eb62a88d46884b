//! Deduplicating bounded request caches.
//!
//! A `RequestCache` avoids redundant engine calls for identical requests. An
//! entry for a key is either *pending* (a computation for it is in flight) or
//! *resolved* (a successful value, shared by later callers); failed
//! computations leave nothing behind. Resolved entries are kept in
//! least-recently-used order and never exceed the configured capacity;
//! capacity zero disables storage entirely. The pending/complete operations
//! are the state transitions a concurrent driver serializes under its lock;
//! `get_or_compute` is the single-caller path built from the same state.

use vstd::prelude::*;

use crate::audio_query::{query_dup, query_eq, AudioQuery, AudioQueryModel};
use crate::error::AppError;
use crate::metas::StyleId;

verus! {

/// A value the cache can store: it can be duplicated without changing its
/// model, so a cached value can be handed out and kept at the same time.
pub trait CacheValue: View + Sized {
    fn dup(&self) -> (r: Self)
        ensures
            r@ == self@,
    ;
}

/// A key the cache can look up: value equality decidable against the model.
pub trait CacheKey: CacheValue {
    fn key_eq(&self, other: &Self) -> (r: bool)
        ensures
            r == (self@ == other@),
    ;
}

impl CacheValue for AudioQuery {
    fn dup(&self) -> (r: Self) {
        query_dup(self)
    }
}

impl CacheValue for Vec<u8> {
    fn dup(&self) -> (r: Self) {
        let mut out: Vec<u8> = Vec::new();
        let n = self.len();
        let mut i: usize = 0;
        while i < n
            invariant
                n == self.len(),
                0 <= i <= n,
                out@ == self@.take(i as int),
            decreases n - i,
        {
            out.push(self[i]);
            proof {
                assert(out@ =~= self@.take(i + 1));
            }
            i += 1;
        }
        assert(self@.take(n as int) =~= self@);
        out
    }
}

/// Key of the query cache: the literal request text and the style.
pub struct QueryKey {
    pub text: String,
    pub style: StyleId,
}

#[verifier::ext_equal]
pub struct QueryKeyModel {
    pub text: Seq<char>,
    pub style: StyleId,
}

impl View for QueryKey {
    type V = QueryKeyModel;

    open spec fn view(&self) -> QueryKeyModel {
        QueryKeyModel { text: self.text@, style: self.style }
    }
}

impl CacheValue for QueryKey {
    fn dup(&self) -> (r: Self) {
        let r = QueryKey { text: self.text.clone(), style: self.style };
        assert(r@ =~= self@);
        r
    }
}

impl CacheKey for QueryKey {
    fn key_eq(&self, other: &Self) -> (r: bool) {
        let e = self.text == other.text && self.style == other.style;
        if e {
            assert(self@ =~= other@);
        } else {
            assert(self@ != other@);
        }
        e
    }
}

/// Key of the waveform cache: the full audio query and the style.
pub struct WavKey {
    pub query: AudioQuery,
    pub style: StyleId,
}

#[verifier::ext_equal]
pub struct WavKeyModel {
    pub query: AudioQueryModel,
    pub style: StyleId,
}

impl View for WavKey {
    type V = WavKeyModel;

    open spec fn view(&self) -> WavKeyModel {
        WavKeyModel { query: self.query@, style: self.style }
    }
}

impl CacheValue for WavKey {
    fn dup(&self) -> (r: Self) {
        let r = WavKey { query: query_dup(&self.query), style: self.style };
        assert(r@ =~= self@);
        r
    }
}

impl CacheKey for WavKey {
    fn key_eq(&self, other: &Self) -> (r: bool) {
        let e = query_eq(&self.query, &other.query) && self.style == other.style;
        if e {
            assert(self@ =~= other@);
        } else {
            assert(self@ != other@);
        }
        e
    }
}

/// Model of a cache: resolved entries from least- to most-recently used,
/// the keys whose computation is in flight, and the capacity bound.
#[verifier::ext_equal]
pub struct CacheModel<KV, TV> {
    pub resolved: Seq<(KV, TV)>,
    pub pending: Seq<KV>,
    pub capacity: nat,
}

impl<KV, TV> CacheModel<KV, TV> {
    /// A key with a resolved entry.
    pub open spec fn has_resolved(self, k: KV) -> bool {
        exists|i: int| 0 <= i < self.resolved.len() && self.resolved[i].0 == k
    }

    /// Position of a key's resolved entry (unique under `wf`).
    pub open spec fn resolved_index(self, k: KV) -> int {
        choose|i: int| 0 <= i < self.resolved.len() && self.resolved[i].0 == k
    }

    /// The value resolved for a key.
    pub open spec fn value_of(self, k: KV) -> TV {
        self.resolved[self.resolved_index(k)].1
    }

    /// A key whose computation is in flight.
    pub open spec fn has_pending(self, k: KV) -> bool {
        self.pending.contains(k)
    }

    /// The entry count never exceeds the capacity, every key appears at most
    /// once, and no key is pending and resolved at the same time.
    pub open spec fn wf(self) -> bool {
        &&& self.resolved.len() <= self.capacity
        &&& forall|i: int, j: int|
            0 <= i < j < self.resolved.len() ==> self.resolved[i].0 != self.resolved[j].0
        &&& forall|i: int, j: int|
            0 <= i < j < self.pending.len() ==> self.pending[i] != self.pending[j]
        &&& forall|i: int, j: int|
            0 <= i < self.resolved.len() && 0 <= j < self.pending.len() ==> self.resolved[i].0
                != self.pending[j]
    }

    /// The cache after a hit on `k`: its entry moves to the most-recent end.
    pub open spec fn touch(self, k: KV) -> Self {
        let i = self.resolved_index(k);
        CacheModel { resolved: self.resolved.remove(i).push(self.resolved[i]), ..self }
    }

    /// The cache after marking `k` in flight.
    pub open spec fn push_pending(self, k: KV) -> Self {
        CacheModel { pending: self.pending.push(k), ..self }
    }

    /// The cache after `k`'s computation finished, whichever way.
    pub open spec fn remove_pending(self, k: KV) -> Self {
        CacheModel { pending: self.pending.remove(self.pending.index_of(k)), ..self }
    }

    /// The cache after resolving `k`: the least-recently-used entry makes
    /// room when the cache is full.
    pub open spec fn insert_resolved(self, k: KV, v: TV) -> Self {
        let base = if self.resolved.len() >= self.capacity {
            self.resolved.drop_first()
        } else {
            self.resolved
        };
        CacheModel { resolved: base.push((k, v)), ..self }
    }
}

/// Outcome of a cache lookup.
pub enum Lookup<T> {
    /// A resolved value (a copy of the cached one).
    Hit(T),
    /// Another caller's computation for the key is in flight.
    InFlight,
    /// Nothing cached for the key.
    Miss,
}

/// A bounded cache with at-most-one-concurrent-computation semantics per key.
pub struct RequestCache<K, T> {
    resolved: Vec<(K, T)>,
    pending: Vec<K>,
    capacity: usize,
}

impl<K: CacheKey, T: CacheValue> View for RequestCache<K, T> {
    type V = CacheModel<K::V, T::V>;

    closed spec fn view(&self) -> CacheModel<K::V, T::V> {
        CacheModel {
            resolved: self.resolved@.map_values(|p: (K, T)| (p.0@, p.1@)),
            pending: self.pending@.map_values(|k: K| k@),
            capacity: self.capacity as nat,
        }
    }
}

impl<K: CacheKey, T: CacheValue> RequestCache<K, T> {
    /// An empty cache. Capacity zero disables caching: every request
    /// recomputes and nothing is stored.
    pub fn new(capacity: usize) -> (r: Self)
        ensures
            r@.wf(),
            r@.capacity == capacity,
            r@.resolved == Seq::<(K::V, T::V)>::empty(),
            r@.pending == Seq::<K::V>::empty(),
    {
        let r = RequestCache { resolved: Vec::new(), pending: Vec::new(), capacity };
        proof {
            assert(r@.resolved =~= Seq::<(K::V, T::V)>::empty());
            assert(r@.pending =~= Seq::<K::V>::empty());
        }
        r
    }

    /// The configured capacity.
    pub fn capacity(&self) -> (r: usize)
        ensures
            r == self@.capacity,
    {
        self.capacity
    }

    /// Number of resolved entries.
    pub fn len(&self) -> (r: usize)
        ensures
            r == self@.resolved.len(),
    {
        self.resolved.len()
    }

    /// Drops every entry. Computations already in flight lose their
    /// placeholder: whatever they complete to later is discarded.
    pub fn clear(&mut self)
        ensures
            final(self)@.wf(),
            final(self)@.capacity == old(self)@.capacity,
            final(self)@.resolved == Seq::<(K::V, T::V)>::empty(),
            final(self)@.pending == Seq::<K::V>::empty(),
    {
        self.resolved.clear();
        self.pending.clear();
        proof {
            assert(self@.resolved =~= Seq::<(K::V, T::V)>::empty());
            assert(self@.pending =~= Seq::<K::V>::empty());
        }
    }

    fn find_resolved(&self, key: &K) -> (r: Option<usize>)
        ensures
            match r {
                Some(i) => i < self@.resolved.len() && self@.resolved[i as int].0 == key@,
                None => !self@.has_resolved(key@),
            },
    {
        let n = self.resolved.len();
        let mut i: usize = 0;
        while i < n
            invariant
                n == self.resolved.len(),
                self@.resolved.len() == n,
                0 <= i <= n,
                forall|k: int| 0 <= k < i ==> self@.resolved[k].0 != key@,
            decreases n - i,
        {
            assert(self@.resolved[i as int].0 == self.resolved@[i as int].0@);
            if self.resolved[i].0.key_eq(key) {
                return Some(i);
            }
            i += 1;
        }
        None
    }

    fn find_pending(&self, key: &K) -> (r: Option<usize>)
        ensures
            match r {
                Some(i) => i < self@.pending.len() && self@.pending[i as int] == key@,
                None => !self@.has_pending(key@),
            },
    {
        let n = self.pending.len();
        let mut i: usize = 0;
        while i < n
            invariant
                n == self.pending.len(),
                self@.pending.len() == n,
                0 <= i <= n,
                forall|k: int| 0 <= k < i ==> self@.pending[k] != key@,
            decreases n - i,
        {
            assert(self@.pending[i as int] == self.pending@[i as int]@);
            if self.pending[i].key_eq(key) {
                return Some(i);
            }
            i += 1;
        }
        assert(!self@.pending.contains(key@));
        None
    }

    /// Whether a computation for `key` is in flight.
    pub fn is_pending(&self, key: &K) -> (r: bool)
        ensures
            r == self@.has_pending(key@),
    {
        match self.find_pending(key) {
            Some(_) => true,
            None => false,
        }
    }

    /// Looks up `key`. A hit hands out a copy of the resolved value and
    /// makes the entry the most recently used; otherwise the cache is
    /// unchanged and the result says whether a computation is in flight.
    pub fn lookup(&mut self, key: &K) -> (r: Lookup<T>)
        requires
            old(self)@.wf(),
        ensures
            final(self)@.wf(),
            final(self)@.capacity == old(self)@.capacity,
            final(self)@.pending == old(self)@.pending,
            match r {
                Lookup::Hit(v) => {
                    &&& old(self)@.has_resolved(key@)
                    &&& v@ == old(self)@.value_of(key@)
                    &&& final(self)@ == old(self)@.touch(key@)
                },
                Lookup::InFlight => {
                    &&& !old(self)@.has_resolved(key@)
                    &&& old(self)@.has_pending(key@)
                    &&& final(self)@ == old(self)@
                },
                Lookup::Miss => {
                    &&& !old(self)@.has_resolved(key@)
                    &&& !old(self)@.has_pending(key@)
                    &&& final(self)@ == old(self)@
                },
            },
    {
        match self.find_resolved(key) {
            Some(i) => {
                let ghost pre = self@;
                proof {
                    assert(pre.has_resolved(key@));
                    let ci = pre.resolved_index(key@);
                    assert(0 <= ci < pre.resolved.len() && pre.resolved[ci].0 == key@);
                    assert(ci == i as int);
                }
                let entry = self.resolved.remove(i);
                let out = entry.1.dup();
                self.resolved.push(entry);
                proof {
                    assert(self@.resolved =~= pre.resolved.remove(i as int).push(
                        pre.resolved[i as int],
                    ));
                    assert(self@ =~= pre.touch(key@));
                    lemma_touch_wf(pre, key@);
                }
                Lookup::Hit(out)
            },
            None => {
                match self.find_pending(key) {
                    Some(_) => Lookup::InFlight,
                    None => Lookup::Miss,
                }
            },
        }
    }
}

impl<K: CacheKey, T: CacheValue> RequestCache<K, T> {
    fn insert_new(&mut self, key: K, value: T)
        requires
            old(self)@.wf(),
            !old(self)@.has_resolved(key@),
            !old(self)@.has_pending(key@),
            old(self)@.capacity > 0,
        ensures
            final(self)@ == old(self)@.insert_resolved(key@, value@),
            final(self)@.wf(),
    {
        let ghost pre = self@;
        if self.resolved.len() >= self.capacity {
            let _ = self.resolved.remove(0);
            proof {
                assert(self@.resolved =~= pre.resolved.drop_first());
            }
        }
        self.resolved.push((key, value));
        proof {
            if pre.resolved.len() >= pre.capacity {
                assert(self@.resolved =~= pre.resolved.drop_first().push((key@, value@)));
            } else {
                assert(self@.resolved =~= pre.resolved.push((key@, value@)));
            }
            assert(self@.pending =~= pre.pending);
            assert(self@ =~= pre.insert_resolved(key@, value@));
            lemma_insert_resolved_props(pre, key@, value@);
        }
    }

    /// Installs the pending placeholder for `key`: from now until the
    /// matching completion, concurrent lookups of `key` answer `InFlight`.
    pub fn begin(&mut self, key: K)
        requires
            old(self)@.wf(),
            !old(self)@.has_resolved(key@),
            !old(self)@.has_pending(key@),
            old(self)@.capacity > 0,
        ensures
            final(self)@ == old(self)@.push_pending(key@),
            final(self)@.wf(),
    {
        let ghost pre = self@;
        self.pending.push(key);
        proof {
            assert(self@.pending =~= pre.pending.push(key@));
            assert(self@.resolved =~= pre.resolved);
            assert(self@ =~= pre.push_pending(key@));
            lemma_push_pending_props(pre, key@);
        }
    }

    fn remove_pending_entry(&mut self, key: &K) -> (r: bool)
        requires
            old(self)@.wf(),
        ensures
            final(self)@.wf(),
            r == old(self)@.has_pending(key@),
            r ==> final(self)@ == old(self)@.remove_pending(key@),
            !r ==> final(self)@ == old(self)@,
            final(self)@.resolved == old(self)@.resolved,
            final(self)@.capacity == old(self)@.capacity,
            !final(self)@.has_pending(key@),
    {
        let ghost pre = self@;
        match self.find_pending(key) {
            Some(i) => {
                proof {
                    assert(pre.has_pending(key@));
                    lemma_remove_pending_props(pre, key@);
                    let ci = pre.pending.index_of(key@);
                    assert(0 <= ci < pre.pending.len() && pre.pending[ci] == key@);
                    assert(ci == i as int);
                }
                let _ = self.pending.remove(i);
                proof {
                    assert(self@.pending =~= pre.pending.remove(i as int));
                    assert(self@.resolved =~= pre.resolved);
                    assert(self@ =~= pre.remove_pending(key@));
                }
                true
            },
            None => false,
        }
    }

    /// Resolves the in-flight computation for `key` with its value. If the
    /// placeholder is still there, the value is cached (evicting the
    /// least-recently-used entry when full, and not at all with capacity
    /// zero); if the cache was cleared meanwhile, the value is discarded.
    pub fn complete_ok(&mut self, key: &K, value: T)
        requires
            old(self)@.wf(),
        ensures
            final(self)@.wf(),
            final(self)@.capacity == old(self)@.capacity,
            old(self)@.has_pending(key@) && old(self)@.capacity > 0 ==> final(self)@ == old(
                self,
            )@.remove_pending(key@).insert_resolved(key@, value@),
            old(self)@.has_pending(key@) && old(self)@.capacity == 0 ==> final(self)@ == old(
                self,
            )@.remove_pending(key@),
            !old(self)@.has_pending(key@) ==> final(self)@ == old(self)@,
    {
        let ghost pre = self@;
        let was_pending = self.remove_pending_entry(key);
        if was_pending {
            proof {
                lemma_remove_pending_props(pre, key@);
            }
            if self.capacity > 0 {
                let stored_key = key.dup();
                self.insert_new(stored_key, value);
            }
        }
    }

    /// Drops the in-flight placeholder for `key` after a failed computation:
    /// failures are never cached, so the next request for `key` recomputes.
    pub fn complete_err(&mut self, key: &K)
        requires
            old(self)@.wf(),
        ensures
            final(self)@.wf(),
            final(self)@.capacity == old(self)@.capacity,
            final(self)@.resolved == old(self)@.resolved,
            old(self)@.has_pending(key@) ==> final(self)@ == old(self)@.remove_pending(key@),
            !old(self)@.has_pending(key@) ==> final(self)@ == old(self)@,
            !final(self)@.has_pending(key@),
    {
        let _ = self.remove_pending_entry(key);
    }

    /// Returns the cached value for `key`, or computes it with `compute`.
    ///
    /// A resolved entry is returned as-is — `compute` plays no part — and
    /// only its recency changes. Otherwise `compute` runs exactly once: its
    /// success is cached (with LRU eviction when full, or not at all with
    /// capacity zero) and returned; its failure is returned and leaves the
    /// cache exactly as it was, so the next request for `key` recomputes.
    pub fn get_or_compute<F: FnOnce() -> Result<T, AppError>>(&mut self, key: K, compute: F) -> (r:
        Result<T, AppError>)
        requires
            old(self)@.wf(),
            !old(self)@.has_pending(key@),
            call_requires(compute, ()),
        ensures
            final(self)@.wf(),
            final(self)@.capacity == old(self)@.capacity,
            final(self)@.pending == old(self)@.pending,
            old(self)@.has_resolved(key@) ==> ({
                &&& match r {
                    Ok(v) => v@ == old(self)@.value_of(key@),
                    Err(_) => false,
                }
                &&& final(self)@ == old(self)@.touch(key@)
            }),
            !old(self)@.has_resolved(key@) ==> ({
                &&& call_ensures(compute, (), r)
                &&& match r {
                    Ok(v) => final(self)@ == if old(self)@.capacity > 0 {
                        old(self)@.insert_resolved(key@, v@)
                    } else {
                        old(self)@
                    },
                    Err(_) => final(self)@ == old(self)@,
                }
            }),
    {
        match self.lookup(&key) {
            Lookup::Hit(v) => Ok(v),
            Lookup::InFlight => {
                // no computation can be in flight for the key here: the
                // caller rules it out, so this arm is provably unreachable
                proof {
                    assert(false);
                }
                Err(AppError::CacheMisuse)
            },
            Lookup::Miss => {
                let out = compute();
                match out {
                    Ok(v) => {
                        if self.capacity > 0 {
                            let stored = v.dup();
                            self.insert_new(key, stored);
                        }
                        Ok(v)
                    },
                    Err(e) => Err(e),
                }
            },
        }
    }
}

/// Installing a pending placeholder keeps the cache well-formed and touches
/// nothing else; the key then counts as in flight.
pub proof fn lemma_push_pending_props<KV, TV>(c: CacheModel<KV, TV>, k: KV)
    requires
        c.wf(),
        !c.has_resolved(k),
        !c.has_pending(k),
    ensures
        c.push_pending(k).wf(),
        c.push_pending(k).has_pending(k),
        c.push_pending(k).resolved == c.resolved,
        c.push_pending(k).capacity == c.capacity,
        forall|k2: KV| k2 != k ==> (c.push_pending(k).has_pending(k2) <==> c.has_pending(k2)),
{
    let d = c.push_pending(k);
    assert(d.pending[d.pending.len() - 1] == k);
    assert forall|k2: KV| k2 != k implies (d.has_pending(k2) <==> c.has_pending(k2)) by {
        if d.has_pending(k2) {
            let i = choose|i: int| 0 <= i < d.pending.len() && d.pending[i] == k2;
            assert(i < c.pending.len() && c.pending[i] == k2);
        }
        if c.has_pending(k2) {
            let i = choose|i: int| 0 <= i < c.pending.len() && c.pending[i] == k2;
            assert(d.pending[i] == k2);
        }
    }
}

/// Completing a computation removes exactly its placeholder: the key is no
/// longer in flight, every other key's state is untouched.
pub proof fn lemma_remove_pending_props<KV, TV>(c: CacheModel<KV, TV>, k: KV)
    requires
        c.wf(),
        c.has_pending(k),
    ensures
        c.remove_pending(k).wf(),
        !c.remove_pending(k).has_pending(k),
        c.remove_pending(k).resolved == c.resolved,
        c.remove_pending(k).capacity == c.capacity,
        forall|k2: KV| k2 != k ==> (c.remove_pending(k).has_pending(k2) <==> c.has_pending(k2)),
        0 <= c.pending.index_of(k) < c.pending.len() && c.pending[c.pending.index_of(k)] == k,
{
    let i = c.pending.index_of(k);
    assert(0 <= i < c.pending.len() && c.pending[i] == k);
    let d = c.remove_pending(k);
    assert(d.pending =~= c.pending.remove(i));
    assert forall|x: int| 0 <= x < d.pending.len() implies c.pending.contains(
        #[trigger] d.pending[x],
    ) && d.pending[x] != k by {
        if x < i {
            assert(c.pending[x] == d.pending[x]);
        } else {
            assert(c.pending[x + 1] == d.pending[x]);
        }
    }
    assert forall|k2: KV| k2 != k implies (d.has_pending(k2) <==> c.has_pending(k2)) by {
        if d.has_pending(k2) {
            let x = choose|x: int| 0 <= x < d.pending.len() && d.pending[x] == k2;
            assert(c.pending.contains(d.pending[x]));
        }
        if c.has_pending(k2) {
            let y = choose|y: int| 0 <= y < c.pending.len() && c.pending[y] == k2;
            if y < i {
                assert(d.pending[y] == k2);
            } else {
                assert(y > i);
                assert(d.pending[y - 1] == k2);
            }
        }
    }
}

/// Resolving a key into a well-formed cache that does not hold it yet keeps
/// the cache well-formed and bounded. When the cache is full, exactly the
/// least-recently-used entry (position 0) is evicted and every other entry
/// keeps its value; when it is not, no entry is lost.
pub proof fn lemma_insert_resolved_props<KV, TV>(c: CacheModel<KV, TV>, k: KV, v: TV)
    requires
        c.wf(),
        !c.has_resolved(k),
        !c.has_pending(k),
        c.capacity > 0,
    ensures
        ({
            let d = c.insert_resolved(k, v);
            &&& d.wf()
            &&& d.capacity == c.capacity
            &&& d.pending == c.pending
            &&& d.has_resolved(k)
            &&& d.value_of(k) == v
            &&& c.resolved.len() < c.capacity ==> d.resolved.len() == c.resolved.len() + 1
                && (forall|x: int|
                0 <= x < c.resolved.len() ==> d.has_resolved(#[trigger] c.resolved[x].0)
                    && d.value_of(c.resolved[x].0) == c.resolved[x].1)
            &&& c.resolved.len() == c.capacity ==> d.resolved.len() == c.capacity
                && !d.has_resolved(c.resolved[0].0) && (forall|x: int|
                1 <= x < c.resolved.len() ==> d.has_resolved(#[trigger] c.resolved[x].0)
                    && d.value_of(c.resolved[x].0) == c.resolved[x].1)
        }),
{
    let d = c.insert_resolved(k, v);
    let full = c.resolved.len() >= c.capacity;
    let base = if full {
        c.resolved.drop_first()
    } else {
        c.resolved
    };
    let off: int = if full {
        1
    } else {
        0
    };
    assert(d.resolved =~= base.push((k, v)));
    assert(d.resolved.len() == base.len() + 1);
    // every base entry is an old entry shifted by the eviction offset
    assert(forall|x: int| 0 <= x < base.len() ==> base[x] == c.resolved[x + off]);
    // base keys are distinct from k and from each other
    assert forall|x: int| 0 <= x < base.len() implies #[trigger] base[x].0 != k by {
        if base[x].0 == k {
            assert(c.resolved[x + off].0 == k);
        }
    }
    assert(d.wf());
    // the new key resolves to the new value
    assert(d.resolved[d.resolved.len() - 1].0 == k);
    assert(d.has_resolved(k));
    let di = d.resolved_index(k);
    assert(0 <= di < d.resolved.len() && d.resolved[di].0 == k);
    assert(di == d.resolved.len() - 1);
    // surviving entries keep their values
    assert forall|x: int| off <= x < c.resolved.len() implies d.has_resolved(
        #[trigger] c.resolved[x].0,
    ) && d.value_of(c.resolved[x].0) == c.resolved[x].1 by {
        assert(d.resolved[x - off] == c.resolved[x]);
        assert(d.has_resolved(c.resolved[x].0));
        let dx = d.resolved_index(c.resolved[x].0);
        assert(0 <= dx < d.resolved.len() && d.resolved[dx].0 == c.resolved[x].0);
        assert(dx == x - off);
    }
    if full {
        // the evicted key is gone: it differed from every other old key
        assert(c.resolved.len() == c.capacity);
        if d.has_resolved(c.resolved[0].0) {
            let dx = d.resolved_index(c.resolved[0].0);
            assert(0 <= dx < d.resolved.len() && d.resolved[dx].0 == c.resolved[0].0);
            if dx < base.len() {
                assert(c.resolved[dx + 1].0 == c.resolved[0].0);
            } else {
                assert(d.resolved[dx].0 == k);
            }
            assert(false);
        }
    }
}

/// Deduplication: while `key`'s computation is in flight no second
/// computation can start — installing the placeholder is possible only for a
/// key that has none, and every concurrent lookup of `key` answers
/// `InFlight` — and once it resolves, every waiter reads the same value.
pub proof fn lemma_dedup<KV, TV>(c: CacheModel<KV, TV>, k: KV, v: TV)
    requires
        c.wf(),
        !c.has_resolved(k),
        !c.has_pending(k),
        c.capacity > 0,
    ensures
        ({
            let started = c.push_pending(k);
            &&& started.wf()
            &&& started.has_pending(k)
            &&& !started.has_resolved(k)
            &&& ({
                let done = started.remove_pending(k).insert_resolved(k, v);
                &&& done.wf()
                &&& done.has_resolved(k)
                &&& done.value_of(k) == v
            })
        }),
{
    lemma_push_pending_props(c, k);
    let started = c.push_pending(k);
    lemma_remove_pending_props(started, k);
    let back = started.remove_pending(k);
    lemma_insert_resolved_props(back, k, v);
}

/// Failures are never cached: a computation that starts and fails leaves the
/// cache exactly as it was, with nothing resolved for the key and no stale
/// placeholder, so the next request for the key computes again.
pub proof fn lemma_failure_not_cached<KV, TV>(c: CacheModel<KV, TV>, k: KV)
    requires
        c.wf(),
        !c.has_resolved(k),
        !c.has_pending(k),
    ensures
        c.push_pending(k).remove_pending(k) == c,
{
    let started = c.push_pending(k);
    lemma_push_pending_props(c, k);
    let i = started.pending.index_of(k);
    // the key was fresh, so its placeholder can only be the pushed one
    assert(0 <= i < started.pending.len() && started.pending[i] == k);
    if i < c.pending.len() {
        assert(c.pending[i] == k);
        assert(false);
    }
    assert(started.pending.remove(i) =~= c.pending);
    assert(started.remove_pending(k) =~= c);
}

/// Cache stability: once a computation for a key has resolved, every later
/// hit returns that same value, and the hits themselves (which only move the
/// entry to the most-recent end) never change it. What a later caller's
/// compute function would do plays no part.
pub proof fn lemma_cache_hit_stable<KV, TV>(c: CacheModel<KV, TV>, k: KV, v: TV)
    requires
        c.wf(),
        !c.has_resolved(k),
        !c.has_pending(k),
        c.capacity > 0,
    ensures
        ({
            let d = c.insert_resolved(k, v);
            &&& d.wf()
            &&& d.has_resolved(k)
            &&& d.value_of(k) == v
            &&& d.touch(k).wf()
            &&& d.touch(k).has_resolved(k)
            &&& d.touch(k).value_of(k) == v
        }),
{
    lemma_insert_resolved_props(c, k, v);
    let d = c.insert_resolved(k, v);
    lemma_touch_wf(d, k);
}

/// Touching a key resets its recency: after a hit on `k`, filling the last
/// free slot of a full cache with a fresh key evicts some other entry, never
/// `k`, and `k` keeps its value.
pub proof fn lemma_touch_protects_from_eviction<KV, TV>(
    c: CacheModel<KV, TV>,
    k: KV,
    k2: KV,
    v2: TV,
)
    requires
        c.wf(),
        c.has_resolved(k),
        !c.has_resolved(k2),
        !c.has_pending(k2),
        c.resolved.len() == c.capacity,
        c.capacity >= 2,
    ensures
        ({
            let d = c.touch(k).insert_resolved(k2, v2);
            &&& d.wf()
            &&& d.has_resolved(k)
            &&& d.value_of(k) == c.value_of(k)
            &&& d.has_resolved(k2)
            &&& d.value_of(k2) == v2
        }),
{
    lemma_touch_wf(c, k);
    let t = c.touch(k);
    assert(!t.has_resolved(k2));
    lemma_insert_resolved_props(t, k2, v2);
    // after the touch, k sits at the most-recent end, away from the
    // eviction victim at position 0
    let last = t.resolved.len() - 1;
    assert(t.resolved[last] == c.resolved[c.resolved_index(k)]);
    assert(t.resolved[last].0 == k);
    assert(t.resolved_index(k) == last) by {
        let ti = t.resolved_index(k);
        assert(0 <= ti < t.resolved.len() && t.resolved[ti].0 == k);
        if ti != last {
            assert(false);
        }
    }
    assert(t.value_of(k) == c.value_of(k));
    let d = t.insert_resolved(k2, v2);
    assert(d.has_resolved(t.resolved[last].0) && d.value_of(t.resolved[last].0) == t.resolved[last].1);
}

/// A hit preserves well-formedness, the key set and every resolved value;
/// only the recency order changes, with the touched key now most recent.
pub proof fn lemma_touch_wf<KV, TV>(c: CacheModel<KV, TV>, k: KV)
    requires
        c.wf(),
        c.has_resolved(k),
    ensures
        c.touch(k).wf(),
        c.touch(k).capacity == c.capacity,
        c.touch(k).pending == c.pending,
        c.touch(k).resolved.len() == c.resolved.len(),
        c.touch(k).resolved.last() == c.resolved[c.resolved_index(k)],
        forall|k2: KV| c.touch(k).has_resolved(k2) <==> c.has_resolved(k2),
        forall|k2: KV|
            c.has_resolved(k2) ==> #[trigger] c.touch(k).value_of(k2) == c.value_of(k2),
{
    let i = c.resolved_index(k);
    assert(0 <= i < c.resolved.len() && c.resolved[i].0 == k);
    let d = c.touch(k);
    let r = c.resolved;
    let dr = d.resolved;
    assert(dr =~= r.remove(i).push(r[i]));
    assert(dr.len() == r.len());
    // the new order holds the same entries as the old one
    assert forall|x: int| 0 <= x < dr.len() implies r.contains(#[trigger] dr[x]) by {
        if x < i {
            assert(r[x] == dr[x]);
        } else if x < r.len() - 1 {
            assert(r[x + 1] == dr[x]);
        } else {
            assert(r[i] == dr[x]);
        }
    }
    assert forall|y: int| 0 <= y < r.len() implies dr.contains(#[trigger] r[y]) by {
        if y < i {
            assert(dr[y] == r[y]);
        } else if y == i {
            assert(dr[dr.len() - 1] == r[y]);
        } else {
            assert(dr[y - 1] == r[y]);
        }
    }
    assert forall|k2: KV| d.has_resolved(k2) <==> c.has_resolved(k2) by {
        if d.has_resolved(k2) {
            let x = choose|x: int| 0 <= x < dr.len() && dr[x].0 == k2;
            let y = choose|y: int| 0 <= y < r.len() && r[y] == dr[x];
            assert(r[y].0 == k2);
        }
        if c.has_resolved(k2) {
            let y = choose|y: int| 0 <= y < r.len() && r[y].0 == k2;
            let x = choose|x: int| 0 <= x < dr.len() && dr[x] == r[y];
            assert(dr[x].0 == k2);
        }
    }
    assert forall|k2: KV| c.has_resolved(k2) implies #[trigger] d.value_of(k2) == c.value_of(
        k2,
    ) by {
        let y = c.resolved_index(k2);
        assert(0 <= y < r.len() && r[y].0 == k2);
        assert(d.has_resolved(k2));
        let dx = d.resolved_index(k2);
        assert(0 <= dx < dr.len() && dr[dx].0 == k2);
        // dr[dx] is an entry of r with key k2, and r has only one of those
        let y2 = choose|y2: int| 0 <= y2 < r.len() && r[y2] == dr[dx];
        assert(y2 == y);
    }
}

} // verus!
