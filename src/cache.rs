//! A bounded least-recently-used cache from identifier to decoded text.
use crate::index::UtfId;
use lru::LruCache;
use vstd::prelude::*;

verus! {

#[verifier::external_type_specification]
#[verifier::external_body]
#[verifier::reject_recursive_types(K)]
#[verifier::reject_recursive_types(V)]
#[verifier::reject_recursive_types(S)]
pub struct ExLruCache<K, V, S>(LruCache<K, V, S>);

#[verifier::external_type_specification]
#[verifier::external_body]
pub struct ExLruHasher(lru::DefaultHasher);

/// The key/value pairs that an `LruCache` holds, each text as its characters.
pub uninterp spec fn lru_entries(c: LruCache<UtfId, String>) -> Map<UtfId, Seq<char>>;

/// The keys of an `LruCache` from least to most recently used.
pub uninterp spec fn lru_order(c: LruCache<UtfId, String>) -> Seq<UtfId>;

/// The capacity an `LruCache` was built with.
pub uninterp spec fn lru_capacity(c: LruCache<UtfId, String>) -> nat;

/// The cache with no entries.
pub open spec fn no_texts() -> Map<UtfId, Seq<char>> {
    Map::empty()
}

/// The recency order lists each cached key exactly once.
pub open spec fn order_matches(order: Seq<UtfId>, entries: Map<UtfId, Seq<char>>) -> bool {
    &&& order.no_duplicates()
    &&& order.len() == entries.len()
    &&& entries.dom().finite()
    &&& forall|k: UtfId| #[trigger] entries.contains_key(k) <==> order.contains(k)
}

/// The recency order after `k` is used: `k` moves to the most recent end.
pub open spec fn touched(order: Seq<UtfId>, k: UtfId) -> Seq<UtfId> {
    order.remove_value(k).push(k)
}

/// Relies on `LruCache::new`: an empty cache of the given (nonzero) capacity.
#[verifier::external_body]
fn lru_new(cap: usize) -> (c: LruCache<UtfId, String>)
    requires
        cap >= 1,
    ensures
        lru_entries(c) == no_texts(),
        lru_order(c) == Seq::<UtfId>::empty(),
        lru_capacity(c) == cap,
{
    LruCache::new(std::num::NonZeroUsize::new(cap).unwrap())
}

/// Relies on `LruCache::get`: the value under the key, if any, which becomes the most
/// recently used; the entries themselves stay as they were, and the list of keys matches them.
#[verifier::external_body]
fn lru_get(c: &mut LruCache<UtfId, String>, k: UtfId) -> (r: Option<String>)
    ensures
        order_matches(lru_order(*final(c)), lru_entries(*final(c))),
        lru_entries(*final(c)) == lru_entries(*old(c)),
        lru_capacity(*final(c)) == lru_capacity(*old(c)),
        lru_order(*final(c)) == (if lru_entries(*old(c)).contains_key(k) {
            touched(lru_order(*old(c)), k)
        } else {
            lru_order(*old(c))
        }),
        r.is_some() == lru_entries(*old(c)).contains_key(k),
        r.is_some() ==> r.unwrap()@ == lru_entries(*old(c))[k],
{
    c.get(&k).cloned()
}

/// Relies on `LruCache::put`: a present key gets the new value and becomes the most recently
/// used; a new key is added as the most recently used, after the least recently used entry
/// leaves when the cache is full. The list of keys matches the entries afterwards.
#[verifier::external_body]
fn lru_put(c: &mut LruCache<UtfId, String>, k: UtfId, v: String)
    ensures
        lru_capacity(*final(c)) == lru_capacity(*old(c)),
        order_matches(lru_order(*final(c)), lru_entries(*final(c))),
        lru_entries(*old(c)).contains_key(k) ==> lru_entries(*final(c)) == lru_entries(
            *old(c),
        ).insert(k, v@) && lru_order(*final(c)) == touched(lru_order(*old(c)), k),
        !lru_entries(*old(c)).contains_key(k) && lru_entries(*old(c)).len() < lru_capacity(*old(c))
            ==> lru_entries(*final(c)) == lru_entries(*old(c)).insert(k, v@) && lru_order(*final(c))
            == lru_order(*old(c)).push(k),
        !lru_entries(*old(c)).contains_key(k) && lru_entries(*old(c)).len() >= lru_capacity(
            *old(c),
        ) ==> lru_entries(*final(c)) == lru_entries(*old(c)).remove(lru_order(*old(c))[0]).insert(
            k,
            v@,
        ) && lru_order(*final(c)) == lru_order(*old(c)).drop_first().push(k),
{
    c.put(k, v);
}

/// A capacity-bounded least-recently-used cache of decoded texts.
pub struct Cache {
    inner: LruCache<UtfId, String>,
}

impl View for Cache {
    type V = Map<UtfId, Seq<char>>;

    closed spec fn view(&self) -> Map<UtfId, Seq<char>> {
        lru_entries(self.inner)
    }
}

impl Cache {
    /// The cached identifiers from least to most recently used.
    pub closed spec fn order(&self) -> Seq<UtfId> {
        lru_order(self.inner)
    }

    /// The number of entries the cache may hold.
    pub closed spec fn capacity(&self) -> nat {
        lru_capacity(self.inner)
    }

    /// The cache holds finitely many entries, at most its capacity, which is at least one, and
    /// its recency order lists each of them once.
    pub open spec fn wf(&self) -> bool {
        &&& order_matches(self.order(), self@)
        &&& self@.len() <= self.capacity()
        &&& self.capacity() >= 1
    }

    /// An empty cache holding up to `capacity` entries; a capacity of zero is taken as one.
    pub fn new(capacity: usize) -> (r: Cache)
        ensures
            r.wf(),
            r@ == no_texts(),
            r.order() == Seq::<UtfId>::empty(),
            r.capacity() == (if capacity == 0 {
                1
            } else {
                capacity
            }),
    {
        let cap: usize = if capacity == 0 {
            1
        } else {
            capacity
        };
        Cache { inner: lru_new(cap) }
    }

    /// The text cached under `id`, if any; the entry becomes the most recently used.
    pub fn get(&mut self, id: UtfId) -> (r: Option<String>)
        requires
            old(self).wf(),
        ensures
            final(self).wf(),
            final(self)@ == old(self)@,
            final(self).capacity() == old(self).capacity(),
            final(self).order() == (if old(self)@.contains_key(id) {
                touched(old(self).order(), id)
            } else {
                old(self).order()
            }),
            r.is_some() == old(self)@.contains_key(id),
            r.is_some() ==> r.unwrap()@ == old(self)@[id],
    {
        lru_get(&mut self.inner, id)
    }

    /// Caches `val` under `id`, evicting the least recently used entry when the cache is full.
    pub fn put(&mut self, id: UtfId, val: String)
        requires
            old(self).wf(),
        ensures
            final(self).wf(),
            final(self).capacity() == old(self).capacity(),
            old(self)@.contains_key(id) ==> final(self)@ == old(self)@.insert(id, val@)
                && final(self).order() == touched(old(self).order(), id),
            !old(self)@.contains_key(id) && old(self)@.len() < old(self).capacity() ==> final(self)@
                == old(self)@.insert(id, val@) && final(self).order() == old(self).order().push(id),
            !old(self)@.contains_key(id) && old(self)@.len() == old(self).capacity() ==> final(self)@
                == old(self)@.remove(old(self).order()[0]).insert(id, val@) && final(self).order()
                == old(self).order().drop_first().push(id),
            final(self)@.contains_key(id),
            final(self)@[id] == val@,
            forall|j: UtfId|
                j != id && #[trigger] final(self)@.contains_key(j) ==> old(self)@.contains_key(j)
                    && final(self)@[j] == old(self)@[j],
            old(self)@.contains_key(id) || old(self)@.len() < old(self).capacity() ==> forall|
                j: UtfId,
            | #[trigger] old(self)@.contains_key(j) ==> final(self)@.contains_key(j),
    {
        lru_put(&mut self.inner, id, val);
    }
}

} // verus!
