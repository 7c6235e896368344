//! The in-memory index from identifier to payload location.
use dashmap::DashMap;
use vstd::prelude::*;

verus! {

/// The identifier of a stored text: the 64-bit hash of its UTF-8 bytes.
pub type UtfId = u64;

/// Where a payload lies in the store file: its first byte, and its length in bytes.
#[derive(Clone, Copy, Debug, PartialEq, Eq, Structural)]
pub struct EntryLocation {
    pub offset: u64,
    pub length: u32,
}

impl EntryLocation {
    /// The position just past the payload.
    pub open spec fn end_spec(&self) -> int {
        self.offset + self.length
    }

    /// The position just past the payload: the file length a mapping must cover to read it.
    pub fn end(&self) -> (r: u64)
        requires
            self.end_spec() <= u64::MAX,
        ensures
            r == self.end_spec(),
    {
        self.offset + self.length as u64
    }
}

/// The map with no identifiers.
pub open spec fn no_locations() -> Map<UtfId, EntryLocation> {
    Map::empty()
}

#[verifier::external_type_specification]
#[verifier::external_body]
#[verifier::reject_recursive_types(K)]
#[verifier::reject_recursive_types(V)]
#[verifier::reject_recursive_types(S)]
pub struct ExDashMap<K, V, S>(DashMap<K, V, S>);

/// The key/value pairs that a `DashMap` holds.
pub uninterp spec fn dashmap_entries(m: DashMap<UtfId, EntryLocation>) -> Map<UtfId, EntryLocation>;

/// Relies on `DashMap::new`: a new map holds no entries.
#[verifier::external_body]
fn dashmap_new() -> (m: DashMap<UtfId, EntryLocation>)
    ensures
        dashmap_entries(m) == no_locations(),
{
    DashMap::new()
}

/// Relies on `DashMap::insert`: the key maps to the value afterwards, an earlier value replaced.
#[verifier::external_body]
fn dashmap_insert(m: &mut DashMap<UtfId, EntryLocation>, k: UtfId, v: EntryLocation)
    ensures
        dashmap_entries(*final(m)) == dashmap_entries(*old(m)).insert(k, v),
{
    m.insert(k, v);
}

/// Relies on `DashMap::get`: the value stored under the key, if any, copied out of its guard.
#[verifier::external_body]
fn dashmap_get(m: &DashMap<UtfId, EntryLocation>, k: UtfId) -> (r: Option<EntryLocation>)
    ensures
        r == (if dashmap_entries(*m).contains_key(k) {
            Some(dashmap_entries(*m)[k])
        } else {
            None
        }),
{
    m.get(&k).map(|v| *v)
}

/// Relies on `DashMap::len`: the number of keys in the map.
#[verifier::external_body]
fn dashmap_len(m: &DashMap<UtfId, EntryLocation>) -> (r: usize)
    ensures
        r == dashmap_entries(*m).len(),
{
    m.len()
}

/// Relies on `DashMap::contains_key`: whether the key has a value.
#[verifier::external_body]
fn dashmap_contains(m: &DashMap<UtfId, EntryLocation>, k: UtfId) -> (r: bool)
    ensures
        r == dashmap_entries(*m).contains_key(k),
{
    m.contains_key(&k)
}

/// A hash map from identifier to payload location, rebuilt from the file on each open.
pub struct Index {
    map: DashMap<UtfId, EntryLocation>,
}

impl View for Index {
    type V = Map<UtfId, EntryLocation>;

    closed spec fn view(&self) -> Map<UtfId, EntryLocation> {
        dashmap_entries(self.map)
    }
}

impl Index {
    /// An index with no entries.
    pub fn new() -> (r: Index)
        ensures
            r@ == no_locations(),
    {
        Index { map: dashmap_new() }
    }

    /// Records that `id` lives at `offset` with `length` bytes, replacing an earlier location.
    pub fn insert(&mut self, id: UtfId, offset: u64, length: u32)
        ensures
            final(self)@ == old(self)@.insert(id, EntryLocation { offset, length }),
    {
        dashmap_insert(&mut self.map, id, EntryLocation { offset, length });
    }

    /// The location of `id`, if it is known.
    pub fn get(&self, id: UtfId) -> (r: Option<EntryLocation>)
        ensures
            r == (if self@.contains_key(id) {
                Some(self@[id])
            } else {
                None
            }),
    {
        dashmap_get(&self.map, id)
    }

    /// The number of identifiers known.
    pub fn len(&self) -> (r: usize)
        ensures
            r == self@.len(),
    {
        dashmap_len(&self.map)
    }

    /// Whether `id` is known.
    pub fn contains(&self, id: UtfId) -> (r: bool)
        ensures
            r == self@.contains_key(id),
    {
        dashmap_contains(&self.map, id)
    }
}

impl Default for Index {
    fn default() -> (r: Index)
        ensures
            r@ == no_locations(),
    {
        Index::new()
    }
}

} // verus!
