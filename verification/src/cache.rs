//! Keys that were derived or unwrapped before.
use dashmap::DashMap;
use vstd::prelude::*;

verus! {

#[verifier::external_type_specification]
#[verifier::external_body]
#[verifier::reject_recursive_types(K)]
#[verifier::reject_recursive_types(V)]
#[verifier::reject_recursive_types(S)]
pub struct ExDashMap<K, V, S>(DashMap<K, V, S>);

/// The entries of a map from byte strings to keys.
pub uninterp spec fn map_entries(map: DashMap<Vec<u8>, [u8; 32]>) -> Map<Seq<u8>, Seq<u8>>;

/// The entries of an empty map.
pub open spec fn no_keys() -> Map<Seq<u8>, Seq<u8>> {
    Map::empty()
}

/// Calls `DashMap::new`: the map has no entries.
#[verifier::external_body]
fn new_map() -> (map: DashMap<Vec<u8>, [u8; 32]>)
    ensures
        map_entries(map) == no_keys(),
{
    DashMap::new()
}

/// Calls `DashMap::get`: gives the value stored under the key, where there is one.
#[verifier::external_body]
fn map_get(map: &DashMap<Vec<u8>, [u8; 32]>, key: &[u8]) -> (r: Option<[u8; 32]>)
    ensures
        match r {
            Some(value) => map_entries(*map).dom().contains(key@) && map_entries(*map)[key@]
                == value@,
            None => !map_entries(*map).dom().contains(key@),
        },
{
    map.get(key).map(|entry| *entry.value())
}

/// Calls `DashMap::insert`: stores the value under the key and leaves every other entry as it was.
/// The map is taken exclusively, so no other thread changes it meanwhile.
#[verifier::external_body]
fn map_insert(map: &mut DashMap<Vec<u8>, [u8; 32]>, key: Vec<u8>, value: [u8; 32])
    ensures
        map_entries(*final(map)) == map_entries(*old(map)).insert(key@, value@),
{
    map.insert(key, value);
}

/// A cache of 32-byte keys under byte strings.
pub struct KeyCache {
    entries: DashMap<Vec<u8>, [u8; 32]>,
}

impl View for KeyCache {
    type V = Map<Seq<u8>, Seq<u8>>;

    closed spec fn view(&self) -> Map<Seq<u8>, Seq<u8>> {
        map_entries(self.entries)
    }
}

impl KeyCache {
    /// An empty cache.
    pub fn new() -> (cache: KeyCache)
        ensures
            cache@ == no_keys(),
    {
        KeyCache { entries: new_map() }
    }

    /// The key stored under `id`.
    pub fn get(&self, id: &[u8]) -> (r: Option<[u8; 32]>)
        ensures
            match r {
                Some(key) => self@.dom().contains(id@) && self@[id@] == key@,
                None => !self@.dom().contains(id@),
            },
    {
        map_get(&self.entries, id)
    }

    /// Stores `key` under `id`.
    pub fn insert(&mut self, id: &[u8], key: [u8; 32])
        ensures
            final(self)@ == old(self)@.insert(id@, key@),
    {
        map_insert(&mut self.entries, vstd::slice::slice_to_vec(id), key);
    }
}

} // verus!
