//! The header map that a handshake builds: text keys to text values, each key
//! held once, a later value for a key replacing the earlier one.

use vstd::hash_map::StringHashMap;
use vstd::prelude::*;

verus! {

pub struct HeaderMap {
    entries: StringHashMap<String>,
}

impl View for HeaderMap {
    type V = Map<Seq<char>, Seq<char>>;

    closed spec fn view(&self) -> Map<Seq<char>, Seq<char>> {
        self.entries@.map_values(|value: String| value@)
    }
}

impl HeaderMap {
    /// A map with no headers.
    pub fn new() -> (headers: Self)
        ensures
            headers@ == Map::<Seq<char>, Seq<char>>::empty(),
    {
        HeaderMap { entries: StringHashMap::new() }
    }

    /// Records `value` under `key`, in place of what the key held before.
    pub fn insert(&mut self, key: String, value: String)
        ensures
            final(self)@ == old(self)@.insert(key@, value@),
    {
        self.entries.insert(key, value);
    }

    /// The value recorded under `key`, if there is one.
    pub fn get(&self, key: &str) -> (value: Option<&String>)
        ensures
            value is Some <==> self@.contains_key(key@),
            value matches Some(text) ==> text@ == self@[key@],
    {
        self.entries.get(key)
    }

    /// Whether a value is recorded under `key`.
    pub fn contains_key(&self, key: &str) -> (held: bool)
        ensures
            held == self@.contains_key(key@),
    {
        self.entries.contains_key(key)
    }

    /// The number of keys.
    pub fn len(&self) -> (count: usize)
        ensures
            count == self@.len(),
    {
        broadcast use vstd::hash_map::group_hash_map_axioms;

        assert(self@.dom() =~= self.entries@.dom());
        self.entries.len()
    }

    /// Whether no header is recorded.
    pub fn is_empty(&self) -> (empty: bool)
        ensures
            empty == (self@.len() == 0),
    {
        self.len() == 0
    }
}

} // verus!
