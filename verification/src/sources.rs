//! The in-memory map of log sources.

use vstd::hash_map::StringHashMap;
use vstd::prelude::*;

verus! {

/// Maps the IP address of a sending host to the name of its log type.
pub struct SourceMap {
    map: StringHashMap<String>,
}

impl View for SourceMap {
    type V = Map<Seq<char>, Seq<char>>;

    closed spec fn view(&self) -> Map<Seq<char>, Seq<char>> {
        self.map@.map_values(|log_type: String| log_type@)
    }
}

impl SourceMap {
    /// A map without sources.
    pub fn new() -> (r: SourceMap)
        ensures
            r@ == Map::<Seq<char>, Seq<char>>::empty(),
    {
        let r = SourceMap { map: StringHashMap::new() };
        assert(r@ =~= Map::<Seq<char>, Seq<char>>::empty());
        r
    }

    /// Adds a source, or changes the log type of the one with that address.
    pub fn insert(&mut self, ip: String, log_type: String)
        ensures
            final(self)@ == old(self)@.insert(ip@, log_type@),
    {
        self.map.insert(ip, log_type);
        assert(self@ =~= old(self)@.insert(ip@, log_type@));
    }

    /// The log type of the source with the given address, if there is one.
    pub fn log_type(&self, ip: &str) -> (r: Option<String>)
        ensures
            match r {
                Some(log_type) => self@.contains_key(ip@) && log_type@ == self@[ip@],
                None => !self@.contains_key(ip@),
            },
    {
        match self.map.get(ip) {
            Some(log_type) => Some(log_type.clone()),
            None => None,
        }
    }
}

} // verus!
