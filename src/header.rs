//! A collection of request headers, keyed by name.
//!
//! Names are looked up exactly as given: callers lower-case names before they
//! insert them.
use vstd::prelude::*;

verus! {

/// The map that a list of `(name, value)` entries describes; a later entry
/// for a name shadows an earlier one.
pub open spec fn entries_map(s: Seq<(Seq<char>, Seq<char>)>) -> Map<Seq<char>, Seq<char>>
    decreases s.len(),
{
    if s.len() == 0 {
        Map::empty()
    } else {
        entries_map(s.drop_last()).insert(s.last().0, s.last().1)
    }
}

/// Header values by header name.
#[derive(Clone, Debug)]
pub struct HeaderMap {
    entries: Vec<(String, String)>,
}

impl View for HeaderMap {
    type V = Map<Seq<char>, Seq<char>>;

    closed spec fn view(&self) -> Map<Seq<char>, Seq<char>> {
        entries_map(self.entries@.map_values(|e: (String, String)| (e.0@, e.1@)))
    }
}

impl HeaderMap {
    /// An empty collection.
    pub fn new() -> (r: HeaderMap)
        ensures
            r@ == Map::<Seq<char>, Seq<char>>::empty(),
    {
        let r = HeaderMap { entries: Vec::new() };
        assert(r.entries@.map_values(|e: (String, String)| (e.0@, e.1@)) =~= Seq::empty());
        r
    }

    /// Sets the value of header `name`, replacing any earlier value.
    pub fn insert(&mut self, name: String, value: String)
        ensures
            final(self)@ == old(self)@.insert(name@, value@),
    {
        let ghost before = self.entries@.map_values(|e: (String, String)| (e.0@, e.1@));
        self.entries.push((name, value));
        let ghost after = self.entries@.map_values(|e: (String, String)| (e.0@, e.1@));
        assert(after.drop_last() =~= before);
    }

    /// The value of header `name`, if present.
    pub fn get(&self, name: &String) -> (r: Option<&String>)
        ensures
            match r {
                Some(v) => self@.contains_key(name@) && self@[name@] == v@,
                None => !self@.contains_key(name@),
            },
    {
        let ghost s = self.entries@.map_values(|e: (String, String)| (e.0@, e.1@));
        let mut i: usize = self.entries.len();
        assert(s.take(i as int) =~= s);
        while i > 0
            invariant
                i <= self.entries@.len() == s.len(),
                s == self.entries@.map_values(|e: (String, String)| (e.0@, e.1@)),
                entries_map(s).contains_key(name@) == entries_map(s.take(i as int)).contains_key(
                    name@,
                ),
                entries_map(s).contains_key(name@) ==> entries_map(s)[name@] == entries_map(
                    s.take(i as int),
                )[name@],
            decreases i,
        {
            assert(s.take(i as int).drop_last() =~= s.take(i - 1));
            if self.entries[i - 1].0 == *name {
                return Some(&self.entries[i - 1].1);
            }
            i = i - 1;
        }
        None
    }
}

} // verus!
