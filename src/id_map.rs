//! The mapping from external ids to internal surrogate ids, as the store hands it back,
//! held in a hashbrown map.
use vstd::prelude::*;

verus! {

/// External id to internal id, for the ids of one sync.
// The map sits in an opaque struct: hashbrown's `HashMap` bounds its allocator by a
// trait of `allocator-api2`, which this crate cannot name, so the type cannot be declared.
#[verifier::external_body]
pub struct IdMapping {
    map: hashbrown::HashMap<String, i32>,
}

/// What an `IdMapping` holds: external id (as characters) to internal id.
pub uninterp spec fn mapping_contents(m: IdMapping) -> Map<Seq<char>, i32>;

/// The map that inserting `pairs` in order into an empty map produces.
pub open spec fn map_of_pairs(pairs: Seq<(String, i32)>) -> Map<Seq<char>, i32>
    decreases pairs.len(),
{
    if pairs.len() == 0 {
        Map::empty()
    } else {
        map_of_pairs(pairs.drop_last()).insert(pairs.last().0@, pairs.last().1)
    }
}

impl IdMapping {
    /// Relies on hashbrown::HashMap::new: the new map holds no entry.
    #[verifier::external_body]
    fn empty() -> (r: IdMapping)
        ensures
            mapping_contents(r).dom() == Set::<Seq<char>>::empty(),
    {
        IdMapping { map: hashbrown::HashMap::new() }
    }

    /// Relies on hashbrown::HashMap::insert: afterwards the key maps to the value and
    /// every other key keeps its entry.
    #[verifier::external_body]
    fn insert(&mut self, k: String, v: i32)
        ensures
            mapping_contents(*final(self)) == mapping_contents(*old(self)).insert(k@, v),
    {
        self.map.insert(k, v);
    }

    /// Relies on hashbrown::HashMap::get: the value of the key if the map holds it.
    #[verifier::external_body]
    fn lookup(&self, k: &String) -> (r: Option<i32>)
        ensures
            mapping_contents(*self).dom().contains(k@) ==> r == Some(mapping_contents(*self)[k@]),
            !mapping_contents(*self).dom().contains(k@) ==> r is None,
    {
        self.map.get(k).copied()
    }

    /// Builds the mapping from (external id, internal id) rows; a later row for the same
    /// external id wins.
    pub fn from_pairs(pairs: &Vec<(String, i32)>) -> (r: IdMapping)
        ensures
            mapping_contents(r) == map_of_pairs(pairs@),
    {
        let mut m = IdMapping::empty();
        assert(mapping_contents(m) =~= map_of_pairs(pairs@.take(0)));
        let mut i: usize = 0;
        while i < pairs.len()
            invariant
                i <= pairs.len(),
                mapping_contents(m) == map_of_pairs(pairs@.take(i as int)),
            decreases pairs.len() - i,
        {
            assert(pairs@.take(i + 1).drop_last() =~= pairs@.take(i as int));
            m.insert(pairs[i].0.clone(), pairs[i].1);
            i += 1;
        }
        assert(pairs@.take(i as int) =~= pairs@);
        m
    }

    /// The internal id of an external id, if the mapping holds one.
    pub fn get(&self, k: &String) -> (r: Option<i32>)
        ensures
            r is Some <==> mapping_contents(*self).dom().contains(k@),
            r is Some ==> r->Some_0 == mapping_contents(*self)[k@],
    {
        self.lookup(k)
    }
}

} // verus!
