//! From handles to handles.

use crate::pool::Handle;
use fxhash::FxHashMap;
use vstd::prelude::*;

verus! {

/// The hasher of the maps.
#[verifier::external_type_specification]
#[verifier::external_body]
pub struct ExFxHasher(fxhash::FxHasher);

/// The maker of hashers of the maps.
#[verifier::external_type_specification]
#[verifier::external_body]
#[verifier::reject_recursive_types(H)]
pub struct ExBuildHasherDefault<H>(std::hash::BuildHasherDefault<H>);

/// `FxHashMap::default` makes a map with nothing in it.
#[verifier::external_body]
pub(crate) fn fx_new() -> (result: FxHashMap<u64, u64>)
    ensures
        result@.dom() == Set::<u64>::empty(),
{
    FxHashMap::default()
}

/// `FxHashMap::insert` puts a value under a key, in the place of one that was there.
#[verifier::external_body]
pub(crate) fn fx_insert(map: &mut FxHashMap<u64, u64>, key: u64, value: u64)
    ensures
        final(map)@ == old(map)@.insert(key, value),
{
    map.insert(key, value);
}

/// `FxHashMap::get` finds the value under a key.
#[verifier::external_body]
pub(crate) fn fx_get(map: &FxHashMap<u64, u64>, key: u64) -> (result: Option<u64>)
    ensures
        result is Some <==> map@.contains_key(key),
        result matches Some(value) ==> value == map@[key],
{
    map.get(&key).copied()
}

/// The handle that a key was made from.
pub open spec fn handle_of(key: u64) -> Handle {
    Handle { index: (key % 0x1_0000_0000) as u32, generation: (key / 0x1_0000_0000) as u32 }
}

/// From handles to handles.
pub struct HandleMap {
    map: FxHashMap<u64, u64>,
}

impl HandleMap {
    /// What each handle leads to.
    pub closed spec fn view(&self) -> Map<Handle, Handle> {
        Map::new(
            |h: Handle| self.map@.contains_key(h.encoded() as u64),
            |h: Handle| handle_of(self.map@[h.encoded() as u64]),
        )
    }

    pub fn new() -> (result: Self)
        ensures
            result@ == Map::<Handle, Handle>::empty(),
    {
        let result = HandleMap { map: fx_new() };
        assert(result@ =~= Map::<Handle, Handle>::empty());
        result
    }

    /// Makes one handle lead to another.
    pub fn insert(&mut self, from: Handle, to: Handle)
        ensures
            final(self)@ == old(self)@.insert(from, to),
    {
        fx_insert(&mut self.map, from.to_key(), to.to_key());
        assert(handle_of(to.encoded() as u64) == to);
        assert forall|h: Handle| h.encoded() as u64 == from.encoded() as u64 implies h == from by {
            crate::pool::lemma_encoding_is_injective(h, from);
        }
        assert(self@ =~= old(self)@.insert(from, to));
    }

    /// What a handle leads to.
    pub fn get(&self, from: Handle) -> (result: Option<Handle>)
        ensures
            result is Some <==> self@.contains_key(from),
            result matches Some(to) ==> to == self@[from],
    {
        match fx_get(&self.map, from.to_key()) {
            Some(key) => {
                let to = Handle::from_key(key);
                proof {
                    crate::pool::lemma_encoding_is_injective(to, handle_of(key));
                }
                Some(to)
            },
            None => None,
        }
    }
}

} // verus!
