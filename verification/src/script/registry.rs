//! The numbers by which scripts know nodes, and the names by which they know prototypes.

use crate::handle_map;
use crate::pool::Handle;
use fxhash::FxHashMap;
use vstd::prelude::*;

verus! {

/// The handles that were given to scripts, each under a number.
///
/// A handle has sixty-four bits, and a script's numbers are exact only up to fifty-three: so a
/// script never sees a handle, only its number here. What it was never given, it cannot name.
pub struct Registry {
    handles: Vec<Handle>,
    numbers: FxHashMap<u64, u64>,
}

impl Registry {
    /// The handles, by their numbers.
    pub closed spec fn view(&self) -> Seq<Handle> {
        self.handles@
    }

    /// No handle has two numbers, and the map knows them all.
    pub closed spec fn wf(&self) -> bool {
        &&& self.handles@.len() <= 0xffff_ffff
        &&& self.handles@.no_duplicates()
        &&& forall|i: int|
            0 <= i < self.handles@.len() ==> {
                &&& self.numbers@.contains_key((#[trigger] self.handles@[i]).encoded() as u64)
                &&& self.numbers@[self.handles@[i].encoded() as u64] == i
            }
        &&& forall|h: Handle| #[trigger]
            self.numbers@.contains_key(h.encoded() as u64) ==> self.handles@.contains(h)
    }

    pub proof fn lemma_numbers_are_unique(&self)
        requires
            self.wf(),
        ensures
            self@.no_duplicates(),
            self@.len() <= 0xffff_ffff,
    {
    }

    pub fn new() -> (result: Self)
        ensures
            result.wf(),
            result@ == Seq::<Handle>::empty(),
    {
        Registry { handles: Vec::new(), numbers: handle_map::fx_new() }
    }

    /// The number of a handle. A new handle gets the next one, and none once all are given out.
    pub fn id_of(&mut self, handle: Handle) -> (result: Option<u32>)
        requires
            old(self).wf(),
        ensures
            final(self).wf(),
            if old(self)@.contains(handle) {
                &&& final(self)@ == old(self)@
                &&& result matches Some(id) && id < old(self)@.len() && old(self)@[id as int]
                    == handle
            } else if old(self)@.len() < 0xffff_ffff {
                &&& final(self)@ == old(self)@.push(handle)
                &&& result == Some(old(self)@.len() as u32)
            } else {
                &&& final(self)@ == old(self)@
                &&& result is None
            },
    {
        if let Some(id) = handle_map::fx_get(&self.numbers, handle.to_key()) {
            proof {
                assert(self.numbers@.contains_key(handle.encoded() as u64));
                let i = choose|i: int| 0 <= i < self.handles@.len() && self.handles@[i] == handle;
                assert(self.handles@[i] == handle);
            }
            return Some(id as u32);
        }
        proof {
            if self.handles@.contains(handle) {
                let i = choose|i: int| 0 <= i < self.handles@.len() && self.handles@[i] == handle;
                assert(self.handles@[i] == handle);
            }
        }
        if self.handles.len() >= 0xffff_ffff {
            return None;
        }
        let id: u32 = self.handles.len() as u32;
        self.handles.push(handle);
        handle_map::fx_insert(&mut self.numbers, handle.to_key(), id as u64);
        proof {
            assert(self.handles@[id as int] == handle);
            assert forall|h: Handle| h.encoded() as u64 == handle.encoded() as u64 implies h
                == handle by {
                crate::pool::lemma_encoding_is_injective(h, handle);
            }
            assert forall|i: int| 0 <= i < self.handles@.len() implies {
                &&& self.numbers@.contains_key((#[trigger] self.handles@[i]).encoded() as u64)
                &&& self.numbers@[self.handles@[i].encoded() as u64] == i
            } by {
                if i < id {
                    assert(self.handles@[i] == old(self).handles@[i]);
                    assert(old(self).handles@.contains(self.handles@[i]));
                }
            }
            assert forall|h: Handle| #[trigger]
                self.numbers@.contains_key(h.encoded() as u64) implies self.handles@.contains(
                h,
            ) by {
                if h != handle {
                    let i = choose|i: int|
                        0 <= i < old(self).handles@.len() && old(self).handles@[i] == h;
                    assert(self.handles@[i] == h);
                }
            }
        }
        Some(id)
    }

    /// The handle of a number.
    pub fn handle_of(&self, id: u32) -> (result: Option<Handle>)
        ensures
            result == if id < self@.len() {
                Some(self@[id as int])
            } else {
                None::<Handle>
            },
    {
        if (id as usize) < self.handles.len() {
            Some(self.handles[id as usize])
        } else {
            None
        }
    }
}

/// What a map from names to places holds.
pub uninterp spec fn places(map: FxHashMap<String, u64>) -> Map<Seq<char>, u64>;

/// `FxHashMap::default` makes a map with nothing in it.
#[verifier::external_body]
fn names_new() -> (result: FxHashMap<String, u64>)
    ensures
        places(result).dom() == Set::<Seq<char>>::empty(),
{
    FxHashMap::default()
}

/// `FxHashMap::insert` puts a place under a name, in the place of one that was there.
#[verifier::external_body]
fn names_insert(map: &mut FxHashMap<String, u64>, name: String, place: u64)
    ensures
        places(*final(map)) == places(*old(map)).insert(name@, place),
{
    map.insert(name, place);
}

/// `FxHashMap::get` finds the place under a name.
#[verifier::external_body]
fn names_get(map: &FxHashMap<String, u64>, name: &str) -> (result: Option<u64>)
    ensures
        result is Some <==> places(*map).contains_key(name@),
        result matches Some(place) ==> place == places(*map)[name@],
{
    map.get(name).copied()
}

/// The names under which the game offers nodes to scripts.
///
/// A script never builds a node with meshes and materials. It asks for one by name, and the name is
/// all that the two sides agree on.
pub struct Prototypes {
    names: Vec<String>,
    map: FxHashMap<String, u64>,
}

impl Prototypes {
    /// The names, in the order in which they came.
    pub closed spec fn view(&self) -> Seq<Seq<char>> {
        Seq::new(self.names@.len(), |i: int| self.names@[i]@)
    }

    /// No name comes twice, and the map knows them all.
    pub closed spec fn wf(&self) -> bool {
        &&& self.names@.len() <= usize::MAX
        &&& forall|i: int|
            0 <= i < self.names@.len() ==> {
                &&& places(self.map).contains_key((#[trigger] self.names@[i])@)
                &&& places(self.map)[self.names@[i]@] == i
            }
        &&& forall|t: Seq<char>| #[trigger]
            places(self.map).contains_key(t) ==> self@.contains(t)
    }

    pub fn new() -> (result: Self)
        ensures
            result.wf(),
            result@ == Seq::<Seq<char>>::empty(),
    {
        Prototypes { names: Vec::new(), map: names_new() }
    }

    /// Where a name stands.
    pub fn find(&self, name: &str) -> (result: Option<usize>)
        requires
            self.wf(),
        ensures
            result is Some <==> self@.contains(name@),
            result matches Some(place) ==> place < self@.len() && self@[place as int] == name@,
    {
        match names_get(&self.map, name) {
            Some(place) => {
                proof {
                    assert(self@.contains(name@));
                    let i = choose|i: int| 0 <= i < self@.len() && self@[i] == name@;
                    assert(self.names@[i]@ == name@);
                    assert(place == i);
                }
                Some(place as usize)
            },
            None => {
                proof {
                    if self@.contains(name@) {
                        let i = choose|i: int| 0 <= i < self@.len() && self@[i] == name@;
                        assert(self.names@[i]@ == name@);
                    }
                }
                None
            },
        }
    }

    /// Enters a name, unless it is there already, and says where it stands.
    pub fn register(&mut self, name: &str) -> (result: usize)
        requires
            old(self).wf(),
        ensures
            final(self).wf(),
            final(self)@ == if old(self)@.contains(name@) {
                old(self)@
            } else {
                old(self)@.push(name@)
            },
            result < final(self)@.len(),
            final(self)@[result as int] == name@,
    {
        if let Some(place) = self.find(name) {
            return place;
        }
        let place: usize = self.names.len();
        self.names.push(name.to_owned());
        names_insert(&mut self.map, name.to_owned(), place as u64);
        let count: usize = self.names.len();
        proof {
            assert(self.names@.len() == count);
            assert(self@ =~= old(self)@.push(name@));
            assert forall|i: int| 0 <= i < self.names@.len() implies {
                &&& places(self.map).contains_key((#[trigger] self.names@[i])@)
                &&& places(self.map)[self.names@[i]@] == i
            } by {
                if i < place {
                    assert(self.names@[i] == old(self).names@[i]);
                    assert(old(self)@[i] == self.names@[i]@);
                    assert(old(self)@.contains(self.names@[i]@));
                }
            }
            assert forall|t: Seq<char>| #[trigger]
                places(self.map).contains_key(t) implies self@.contains(t) by {
                if t == name@ {
                    assert(self@[place as int] == t);
                } else {
                    let i = choose|i: int| 0 <= i < old(self)@.len() && old(self)@[i] == t;
                    assert(self@[i] == t);
                }
            }
        }
        place
    }

    /// The names, in the order in which they came.
    pub fn names(&self) -> (result: &Vec<String>)
        ensures
            result@.len() == self@.len(),
            forall|i: int| 0 <= i < result@.len() ==> (#[trigger] result@[i])@ == self@[i],
    {
        &self.names
    }
}

} // verus!
