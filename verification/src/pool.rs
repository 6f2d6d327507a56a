//! Generational storage: values are reached through handles, and a handle whose value was freed
//! never reaches another value.

use vstd::prelude::*;

verus! {

/// Names one value of a [`Pool`].
#[derive(Debug, Clone, Copy, PartialEq, Eq, Hash, Structural)]
pub struct Handle {
    pub index: u32,
    pub generation: u32,
}

impl Handle {
    /// The handle that names nothing.
    #[verifier::allow_in_spec]
    pub fn none() -> Handle
        returns
            (Handle { index: 0, generation: 0 }),
    {
        Handle { index: 0, generation: 0 }
    }

    /// Whether this is [`Handle::none`].
    pub fn is_none(&self) -> (result: bool)
        ensures
            result == (*self == Handle::none()),
    {
        *self == Handle::none()
    }

    /// Whether this is any other handle than [`Handle::none`].
    pub fn is_some(&self) -> (result: bool)
        ensures
            result == (*self != Handle::none()),
    {
        *self != Handle::none()
    }

    /// The handle as one number.
    pub open spec fn encoded(self) -> int {
        self.generation * 0x1_0000_0000 + self.index
    }

    /// Packs the handle into one number, for stores that carry a single integer per object.
    pub fn encode_to_u128(&self) -> (result: u128)
        ensures
            result == self.encoded(),
    {
        (self.generation as u128) * 0x1_0000_0000 + (self.index as u128)
    }

    /// Packs the handle into a key.
    pub fn to_key(&self) -> (result: u64)
        ensures
            result == self.encoded(),
    {
        (self.generation as u64) * 0x1_0000_0000 + (self.index as u64)
    }

    /// Unpacks a key.
    pub fn from_key(key: u64) -> (result: Handle)
        ensures
            result.encoded() == key,
    {
        Handle {
            index: (key % 0x1_0000_0000) as u32,
            generation: (key / 0x1_0000_0000) as u32,
        }
    }

    /// Unpacks what [`Handle::encode_to_u128`] packed. Numbers that no handle packs to come back
    /// as [`Handle::none`].
    pub fn decode_from_u128(value: u128) -> (result: Handle)
        ensures
            value <= u64::MAX ==> result.encoded() == value,
            value > u64::MAX ==> result == Handle::none(),
    {
        if value > 0xffff_ffff_ffff_ffff {
            Handle::none()
        } else {
            Handle {
                index: (value % 0x1_0000_0000) as u32,
                generation: (value / 0x1_0000_0000) as u32,
            }
        }
    }
}

/// A handle survives the trip through its packed form.
pub proof fn lemma_encoding_is_injective(a: Handle, b: Handle)
    ensures
        a.encoded() == b.encoded() ==> a == b,
        0 <= a.encoded() <= u64::MAX,
{
}

/// A handle whose value was freed names nothing ever after: what comes into the pool later comes
/// under handles that were never given out.
pub proof fn lemma_stale_stays_stale<T>(before: Pool<T>, after: Pool<T>, stale: Handle, new: Handle, value: T)
    requires
        before.issued(stale),
        !before@.contains_key(stale),
        !before.issued(new),
        after@ == before@.insert(new, value),
    ensures
        !after@.contains_key(stale),
{
}

/// Going one step along a list without repetitions leaves exactly the passed handle behind.
pub proof fn lemma_skip_one(list: Seq<Handle>, i: int)
    requires
        0 <= i < list.len(),
        list.no_duplicates(),
    ensures
        forall|x: Handle|
            #[trigger] list.skip(i).contains(x) <==> x == list[i] || list.skip(i + 1).contains(x),
        forall|x: Handle| #[trigger]
            list.skip(i + 1).contains(x) ==> x != list[i] && list.skip(i).contains(x),
{
    let now = list.skip(i);
    let next = list.skip(i + 1);
    assert(now[0] == list[i]);
    assert forall|x: Handle| #[trigger] now.contains(x) <==> x == list[i] || next.contains(x) by {
        if now.contains(x) {
            let k = choose|k: int| 0 <= k < now.len() && now[k] == x;
            if k > 0 {
                assert(next[k - 1] == x);
            }
        }
        if next.contains(x) {
            let k = choose|k: int| 0 <= k < next.len() && next[k] == x;
            assert(now[k + 1] == x);
        }
    }
    assert forall|x: Handle| #[trigger] next.contains(x) implies x != list[i] && now.contains(x) by {
        let k = choose|k: int| 0 <= k < next.len() && next[k] == x;
        assert(list[i + 1 + k] == x);
        assert(now[k + 1] == x);
    }
}

struct Slot<T> {
    generation: u32,
    payload: Option<T>,
}

/// Storage for values of one type.
pub struct Pool<T> {
    slots: Vec<Slot<T>>,
    free: Vec<u32>,
}

impl<T> Pool<T> {
    spec fn holds(&self, h: Handle) -> bool {
        &&& h.index < self.slots@.len()
        &&& self.slots@[h.index as int].generation == h.generation
        &&& self.slots@[h.index as int].payload is Some
    }

    /// The live values, by handle.
    pub closed spec fn view(&self) -> Map<Handle, T> {
        Map::new(
            |h: Handle| self.holds(h),
            |h: Handle| self.slots@[h.index as int].payload->0,
        )
    }

    /// Whether a handle has been handed out at some time, freed or not.
    pub closed spec fn issued(&self, h: Handle) -> bool {
        h.index < self.slots@.len() && 1 <= h.generation <= self.slots@[h.index as int].generation
    }

    /// How many slots there are, live or not.
    pub closed spec fn capacity(&self) -> nat {
        self.slots@.len()
    }

    pub closed spec fn wf(&self) -> bool {
        &&& self.slots@.len() <= u32::MAX
        &&& forall|i: int| 0 <= i < self.slots@.len() ==> (#[trigger] self.slots@[i]).generation >= 1
        &&& forall|k: int|
            0 <= k < self.free@.len() ==> {
                &&& (#[trigger] self.free@[k]) < self.slots@.len()
                &&& self.slots@[self.free@[k] as int].payload is None
                &&& self.slots@[self.free@[k] as int].generation < u32::MAX
            }
        &&& self.free@.no_duplicates()
    }

    /// An empty pool.
    pub fn new() -> (result: Self)
        ensures
            result.wf(),
            result@ == Map::<Handle, T>::empty(),
            result.capacity() == 0,
            forall|h: Handle| !result.issued(h),
    {
        let result = Pool { slots: Vec::new(), free: Vec::new() };
        assert(result@ =~= Map::<Handle, T>::empty());
        result
    }

    /// Whether the handle names a live value.
    pub fn is_valid_handle(&self, handle: Handle) -> (result: bool)
        ensures
            result == self@.contains_key(handle),
    {
        let index: usize = handle.index as usize;
        index < self.slots.len() && self.slots[index].generation == handle.generation
            && self.slots[index].payload.is_some()
    }

    /// The value under the handle, if it is live.
    pub fn try_borrow(&self, handle: Handle) -> (result: Option<&T>)
        ensures
            result is Some <==> self@.contains_key(handle),
            result matches Some(value) ==> *value == self@[handle],
    {
        if self.is_valid_handle(handle) {
            self.slots[handle.index as usize].payload.as_ref()
        } else {
            None
        }
    }

    /// The value under a live handle.
    pub fn borrow(&self, handle: Handle) -> (result: &T)
        requires
            self@.contains_key(handle),
        ensures
            *result == self@[handle],
    {
        match &self.slots[handle.index as usize].payload {
            Some(value) => value,
            None => vstd::pervasive::unreached(),
        }
    }

    /// The value under a live handle, for writing.
    pub fn borrow_mut(&mut self, handle: Handle) -> (result: &mut T)
        requires
            old(self).wf(),
            old(self)@.contains_key(handle),
        ensures
            *result == old(self)@[handle],
            final(self).wf(),
            final(self)@ == old(self)@.insert(handle, *final(result)),
            final(self).capacity() == old(self).capacity(),
            forall|h: Handle| final(self).issued(h) == old(self).issued(h),
    {
        match &mut self.slots[handle.index as usize].payload {
            Some(value) => value,
            None => vstd::pervasive::unreached(),
        }
    }

    /// The value under the handle, for writing, if it is live.
    pub fn try_borrow_mut(&mut self, handle: Handle) -> (result: Option<&mut T>)
        requires
            old(self).wf(),
        ensures
            final(self).wf(),
            final(self).capacity() == old(self).capacity(),
            forall|h: Handle| final(self).issued(h) == old(self).issued(h),
            result is Some <==> old(self)@.contains_key(handle),
            match result {
                Some(value) => *value == old(self)@[handle] && final(self)@ == old(self)@.insert(
                    handle,
                    *final(value),
                ),
                None => final(self)@ == old(self)@,
            },
    {
        if self.is_valid_handle(handle) {
            Some(self.borrow_mut(handle))
        } else {
            None
        }
    }

    /// Stores a value and hands out a handle that was never handed out before.
    pub fn spawn(&mut self, value: T) -> (result: Handle)
        requires
            old(self).wf(),
            old(self).capacity() < u32::MAX,
        ensures
            final(self).wf(),
            !old(self).issued(result),
            result != Handle::none(),
            final(self)@ == old(self)@.insert(result, value),
            forall|h: Handle| final(self).issued(h) == (old(self).issued(h) || h == result),
            old(self).capacity() <= final(self).capacity() <= old(self).capacity() + 1,
    {
        match self.free.pop() {
            Some(index) => {
                let generation: u32 = self.slots[index as usize].generation + 1;
                let result = Handle { index, generation };
                self.slots.set(index as usize, Slot { generation, payload: Some(value) });
                assert(self@ =~= old(self)@.insert(result, value));
                assert forall|k: int| 0 <= k < self.free@.len() implies self.free@[k] != index by {
                    assert(old(self).free@[k] == self.free@[k]);
                    assert(old(self).free@.last() == index);
                }
                result
            },
            None => {
                let index: u32 = self.slots.len() as u32;
                let result = Handle { index, generation: 1 };
                self.slots.push(Slot { generation: 1, payload: Some(value) });
                assert(self@ =~= old(self)@.insert(result, value));
                result
            },
        }
    }

    /// Takes the value out. Its handle is dead from then on.
    pub fn free(&mut self, handle: Handle) -> (result: Option<T>)
        requires
            old(self).wf(),
        ensures
            final(self).wf(),
            final(self)@ == old(self)@.remove(handle),
            result is Some <==> old(self)@.contains_key(handle),
            result matches Some(value) ==> value == old(self)@[handle],
            forall|h: Handle| final(self).issued(h) == old(self).issued(h),
            final(self).capacity() == old(self).capacity(),
    {
        if !self.is_valid_handle(handle) {
            assert(self@ =~= old(self)@.remove(handle));
            return None;
        }
        let mut slot = Slot { generation: handle.generation, payload: None };
        std::mem::swap(&mut slot, &mut self.slots[handle.index as usize]);
        if handle.generation < u32::MAX {
            self.free.push(handle.index);
        }
        assert(self@ =~= old(self)@.remove(handle));
        slot.payload
    }

    /// The live handles among the first `n` slots, by slot.
    closed spec fn order_to(&self, n: nat) -> Seq<Handle>
        decreases n,
    {
        if n == 0 {
            Seq::empty()
        } else {
            let before = self.order_to((n - 1) as nat);
            let slot = self.slots@[n - 1];
            if slot.payload is Some {
                before.push(Handle { index: (n - 1) as u32, generation: slot.generation })
            } else {
                before
            }
        }
    }

    /// The live handles in slot order.
    pub closed spec fn order(&self) -> Seq<Handle> {
        self.order_to(self.slots@.len())
    }

    proof fn lemma_order_to(&self, n: nat)
        requires
            self.wf(),
            n <= self.slots@.len(),
        ensures
            forall|h: Handle|
                #[trigger] self.order_to(n).contains(h) <==> self@.contains_key(h) && h.index < n,
            forall|i: int, j: int|
                0 <= i < j < self.order_to(n).len() ==> (#[trigger] self.order_to(n)[i]).index < (
                #[trigger] self.order_to(n)[j]).index,
        decreases n,
    {
        if n > 0 {
            let m = (n - 1) as nat;
            self.lemma_order_to(m);
            let before = self.order_to(m);
            let now = self.order_to(n);
            let slot = self.slots@[n - 1];
            let last = Handle { index: (n - 1) as u32, generation: slot.generation };
            assert forall|i: int| 0 <= i < before.len() implies (#[trigger] before[i]).index < m by {
                assert(before.contains(before[i]));
            }
            assert forall|h: Handle| #[trigger] now.contains(h) <==> self@.contains_key(h) && h.index
                < n by {
                if before.contains(h) {
                    let i = choose|i: int| 0 <= i < before.len() && before[i] == h;
                    assert(now[i] == h);
                }
                if now.contains(h) {
                    let i = choose|i: int| 0 <= i < now.len() && now[i] == h;
                    if i < before.len() {
                        assert(before[i] == h);
                    }
                }
                if slot.payload is Some {
                    assert(now[now.len() - 1] == last);
                }
            }
        }
    }

    /// Slot order lists each live handle once.
    pub proof fn lemma_order(&self)
        requires
            self.wf(),
        ensures
            forall|h: Handle| #[trigger] self.order().contains(h) <==> self@.contains_key(h),
            self.order().no_duplicates(),
            forall|i: int|
                0 <= i < self.order().len() ==> self@.contains_key(#[trigger] self.order()[i]),
    {
        self.lemma_order_to(self.slots@.len());
        assert forall|i: int| 0 <= i < self.order().len() implies self@.contains_key(
            #[trigger] self.order()[i],
        ) by {
            assert(self.order().contains(self.order()[i]));
        }
    }

    /// Slot order goes by slot: each handle is of a later slot than those before it.
    pub proof fn lemma_order_is_by_slot(&self, i: int, j: int)
        requires
            self.wf(),
            0 <= i < j < self.order().len(),
        ensures
            self.order()[i].index < self.order()[j].index,
    {
        self.lemma_order_to_is_by_slot(self.slots@.len(), i, j);
    }

    proof fn lemma_order_to_is_by_slot(&self, n: nat, i: int, j: int)
        requires
            n <= self.slots@.len() <= u32::MAX,
        ensures
            0 <= i < self.order_to(n).len() ==> self.order_to(n)[i].index < n,
            0 <= i < j < self.order_to(n).len() ==> self.order_to(n)[i].index < self.order_to(
                n,
            )[j].index,
        decreases n,
    {
        if n > 0 {
            self.lemma_order_to_is_by_slot((n - 1) as nat, i, j);
        }
    }

    /// A live handle was handed out, and `none` never was.
    pub proof fn lemma_live_is_issued(&self)
        requires
            self.wf(),
        ensures
            forall|h: Handle| #[trigger] self@.contains_key(h) ==> self.issued(h),
            !self@.contains_key(Handle::none()),
    {
    }

    /// The live handles, in slot order.
    pub fn handles(&self) -> (result: Vec<Handle>)
        requires
            self.wf(),
        ensures
            result@ == self.order(),
    {
        let mut result: Vec<Handle> = Vec::new();
        let mut i: usize = 0;
        while i < self.slots.len()
            invariant
                self.wf(),
                i <= self.slots@.len(),
                result@ == self.order_to(i as nat),
            decreases self.slots@.len() - i,
        {
            if self.slots[i].payload.is_some() {
                result.push(Handle { index: i as u32, generation: self.slots[i].generation });
            }
            i += 1;
        }
        result
    }

    /// How many values are live.
    pub fn alive_count(&self) -> (result: usize)
        requires
            self.wf(),
        ensures
            result == self.order().len(),
    {
        let handles = self.handles();
        handles.len()
    }

    /// How many slots there are, live or not.
    pub fn get_capacity(&self) -> (result: usize)
        ensures
            result == self.capacity(),
    {
        self.slots.len()
    }

    /// The generation of each slot.
    pub closed spec fn generation_list(&self) -> Seq<u32> {
        Seq::new(self.slots@.len(), |i: int| self.slots@[i].generation)
    }

    /// What is live and what was handed out can be told from the generations.
    pub proof fn lemma_generations(&self)
        requires
            self.wf(),
        ensures
            self.generation_list().len() == self.capacity(),
            self.capacity() <= u32::MAX,
            forall|i: int|
                0 <= i < self.capacity() ==> #[trigger] self.generation_list()[i] >= 1,
            forall|h: Handle| #[trigger]
                self@.contains_key(h) ==> h.index < self.capacity() && h.generation
                    == self.generation_list()[h.index as int],
            forall|h: Handle| #[trigger]
                self.issued(h) <==> h.index < self.capacity() && 1 <= h.generation
                    <= self.generation_list()[h.index as int],
    {
    }

    proof fn lemma_same_order_to(&self, other: &Self, n: nat)
        requires
            self.slots@.len() == other.slots@.len(),
            n <= self.slots@.len(),
            forall|i: int|
                0 <= i < self.slots@.len() ==> (#[trigger] self.slots@[i]).generation
                    == other.slots@[i].generation && (self.slots@[i].payload is Some
                    == other.slots@[i].payload is Some),
        ensures
            self.order_to(n) == other.order_to(n),
        decreases n,
    {
        if n > 0 {
            self.lemma_same_order_to(other, (n - 1) as nat);
            assert(self.slots@[n - 1].generation == other.slots@[n - 1].generation);
        }
    }

    /// Two pools that handed out the same handles, and in which the same ones are live, list them in
    /// the same order and have the same generations.
    pub proof fn lemma_same_layout(&self, other: &Self)
        requires
            self.wf(),
            other.wf(),
            self.capacity() == other.capacity(),
            forall|h: Handle| other.issued(h) == self.issued(h),
            other@.dom() == self@.dom(),
        ensures
            other.order() == self.order(),
            other.generation_list() == self.generation_list(),
    {
        assert forall|i: int| 0 <= i < self.slots@.len() implies (#[trigger] self.slots@[i]).generation
            == other.slots@[i].generation && (self.slots@[i].payload is Some
            == other.slots@[i].payload is Some) by {
            let mine = Handle { index: i as u32, generation: self.slots@[i].generation };
            let theirs = Handle { index: i as u32, generation: other.slots@[i].generation };
            assert(self.issued(mine));
            assert(other.issued(mine));
            assert(other.issued(theirs));
            assert(self.issued(theirs));
            assert(self.slots@[i].generation == other.slots@[i].generation);
            assert(other@.dom().contains(mine) == self@.dom().contains(mine));
            assert(other@.contains_key(mine) == other.holds(mine));
            assert(self@.contains_key(mine) == self.holds(mine));
        }
        self.lemma_same_order_to(other, self.slots@.len());
        assert(other.generation_list() =~= self.generation_list());
    }

    /// The generation of each slot, for saving.
    pub fn generations(&self) -> (result: Vec<u32>)
        ensures
            result@ == self.generation_list(),
    {
        let mut result: Vec<u32> = Vec::new();
        let mut i: usize = 0;
        while i < self.slots.len()
            invariant
                i <= self.slots@.len(),
                result@ == self.generation_list().take(i as int),
            decreases self.slots@.len() - i,
        {
            result.push(self.slots[i].generation);
            i += 1;
            assert(result@ =~= self.generation_list().take(i as int));
        }
        assert(result@ =~= self.generation_list());
        result
    }

    /// A pool with these slots. Handles mean in it what they meant in the pool that was saved.
    pub fn restore(generations: &Vec<u32>, values: Vec<Option<T>>) -> (result: Self)
        requires
            generations@.len() == values@.len(),
            generations@.len() <= u32::MAX,
            forall|i: int| 0 <= i < generations@.len() ==> #[trigger] generations@[i] >= 1,
        ensures
            result.wf(),
            result.generation_list() == generations@,
            result.capacity() == generations@.len(),
            forall|h: Handle| #[trigger]
                result@.contains_key(h) <==> {
                    &&& h.index < generations@.len()
                    &&& h.generation == generations@[h.index as int]
                    &&& values@[h.index as int] is Some
                },
            forall|h: Handle| #[trigger]
                result@.contains_key(h) ==> Some(result@[h]) == values@[h.index as int],
    {
        let ghost given = values@;
        let mut values = values;
        let mut slots: Vec<Slot<T>> = Vec::new();
        let mut free: Vec<u32> = Vec::new();
        let mut i: usize = 0;
        while i < generations.len()
            invariant
                i <= generations@.len(),
                generations@.len() == given.len(),
                values@.len() == given.len(),
                generations@.len() <= u32::MAX,
                forall|j: int| 0 <= j < generations@.len() ==> #[trigger] generations@[j] >= 1,
                forall|j: int| i <= j < given.len() ==> #[trigger] values@[j] == given[j],
                slots@.len() == i,
                forall|j: int|
                    0 <= j < i ==> (#[trigger] slots@[j]).generation == generations@[j]
                        && slots@[j].payload == given[j],
                forall|k: int|
                    0 <= k < free@.len() ==> {
                        &&& (#[trigger] free@[k]) < i
                        &&& given[free@[k] as int] is None
                        &&& generations@[free@[k] as int] < u32::MAX
                    },
                free@.no_duplicates(),
            decreases generations@.len() - i,
        {
            let generation: u32 = generations[i];
            let mut payload: Option<T> = None;
            std::mem::swap(&mut payload, &mut values[i]);
            if payload.is_none() && generation < u32::MAX {
                free.push(i as u32);
            }
            slots.push(Slot { generation, payload });
            i += 1;
        }
        let result = Pool { slots, free };
        assert(result.generation_list() =~= generations@);
        result
    }
}

} // verus!
