//! The memory universe: arrays of 32-bit words keyed by 32-bit identifiers.
//!
//! Identifier zero is the program array and is active for the whole life of
//! the machine. Non-zero identifiers are handed out by `allocate` and taken back
//! by `free`. The store is a dense table indexed by identifier, fused with a
//! free list of released identifiers and a high-water mark (the table length),
//! so that allocation and release cost amortised constant time and an
//! identifier that is currently active is never handed out again.

use vstd::prelude::*;
use vstd::pervasive::VecAdditionalExecFns;

verus! {

/// The ways a memory operation fails. The executor tags each fault with the
/// opcode that raised it when it reports a trap.
#[derive(Clone, Copy, Debug, PartialEq, Eq, Structural)]
pub enum MemFault {
    /// The named identifier is not active.
    InactiveArray,
    /// The offset points past the end of the named array.
    OffsetOutOfRange,
    /// An attempt to free identifier zero, the program array.
    FreeProgramArray,
    /// An attempt to free a non-zero identifier that is not active.
    DoubleFree,
    /// Every non-zero identifier is active, so none can be handed out.
    IdSpaceExhausted,
}

/// How many of the slots hold an array.
spec fn count_some(s: Seq<Option<Vec<u32>>>) -> nat
    decreases s.len(),
{
    if s.len() == 0 {
        0
    } else {
        count_some(s.drop_last()) + (if s.last() is Some {
            1nat
        } else {
            0nat
        })
    }
}

proof fn lemma_count_some_update(s: Seq<Option<Vec<u32>>>, i: int, x: Option<Vec<u32>>)
    requires
        0 <= i < s.len(),
    ensures
        count_some(s.update(i, x)) + (if s[i] is Some {
            1nat
        } else {
            0nat
        }) == count_some(s) + (if x is Some {
            1nat
        } else {
            0nat
        }),
    decreases s.len(),
{
    let t = s.update(i, x);
    if i == s.len() - 1 {
        assert(t.drop_last() =~= s.drop_last());
    } else {
        assert(t.drop_last() =~= s.drop_last().update(i, x));
        lemma_count_some_update(s.drop_last(), i, x);
    }
}

proof fn lemma_count_some_push(s: Seq<Option<Vec<u32>>>, x: Option<Vec<u32>>)
    ensures
        count_some(s.push(x)) == count_some(s) + (if x is Some {
            1nat
        } else {
            0nat
        }),
{
    assert(s.push(x).drop_last() =~= s);
}

/// A sequence of `n` zero words: the contents of a freshly allocated array.
pub open spec fn zero_seq(n: nat) -> Seq<u32> {
    Seq::new(n, |i: int| 0u32)
}

/// A vector of `n` zero words.
fn zero_words(n: u32) -> (v: Vec<u32>)
    ensures
        v@ == zero_seq(n as nat),
{
    let mut v: Vec<u32> = Vec::new();
    let mut i: u32 = 0;
    while i < n
        invariant
            i <= n,
            v@.len() == i as nat,
            forall|k: int| 0 <= k < i ==> v@[k] == 0u32,
        decreases n - i,
    {
        v.push(0);
        i = i + 1;
    }
    proof {
        assert(v@ =~= zero_seq(n as nat));
    }
    v
}

/// A copy of `src`, word for word.
fn copy_words(src: &Vec<u32>) -> (v: Vec<u32>)
    ensures
        v@ == src@,
{
    let mut v: Vec<u32> = Vec::new();
    let mut i: usize = 0;
    while i < src.len()
        invariant
            i <= src@.len(),
            v@ =~= src@.subrange(0, i as int),
        decreases src@.len() - i,
    {
        v.push(src[i]);
        i = i + 1;
    }
    proof {
        assert(v@ =~= src@);
    }
    v
}

/// A mutable borrow of the slot at `i`.
fn slot_mut(arrays: &mut Vec<Option<Vec<u32>>>, i: usize) -> (el: &mut Option<Vec<u32>>)
    requires
        i < old(arrays).len(),
    ensures
        *el == old(arrays)@[i as int],
        final(arrays)@ == old(arrays)@.update(i as int, *final(el)),
{
    &mut arrays[i]
}

/// The memory universe. `arrays[id]` holds the array bound to `id`, or
/// nothing when `id` is inactive; `free_ids` lists exactly the inactive
/// identifiers below the table length, each once.
#[derive(Debug)]
pub struct Memory {
    arrays: Vec<Option<Vec<u32>>>,
    free_ids: Vec<u32>,
}

impl Memory {
    /// Identifier `id` is bound to an array.
    pub closed spec fn active(self, id: u32) -> bool {
        id < self.arrays@.len() && self.arrays@[id as int] is Some
    }

    /// The words of the array bound to `id`.
    pub closed spec fn arr(self, id: u32) -> Seq<u32>
        recommends
            self.active(id),
    {
        self.arrays@[id as int].unwrap()@
    }

    /// How many non-zero identifiers are active.
    pub closed spec fn n_allocated(self) -> nat {
        count_some(self.arrays@.skip(1))
    }

    /// The structural invariant: array zero exists, the table never outgrows
    /// the identifier space, and the free list holds exactly the inactive
    /// slots below the table length, without repetition.
    pub closed spec fn wf(self) -> bool {
        &&& 1 <= self.arrays@.len() <= 0x1_0000_0000
        &&& self.arrays@[0] is Some
        &&& (forall|j: int|
            0 <= j < self.free_ids@.len() ==> #[trigger] self.free_ids@[j] != 0
                && (self.free_ids@[j] as int) < self.arrays@.len() && self.arrays@[self.free_ids@[j] as int] is None)
        &&& (forall|j: int, k: int|
            0 <= j < self.free_ids@.len() && 0 <= k < self.free_ids@.len() && j != k
                ==> #[trigger] self.free_ids@[j] != #[trigger] self.free_ids@[k])
        &&& (forall|i: int|
            1 <= i < self.arrays@.len() && #[trigger] self.arrays@[i] is None
                ==> self.free_ids@.contains(i as u32))
        &&& self.free_ids@.len() + count_some(self.arrays@.skip(1)) == self.arrays@.len() - 1
    }

    /// Array zero is active whenever the invariant holds.
    pub proof fn lemma_zero_active(self)
        requires
            self.wf(),
        ensures
            self.active(0),
    {
    }

    /// A fresh universe whose array zero holds `program` and where no
    /// non-zero identifier is active.
    pub fn new(program: Vec<u32>) -> (m: Memory)
        ensures
            m.wf(),
            m.arr(0) == program@,
            forall|id: u32| id != 0 ==> !m.active(id),
            m.n_allocated() == 0,
    {
        let mut arrays: Vec<Option<Vec<u32>>> = Vec::new();
        arrays.push(Some(program));
        let m = Memory { arrays, free_ids: Vec::new() };
        proof {
            assert(m.arrays@.skip(1) =~= Seq::<Option<Vec<u32>>>::empty());
        }
        m
    }

    /// The word at `off` in the array bound to `id`; exactly the inactive
    /// identifiers and the offsets past the end fail.
    pub fn read(&self, id: u32, off: usize) -> (r: Result<u32, MemFault>)
        requires
            self.wf(),
        ensures
            r is Ok <==> self.active(id) && (off as int) < self.arr(id).len(),
            r is Ok ==> self.arr(id).len() <= usize::MAX,
            r matches Ok(w) ==> w == self.arr(id)[off as int],
            r matches Err(t) ==> {
                &&& (t == MemFault::InactiveArray <==> !self.active(id))
                &&& (t == MemFault::OffsetOutOfRange <==> self.active(id) && (off as int)
                    >= self.arr(id).len())
            },
    {
        if (id as usize) < self.arrays.len() {
            match &self.arrays[id as usize] {
                Some(a) => {
                    if off < a.len() {
                        Ok(a[off])
                    } else {
                        Err(MemFault::OffsetOutOfRange)
                    }
                },
                None => Err(MemFault::InactiveArray),
            }
        } else {
            Err(MemFault::InactiveArray)
        }
    }

    /// The length of the array bound to `id`, or nothing when `id` is inactive.
    pub fn array_len(&self, id: u32) -> (r: Option<usize>)
        requires
            self.wf(),
        ensures
            r is Some <==> self.active(id),
            r matches Some(n) ==> n == self.arr(id).len(),
    {
        if (id as usize) < self.arrays.len() {
            match &self.arrays[id as usize] {
                Some(a) => Some(a.len()),
                None => None,
            }
        } else {
            None
        }
    }

    /// Hands out an inactive non-zero identifier and binds it to a fresh
    /// zero-filled array of `n` words; fails exactly when every non-zero
    /// identifier is already active.
    pub fn allocate(&mut self, n: u32) -> (r: Result<u32, MemFault>)
        requires
            old(self).wf(),
        ensures
            final(self).wf(),
            r is Ok <==> !(forall|id: u32| id != 0 ==> old(self).active(id)),
            r matches Ok(id) ==> {
                &&& id != 0
                &&& !old(self).active(id)
                &&& final(self).active(id)
                &&& final(self).arr(id) == zero_seq(n as nat)
                &&& (forall|other: u32|
                    other != id ==> (#[trigger] final(self).active(other) <==> old(self).active(
                        other,
                    )))
                &&& (forall|other: u32|
                    other != id && old(self).active(other) ==> #[trigger] final(self).arr(other)
                        == old(self).arr(other))
                &&& final(self).n_allocated() == old(self).n_allocated() + 1
            },
            r matches Err(t) ==> t == MemFault::IdSpaceExhausted && *final(self) == *old(self),
    {
        let fresh = zero_words(n);
        if self.free_ids.len() > 0 {
            let id = match self.free_ids.pop() {
                Some(id) => id,
                None => {
                    proof {
                        assert(false);
                    }
                    0
                },
            };
            proof {
                let fl = old(self).free_ids@;
                assert(fl[fl.len() - 1] != 0);
                assert(!old(self).active(id));
                lemma_count_some_update(old(self).arrays@.skip(1), id - 1, Some(fresh));
                assert(old(self).arrays@.update(id as int, Some(fresh)).skip(1)
                    =~= old(self).arrays@.skip(1).update(id - 1, Some(fresh)));
            }
            self.arrays.set(id as usize, Some(fresh));
            proof {
                let fl = old(self).free_ids@;
                assert forall|i: int|
                    1 <= i < self.arrays@.len() && #[trigger] self.arrays@[i] is None
                        implies self.free_ids@.contains(i as u32) by {
                    assert(old(self).arrays@[i] is None);
                    let j = choose|j: int| 0 <= j < fl.len() && fl[j] == i as u32;
                    assert(j < fl.len() - 1);
                    assert(self.free_ids@[j] == i as u32);
                }
            }
            Ok(id)
        } else if self.arrays.len() <= (u32::MAX as usize) {
            let id = self.arrays.len() as u32;
            proof {
                assert(!old(self).active(id));
                lemma_count_some_push(old(self).arrays@.skip(1), Some(fresh));
                assert(old(self).arrays@.push(Some(fresh)).skip(1) =~= old(self).arrays@.skip(
                    1,
                ).push(Some(fresh)));
            }
            self.arrays.push(Some(fresh));
            Ok(id)
        } else {
            proof {
                assert forall|id: u32| id != 0 implies old(self).active(id) by {
                    assert(old(self).arrays@[id as int] is Some);
                }
            }
            Err(MemFault::IdSpaceExhausted)
        }
    }

    /// Releases an active non-zero identifier; freeing identifier zero or an
    /// identifier that is not active fails, and says which happened.
    pub fn free(&mut self, id: u32) -> (r: Result<(), MemFault>)
        requires
            old(self).wf(),
        ensures
            final(self).wf(),
            r is Ok <==> id != 0 && old(self).active(id),
            r is Ok ==> {
                &&& !final(self).active(id)
                &&& (forall|other: u32|
                    other != id ==> (#[trigger] final(self).active(other) <==> old(self).active(
                        other,
                    )))
                &&& (forall|other: u32|
                    other != id && old(self).active(other) ==> #[trigger] final(self).arr(other)
                        == old(self).arr(other))
                &&& final(self).n_allocated() == old(self).n_allocated() - 1
            },
            r matches Err(t) ==> {
                &&& *final(self) == *old(self)
                &&& (t == MemFault::FreeProgramArray <==> id == 0)
                &&& (t == MemFault::DoubleFree <==> id != 0 && !old(self).active(id))
            },
    {
        if id == 0 {
            return Err(MemFault::FreeProgramArray);
        }
        if (id as usize) >= self.arrays.len() {
            return Err(MemFault::DoubleFree);
        }
        match &self.arrays[id as usize] {
            Some(_) => {},
            None => {
                return Err(MemFault::DoubleFree);
            },
        }
        proof {
            lemma_count_some_update(old(self).arrays@.skip(1), id - 1, None);
            assert(old(self).arrays@.update(id as int, None::<Vec<u32>>).skip(1)
                =~= old(self).arrays@.skip(1).update(id - 1, None::<Vec<u32>>));
        }
        self.arrays.set(id as usize, None);
        self.free_ids.push(id);
        proof {
            let fl = old(self).free_ids@;
            assert forall|i: int|
                1 <= i < self.arrays@.len() && #[trigger] self.arrays@[i] is None
                    implies self.free_ids@.contains(i as u32) by {
                if i == id as int {
                    assert(self.free_ids@[fl.len() as int] == id);
                } else {
                    assert(old(self).arrays@[i] is None);
                    let j = choose|j: int| 0 <= j < fl.len() && fl[j] == i as u32;
                    assert(self.free_ids@[j] == i as u32);
                }
            }
        }
        Ok(())
    }

    /// Stores `w` at `off` in the array bound to `id`; exactly the inactive
    /// identifiers and the offsets past the end fail, and a failing store
    /// leaves the universe untouched.
    pub fn write(&mut self, id: u32, off: usize, w: u32) -> (r: Result<(), MemFault>)
        requires
            old(self).wf(),
        ensures
            final(self).wf(),
            r is Ok <==> old(self).active(id) && (off as int) < old(self).arr(id).len(),
            r is Ok ==> {
                &&& final(self).arr(id) == old(self).arr(id).update(off as int, w)
                &&& (forall|other: u32|
                    (#[trigger] final(self).active(other) <==> old(self).active(other)))
                &&& (forall|other: u32|
                    other != id && old(self).active(other) ==> #[trigger] final(self).arr(other)
                        == old(self).arr(other))
                &&& final(self).n_allocated() == old(self).n_allocated()
            },
            r matches Err(t) ==> {
                &&& *final(self) == *old(self)
                &&& (t == MemFault::InactiveArray <==> !old(self).active(id))
                &&& (t == MemFault::OffsetOutOfRange <==> old(self).active(id) && (off as int)
                    >= old(self).arr(id).len())
            },
    {
        if (id as usize) >= self.arrays.len() {
            return Err(MemFault::InactiveArray);
        }
        let len: usize;
        match &self.arrays[id as usize] {
            Some(a) => {
                len = a.len();
            },
            None => {
                return Err(MemFault::InactiveArray);
            },
        }
        if off >= len {
            return Err(MemFault::OffsetOutOfRange);
        }
        let slot = slot_mut(&mut self.arrays, id as usize);
        match slot {
            Some(a) => {
                a.set(off, w);
            },
            None => {},
        }
        proof {
            if id != 0 {
                lemma_count_some_update(old(self).arrays@.skip(1), id - 1, self.arrays@[id as int]);
                assert(self.arrays@.skip(1) =~= old(self).arrays@.skip(1).update(
                    id - 1,
                    self.arrays@[id as int],
                ));
            } else {
                assert(self.arrays@.skip(1) =~= old(self).arrays@.skip(1));
            }
            assert(self.free_ids@ == old(self).free_ids@);
        }
        Ok(())
    }

    /// Replaces array zero with a copy of the array bound to `id`; with `id`
    /// zero the universe is left untouched. The copy is a snapshot: later
    /// stores to the source array do not reach array zero.
    pub fn load_program(&mut self, id: u32) -> (r: Result<(), MemFault>)
        requires
            old(self).wf(),
        ensures
            final(self).wf(),
            r is Ok <==> id == 0 || old(self).active(id),
            id == 0 ==> *final(self) == *old(self),
            r is Ok && id != 0 ==> {
                &&& final(self).arr(0) == old(self).arr(id)
                &&& (forall|other: u32|
                    (#[trigger] final(self).active(other) <==> old(self).active(other)))
                &&& (forall|other: u32|
                    other != 0 && old(self).active(other) ==> #[trigger] final(self).arr(other)
                        == old(self).arr(other))
                &&& final(self).n_allocated() == old(self).n_allocated()
            },
            r matches Err(t) ==> t == MemFault::InactiveArray && *final(self) == *old(self),
    {
        if id == 0 {
            return Ok(());
        }
        if (id as usize) >= self.arrays.len() {
            return Err(MemFault::InactiveArray);
        }
        let copy: Vec<u32>;
        match &self.arrays[id as usize] {
            Some(a) => {
                copy = copy_words(a);
            },
            None => {
                return Err(MemFault::InactiveArray);
            },
        }
        proof {
            assert(old(self).arrays@.update(0, Some(copy)).skip(1) =~= old(self).arrays@.skip(1));
        }
        self.arrays.set(0, Some(copy));
        Ok(())
    }

    /// As long as fewer than 2^32 - 1 non-zero identifiers are active, some
    /// non-zero identifier is inactive, so `allocate` is owed success.
    pub proof fn lemma_alloc_available(self)
        requires
            self.wf(),
            self.n_allocated() < 0xFFFF_FFFFnat,
        ensures
            exists|id: u32| id != 0 && !self.active(id),
    {
        if forall|id: u32| id != 0 ==> #[trigger] self.active(id) {
            assert(self.arrays@.len() == 0x1_0000_0000) by {
                assert(self.active(0xFFFF_FFFFu32));
            }
            assert(self.free_ids@.len() == 0) by {
                if self.free_ids@.len() > 0 {
                    let id = self.free_ids@[0];
                    assert(self.active(id));
                    assert(false);
                }
            }
            assert(self.n_allocated() == 0xFFFF_FFFFnat);
            assert(false);
        }
        assert(!(forall|id: u32| id != 0 ==> #[trigger] self.active(id)));
    }

    /// Round trip: after a store of `w` at `off` in the array of an active
    /// identifier — `write`'s contract says the array is the old one with
    /// `off` updated — a read of the same place returns `w`.
    pub proof fn lemma_write_read_round_trip(m1: Memory, m2: Memory, id: u32, off: int, w: u32)
        requires
            0 <= off < m1.arr(id).len(),
            m2.arr(id) == m1.arr(id).update(off, w),
        ensures
            m2.arr(id)[off] == w,
    {
    }

    /// A program loaded from a non-zero array is a snapshot: a later store to
    /// the source array — which by `write`'s contract leaves array zero alone
    /// — does not reach the loaded code.
    pub proof fn lemma_load_program_snapshot(m1: Memory, m2: Memory, m3: Memory, id: u32)
        requires
            id != 0,
            m2.arr(0) == m1.arr(id),
            m3.arr(0) == m2.arr(0),
        ensures
            m3.arr(0) == m1.arr(id),
    {
    }

    /// How many non-zero identifiers are active.
    pub fn allocated_count(&self) -> (n: usize)
        requires
            self.wf(),
        ensures
            n == self.n_allocated(),
    {
        self.arrays.len() - 1 - self.free_ids.len()
    }
}

} // verus!
