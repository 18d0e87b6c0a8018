//! The host's array primitives.

use vstd::prelude::*;
use super::model::{
    holes, lemma_holes, lemma_invalid_unreferenced, lemma_occurrences_concat,
    lemma_occurrences_member, lemma_occurrences_push, lemma_occurrences_remove,
    lemma_occurrences_update, lemma_slot_is_live, lemma_stored_slots, lemma_fewer_refs, lemma_swap_thing,
    lemma_trimmed, occurrences, slot_at, stored_slots, thing_count, thing_wf, trimmed, Object,
    Thing, World, AV_MAX_INDEX,
};
use super::{Body, Interpreter};

verus! {

fn slots_store(slots: &mut Vec<Option<usize>>, k: usize, sv: usize) -> (was: Option<usize>)
    ensures
        final(slots)@ == stored_slots(old(slots)@, k as int, sv),
        was == slot_at(old(slots)@, k as int),
{
    if k < slots.len() {
        let was = slots[k];
        slots[k] = Some(sv);
        was
    } else {
        while slots.len() < k
            invariant
                old(slots)@.len() <= slots@.len() <= k,
                slots@ == old(slots)@ + holes((slots@.len() - old(slots)@.len()) as nat),
            decreases k - slots@.len(),
        {
            slots.push(None);
            assert(slots@ =~= old(slots)@ + holes((slots@.len() - old(slots)@.len()) as nat));
        }
        slots.push(Some(sv));
        None
    }
}

fn slots_trim(slots: &mut Vec<Option<usize>>)
    ensures
        final(slots)@ == trimmed(old(slots)@),
{
    while slots.len() > 0 && slots[slots.len() - 1].is_none()
        invariant
            trimmed(slots@) == trimmed(old(slots)@),
        decreases slots@.len(),
    {
        slots.pop();
    }
}

fn slots_unshift(slots: &mut Vec<Option<usize>>, n: usize)
    ensures
        final(slots)@ == holes(n as nat) + old(slots)@,
{
    let mut i: usize = 0;
    assert(slots@ =~= holes(0) + old(slots)@);
    while i < n
        invariant
            i <= n,
            slots@ == holes(i as nat) + old(slots)@,
        decreases n - i,
    {
        slots.insert(0, None);
        i += 1;
        assert(slots@ =~= holes(i as nat) + old(slots)@);
    }
}

impl Interpreter {
    /// A new, empty array.
    pub fn new_av(&mut self) -> (p: usize)
        requires
            old(self)@.wf(),
            old(self)@.objs.len() < usize::MAX,
        ensures
            p == old(self)@.objs.len(),
            final(self)@ == old(self)@.with_new(Thing::Array(Seq::empty())),
            final(self)@.wf(),
            old(self)@.loose_moved(final(self)@, p, 1),
    {
        let slots: Vec<Option<usize>> = Vec::new();
        proof {
            assert forall|q: usize| thing_count(Thing::Array(slots@), q) == 0 by {}
        }
        self.alloc_plain(Body::Array(slots))
    }

    /// The index of the last slot of the array at `av`; -1 where it has none.
    pub fn av_len(&self, av: usize) -> (top: isize)
        requires
            self@.wf(),
            self@.is_array(av),
        ensures
            top == self@.array(av).len() - 1,
    {
        assert(thing_wf(self@.objs[av as int].thing));
        match &self.heap[av].body {
            Body::Array(slots) => slots.len() as isize - 1,
            _ => -1,
        }
    }

    /// What the slot at index `key` of the array at `av` holds.
    pub fn av_fetch(&self, av: usize, key: isize) -> (slot: Option<usize>)
        requires
            self@.wf(),
            self@.is_array(av),
        ensures
            slot == slot_at(self@.array(av), key as int),
            slot is Some ==> self@.live(slot->Some_0),
    {
        let slot = match &self.heap[av].body {
            Body::Array(slots) => {
                if 0 <= key && (key as usize) < slots.len() {
                    slots[key as usize]
                } else {
                    None
                }
            },
            _ => None,
        };
        proof {
            if slot is Some {
                lemma_slot_is_live(self@, av, key as int);
            }
        }
        slot
    }

    /// Whether the slot at index `key` of the array at `av` is populated.
    pub fn av_exists(&self, av: usize, key: isize) -> (b: bool)
        requires
            self@.wf(),
            self@.is_array(av),
        ensures
            b == slot_at(self@.array(av), key as int) is Some,
    {
        self.av_fetch(av, key).is_some()
    }

    /// Puts `sv` at index `key` of the array at `av`, which takes over
    /// one unit of `sv` that nobody accounted for; what the slot held
    /// loses its unit. Refuses, and changes nothing, where `key` is below
    /// zero or beyond the highest index of the machine.
    pub fn av_store(&mut self, av: usize, key: isize, sv: usize) -> (stored: bool)
        requires
            old(self)@.wf(),
            old(self)@.is_array(av),
            old(self)@.valid(sv),
            old(self)@.loose(sv) >= 1,
        ensures
            stored == (0 <= key <= AV_MAX_INDEX),
            stored ==> final(self)@ == old(self)@.av_stored(av, key as int, sv),
            !stored ==> final(self)@ == old(self)@,
            final(self)@.wf(),
            old(self)@.loose_moved(
                final(self)@,
                sv,
                if stored {
                    -1int
                } else {
                    0int
                },
            ),
    {
        if key < 0 || key > AV_MAX_INDEX {
            return false;
        }
        let k = key as usize;
        let was = match &mut self.heap[av].body {
            Body::Array(slots) => slots_store(slots, k, sv),
            _ => None,
        };
        proof {
            let w = old(self)@;
            let s = w.array(av);
            let s2 = stored_slots(s, k as int, sv);
            let w1 = w.with_thing(av, Thing::Array(s2));
            assert(self@.objs =~= w1.objs);
            assert(thing_wf(w.objs[av as int].thing));
            assert forall|q: usize|
                #![trigger occurrences(s2, Some(q))]
                occurrences(s2, Some(q)) + if slot_at(s, k as int) == Some(q) {
                    1nat
                } else {
                    0nat
                } == occurrences(s, Some(q)) + if sv == q {
                    1nat
                } else {
                    0nat
                } by {
                lemma_stored_slots(s, k as int, sv, q);
            }
            lemma_stored_slots(s, k as int, sv, sv);
            assert forall|q: usize| q >= w.objs.len() implies thing_count(Thing::Array(s2), q)
                == 0 by {
                lemma_invalid_unreferenced(w, av, q);
            }
            assert forall|q: usize| q < w.objs.len() implies w.loose(q) + thing_count(
                w.objs[av as int].thing,
                q,
            ) - thing_count(Thing::Array(s2), q) >= 0 by {
                assert(w.loose(q) >= 0);
            }
            lemma_swap_thing(w, av, Thing::Array(s2));
            if was is Some {
                lemma_slot_is_live(w, av, k as int);
            }
        }
        match was {
            Some(e) => {
                proof {
                    let w1 = self@;
                    assert(w1.loose(e) >= 1);
                }
                self.sv_refcnt_dec(e);
            },
            None => {},
        }
        true
    }

    /// Empties the slot at index `key` of the array at `av` and hands out
    /// what it held, together with its unit, which nobody accounts for
    /// from then on. The array then ends at its last populated slot.
    pub fn av_delete(&mut self, av: usize, key: isize) -> (was: Option<usize>)
        requires
            old(self)@.wf(),
            old(self)@.is_array(av),
        ensures
            was == slot_at(old(self)@.array(av), key as int),
            final(self)@ == old(self)@.av_deleted(av, key as int),
            final(self)@.wf(),
            was is Some ==> old(self)@.loose_moved(final(self)@, was->Some_0, 1),
            was is None ==> old(self)@.loose_kept(final(self)@),
            was is Some ==> old(self)@.live(was->Some_0),
    {
        let was = self.av_fetch(av, key);
        if was.is_none() {
            return None;
        }
        let k = key as usize;
        match &mut self.heap[av].body {
            Body::Array(slots) => {
                slots[k] = None;
                slots_trim(slots);
            },
            _ => {},
        }
        proof {
            let w = old(self)@;
            let s = w.array(av);
            let s1 = s.update(k as int, None);
            let s2 = trimmed(s1);
            self.lemma_array_swapped(w, av, s2);
            assert(thing_wf(w.objs[av as int].thing));
            assert forall|q: usize|
                #![trigger occurrences(s2, Some(q))]
                occurrences(s2, Some(q)) + if was == Some(q) {
                    1nat
                } else {
                    0nat
                } == occurrences(s, Some(q)) by {
                lemma_trimmed(s1, q);
                lemma_occurrences_update(s, k as int, None, Some(q));
            }
            lemma_trimmed(s1, 0);
            lemma_fewer_refs(w, av, s2);
        }
        was
    }

    /// Takes the last slot off the array at `av` and hands out what it
    /// held, together with its unit. The array then ends at its last
    /// populated slot. An empty array gives nothing.
    pub fn av_pop(&mut self, av: usize) -> (was: Option<usize>)
        requires
            old(self)@.wf(),
            old(self)@.is_array(av),
        ensures
            was == if old(self)@.array(av).len() > 0 {
                old(self)@.array(av).last()
            } else {
                None
            },
            old(self)@.array(av).len() > 0 ==> was is Some,
            final(self)@ == old(self)@.av_popped(av),
            final(self)@.wf(),
            was is Some ==> old(self)@.loose_moved(final(self)@, was->Some_0, 1),
            was is None ==> old(self)@.loose_kept(final(self)@),
            was is Some ==> old(self)@.live(was->Some_0),
    {
        let top = self.av_len(av);
        if top < 0 {
            return None;
        }
        proof {
            assert(thing_wf(old(self)@.objs[av as int].thing));
            lemma_slot_is_live(old(self)@, av, top as int);
        }
        let was = match &mut self.heap[av].body {
            Body::Array(slots) => {
                let was = slots.pop();
                slots_trim(slots);
                match was {
                    Some(slot) => slot,
                    None => None,
                }
            },
            _ => None,
        };
        proof {
            let w = old(self)@;
            let s = w.array(av);
            let s1 = s.drop_last();
            let s2 = trimmed(s1);
            self.lemma_array_swapped(w, av, s2);
            assert forall|q: usize|
                #![trigger occurrences(s2, Some(q))]
                occurrences(s2, Some(q)) + if was == Some(q) {
                    1nat
                } else {
                    0nat
                } == occurrences(s, Some(q)) by {
                lemma_trimmed(s1, q);
                lemma_occurrences_remove(s, s.len() - 1, Some(q));
                assert(s.remove(s.len() - 1) =~= s1);
            }
            lemma_trimmed(s1, 0);
            lemma_fewer_refs(w, av, s2);
        }
        was
    }

    /// Takes the first slot off the array at `av` and hands out what it
    /// held, together with its unit. An empty array, and an unpopulated
    /// first slot, give nothing.
    pub fn av_shift(&mut self, av: usize) -> (was: Option<usize>)
        requires
            old(self)@.wf(),
            old(self)@.is_array(av),
        ensures
            was == slot_at(old(self)@.array(av), 0),
            final(self)@ == old(self)@.av_shifted(av),
            final(self)@.wf(),
            was is Some ==> old(self)@.loose_moved(final(self)@, was->Some_0, 1),
            was is None ==> old(self)@.loose_kept(final(self)@),
            was is Some ==> old(self)@.live(was->Some_0),
    {
        let top = self.av_len(av);
        if top < 0 {
            return None;
        }
        let was = match &mut self.heap[av].body {
            Body::Array(slots) => slots.remove(0),
            _ => None,
        };
        proof {
            let w = old(self)@;
            let s = w.array(av);
            let s2 = s.drop_first();
            assert(s.remove(0) =~= s2);
            self.lemma_array_swapped(w, av, s2);
            assert(thing_wf(w.objs[av as int].thing));
            assert forall|q: usize|
                #![trigger occurrences(s2, Some(q))]
                occurrences(s2, Some(q)) + if was == Some(q) {
                    1nat
                } else {
                    0nat
                } == occurrences(s, Some(q)) by {
                lemma_occurrences_remove(s, 0, Some(q));
            }
            if s2.len() > 0 {
                assert(s2.last() == s.last());
            }
            lemma_fewer_refs(w, av, s2);
            if was is Some {
                lemma_slot_is_live(w, av, 0);
            }
        }
        was
    }

    /// Appends `sv` to the array at `av`, which takes over one unit of
    /// `sv` that nobody accounted for.
    pub fn av_push(&mut self, av: usize, sv: usize)
        requires
            old(self)@.wf(),
            old(self)@.is_array(av),
            old(self)@.array(av).len() <= AV_MAX_INDEX,
            old(self)@.valid(sv),
            old(self)@.loose(sv) >= 1,
        ensures
            final(self)@ == old(self)@.av_pushed(av, sv),
            final(self)@.wf(),
            old(self)@.loose_moved(final(self)@, sv, -1),
    {
        match &mut self.heap[av].body {
            Body::Array(slots) => {
                slots.push(Some(sv));
            },
            _ => {},
        }
        proof {
            let w = old(self)@;
            let s = w.array(av);
            let s2 = s.push(Some(sv));
            self.lemma_array_swapped(w, av, s2);
            assert forall|q: usize|
                #![trigger occurrences(s2, Some(q))]
                occurrences(s2, Some(q)) == occurrences(s, Some(q)) + if sv == q {
                    1nat
                } else {
                    0nat
                } by {
                lemma_occurrences_push(s, Some(sv), Some(q));
            }
            assert forall|q: usize| q >= w.objs.len() implies thing_count(Thing::Array(s2), q)
                == 0 by {
                lemma_invalid_unreferenced(w, av, q);
            }
            assert forall|q: usize| q < w.objs.len() implies w.loose(q) + thing_count(
                w.objs[av as int].thing,
                q,
            ) - thing_count(Thing::Array(s2), q) >= 0 by {
                assert(w.loose(q) >= 0);
            }
            lemma_swap_thing(w, av, Thing::Array(s2));
        }
    }

    /// Puts `n` unpopulated slots in front of the array at `av`. An array
    /// without a populated slot stays empty, and a number below one adds
    /// nothing.
    pub fn av_unshift(&mut self, av: usize, n: isize)
        requires
            old(self)@.wf(),
            old(self)@.is_array(av),
            old(self)@.array(av).len() + n <= AV_MAX_INDEX + 1,
        ensures
            final(self)@ == old(self)@.av_unshifted(av, n as int),
            final(self)@.wf(),
            old(self)@.loose_kept(final(self)@),
    {
        let top = self.av_len(av);
        if top < 0 || n <= 0 {
            return ;
        }
        match &mut self.heap[av].body {
            Body::Array(slots) => {
                slots_unshift(slots, n as usize);
            },
            _ => {},
        }
        proof {
            let w = old(self)@;
            let s = w.array(av);
            let s2 = holes(n as nat) + s;
            self.lemma_array_swapped(w, av, s2);
            assert(thing_wf(w.objs[av as int].thing));
            assert forall|q: usize|
                #![trigger occurrences(s2, Some(q))]
                occurrences(s2, Some(q)) == occurrences(s, Some(q)) by {
                lemma_occurrences_concat(holes(n as nat), s, Some(q));
                lemma_holes(n as nat, q);
            }
            assert(s2.last() == s.last());
            lemma_fewer_refs(w, av, s2);
        }
    }

    /// Cuts the array at `av` down to the slots up to index `fill`; what
    /// the slots beyond held loses its units. The array then ends at its
    /// last populated slot. An array that ends before `fill` stays as it is.
    pub fn av_fill(&mut self, av: usize, fill: isize)
        requires
            old(self)@.wf(),
            old(self)@.is_array(av),
        ensures
            final(self)@ == old(self)@.av_filled(av, fill as int),
            final(self)@.wf(),
            old(self)@.loose_kept(final(self)@),
    {
        let top = self.av_len(av);
        if fill < -1 || fill >= top {
            return ;
        }
        let keep = (fill + 1) as usize;
        let tail = match &mut self.heap[av].body {
            Body::Array(slots) => {
                let tail = slots.split_off(keep);
                slots_trim(slots);
                tail
            },
            _ => Vec::new(),
        };
        proof {
            let w = old(self)@;
            let s = w.array(av);
            let s1 = s.take(keep as int);
            let s2 = trimmed(s1);
            self.lemma_array_swapped(w, av, s2);
            assert(thing_wf(w.objs[av as int].thing));
            assert(s =~= s1 + tail@);
            assert forall|q: usize|
                #![trigger occurrences(s2, Some(q))]
                occurrences(s2, Some(q)) + occurrences(tail@, Some(q)) == occurrences(
                    s,
                    Some(q),
                ) by {
                lemma_trimmed(s1, q);
                lemma_occurrences_concat(s1, tail@, Some(q));
            }
            lemma_trimmed(s1, 0);
            lemma_fewer_refs(w, av, s2);
            assert forall|q: usize| q >= w.objs.len() implies occurrences(tail@, Some(q))
                == 0 by {
                lemma_invalid_unreferenced(w, av, q);
                assert(occurrences(s2, Some(q)) + occurrences(tail@, Some(q)) == occurrences(
                    s,
                    Some(q),
                ));
            }
            assert forall|q: usize| #[trigger]
                self@.loose(q) == w.loose(q) + occurrences(tail@, Some(q)) by {
                assert(occurrences(s2, Some(q)) + occurrences(tail@, Some(q)) == occurrences(
                    s,
                    Some(q),
                ));
            }
        }
        self.release(&tail);
        proof {
            assert(tail@ =~= old(self)@.array(av).skip(keep as int));
        }
    }

    /// Empties the array at `av`; what its slots held loses its units.
    pub fn av_clear(&mut self, av: usize)
        requires
            old(self)@.wf(),
            old(self)@.is_array(av),
        ensures
            final(self)@ == old(self)@.av_cleared(av),
            final(self)@.wf(),
            old(self)@.loose_kept(final(self)@),
    {
        self.av_fill(av, -1);
    }

    /// Takes one unit from the count of each object that `slots` holds.
    /// Each of these units was loose.
    pub(super) fn release(&mut self, slots: &Vec<Option<usize>>)
        requires
            old(self)@.wf(),
            forall|q: usize| q >= old(self)@.objs.len() ==> occurrences(slots@, Some(q)) == 0,
            forall|q: usize|
                q < old(self)@.objs.len() ==> old(self)@.loose(q) >= occurrences(slots@, Some(q)),
        ensures
            final(self)@ == old(self)@.released(slots@),
            final(self)@.wf(),
            forall|q: usize| #[trigger]
                final(self)@.loose(q) == old(self)@.loose(q) - occurrences(slots@, Some(q)),
    {
        let n = slots.len();
        let mut i: usize = 0;
        while i < n
            invariant
                n == slots@.len(),
                i <= n,
                old(self)@.wf(),
                self@ == old(self)@.released(slots@.take(i as int)),
                self@.wf(),
                self@.objs.len() == old(self)@.objs.len(),
                forall|q: usize| q >= old(self)@.objs.len() ==> occurrences(slots@, Some(q)) == 0,
                forall|q: usize|
                    q < old(self)@.objs.len() ==> old(self)@.loose(q) >= occurrences(
                        slots@,
                        Some(q),
                    ),
                forall|q: usize| #[trigger]
                    self@.loose(q) == old(self)@.loose(q) - occurrences(
                        slots@.take(i as int),
                        Some(q),
                    ),
            decreases n - i,
        {
            let ghost before = self@;
            let ghost done = slots@.take(i as int);
            let ghost next = slots@.take(i + 1);
            proof {
                assert(next.drop_last() =~= done);
                assert(next.last() == slots@[i as int]);
                assert(slots@ =~= next + slots@.skip(i + 1));
                assert forall|q: usize|
                    #![trigger occurrences(next, Some(q))]
                    occurrences(next, Some(q)) <= occurrences(slots@, Some(q)) && occurrences(
                        next,
                        Some(q),
                    ) == occurrences(done, Some(q)) + if slots@[i as int] == Some(q) {
                        1nat
                    } else {
                        0nat
                    } by {
                    lemma_occurrences_concat(next, slots@.skip(i + 1), Some(q));
                    lemma_occurrences_push(done, slots@[i as int], Some(q));
                    assert(done.push(slots@[i as int]) =~= next);
                }
            }
            match slots[i] {
                Some(e) => {
                    proof {
                        lemma_occurrences_member(slots@, i as int);
                        assert(occurrences(next, Some(e)) == occurrences(done, Some(e)) + 1);
                        assert(e < old(self)@.objs.len());
                        assert(before.loose(e) >= 1);
                    }
                    self.sv_refcnt_dec(e);
                },
                None => {},
            }
            i += 1;
        }
        proof {
            assert(slots@.take(n as int) =~= slots@);
        }
    }

    /// What `self` is once the slots of the array at `av` were replaced.
    pub(super) proof fn lemma_array_swapped(&self, w: World, av: usize, s2: Seq<Option<usize>>)
        requires
            w.is_array(av),
            self@.objs.len() == w.objs.len(),
            self@.objs[av as int] == (Object { thing: Thing::Array(s2), ..w.objs[av as int] }),
            forall|q: int| 0 <= q < w.objs.len() && q != av ==> self@.objs[q] == w.objs[q],
            self@.args == w.args,
            self@.rets == w.rets,
            self@.sp == w.sp,
            self@.putbacks == w.putbacks,
            self@.raised == w.raised,
            self@.subs == w.subs,
            self@.host_subs == w.host_subs,
            self@.names == w.names,
            self@.named == w.named,
        ensures
            self@ == w.with_thing(av, Thing::Array(s2)),
    {
        assert(self@.objs =~= w.with_thing(av, Thing::Array(s2)).objs);
    }
}

} // verus!
