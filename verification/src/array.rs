//! Arrays of the host.

use vstd::prelude::*;
use std::marker::PhantomData;
use crate::convert::{
    converts, has_room, lent, take_out, taken, unit_of, FromSV, IntoSV, TryFromSV,
};
use crate::handle::{borrowed, dropped, forgotten, owned, Owned};
use crate::raw;
use crate::raw::model::{
    lemma_slot_is_live, lemma_stored_slots, slot_at, stored_slots, Thing, Value, World,
    AV_MAX_INDEX,
};
use crate::raw::{Interpreter, SSize_t, IV, NV, UV};
use crate::scalar::{fresh, SV};

verus! {

/// A handle on an array.
#[derive(Debug)]
pub struct AV(Owned<raw::AV>);

impl View for AV {
    type V = usize;

    closed spec fn view(&self) -> usize {
        self.0@
    }
}

impl AV {
    /// Whether the handle's unit is on the books of `w`, and the object
    /// is an array.
    pub open spec fn wf(self, w: World) -> bool {
        w.is_array(self@) && w.held(self@) >= 1
    }

    /// The world after the scalar at `raw`, held by a handle, was stored
    /// at index `key` of the array at `av`: the array has the handle's
    /// unit, or, where the host refused, the unit is given back.
    pub open spec fn stored(w: World, av: usize, key: int, raw: usize) -> World {
        if 0 <= key <= AV_MAX_INDEX {
            forgotten(w, raw).av_stored(av, key, raw)
        } else {
            dropped(w, raw)
        }
    }

    /// A handle that takes over the unit which `raw` already carries and
    /// which nobody accounts for.
    pub fn from_raw_owned(perl: &mut Interpreter, raw: usize) -> (av: AV)
        requires
            old(perl)@.wf(),
            old(perl)@.is_array(raw),
            old(perl)@.loose(raw) >= 1,
        ensures
            av@ == raw,
            final(perl)@ == owned(old(perl)@, raw),
            final(perl)@.wf(),
            av.wf(final(perl)@),
            old(perl)@.loose_moved(final(perl)@, raw, -1),
    {
        AV(Owned::from_raw_owned(perl, raw))
    }

    /// A handle on an array whose address was borrowed from elsewhere:
    /// the count is raised by one, and the new unit is the handle's.
    pub fn from_raw_borrowed(perl: &mut Interpreter, raw: usize) -> (av: AV)
        requires
            old(perl)@.wf(),
            old(perl)@.live(raw),
            old(perl)@.is_array(raw),
            old(perl)@.refcnt(raw) < usize::MAX,
        ensures
            av@ == raw,
            final(perl)@ == borrowed(old(perl)@, raw),
            final(perl)@.wf(),
            av.wf(final(perl)@),
            old(perl)@.loose_kept(final(perl)@),
    {
        AV(Owned::from_raw_borrowed(perl, raw))
    }

    /// The address of the array.
    pub fn as_ptr(&self) -> (ptr: usize)
        ensures
            ptr == self@,
    {
        self.0.as_ptr()
    }

    /// Ends the handle: the count of the array is one lower.
    pub fn drop(self, perl: &mut Interpreter)
        requires
            old(perl)@.wf(),
            self.wf(old(perl)@),
        ensures
            final(perl)@ == dropped(old(perl)@, self@),
            final(perl)@.wf(),
            old(perl)@.loose_kept(final(perl)@),
    {
        self.0.drop(perl);
    }

    /// Empties the array; what its slots held loses its units.
    pub fn clear(&self, perl: &mut Interpreter)
        requires
            old(perl)@.wf(),
            self.wf(old(perl)@),
        ensures
            final(perl)@ == old(perl)@.av_cleared(self@),
            final(perl)@.wf(),
            old(perl)@.loose_kept(final(perl)@),
    {
        perl.av_clear(self.as_ptr());
    }

    /// Empties the array and gives its storage back to the host.
    pub fn undef(&self, perl: &mut Interpreter)
        requires
            old(perl)@.wf(),
            self.wf(old(perl)@),
        ensures
            final(perl)@ == old(perl)@.av_cleared(self@),
            final(perl)@.wf(),
            old(perl)@.loose_kept(final(perl)@),
    {
        perl.av_clear(self.as_ptr());
    }

    /// Takes what the slot at index `key` holds out of the array and
    /// returns it, converted; nothing where the slot is unpopulated or
    /// beyond the array.
    pub fn delete<T: FromSV>(&self, perl: &mut Interpreter, key: SSize_t) -> (out: Option<T>)
        requires
            old(perl)@.wf(),
            self.wf(old(perl)@),
            has_room::<T>(old(perl)@, slot_at(old(perl)@.array(self@), key as int)),
        ensures
            converts(
                old(perl)@.av_deleted(self@, key as int),
                slot_at(old(perl)@.array(self@), key as int),
                out,
            ),
            final(perl)@ == taken::<T>(
                old(perl)@.av_deleted(self@, key as int),
                slot_at(old(perl)@.array(self@), key as int),
            ),
            final(perl)@.wf(),
            old(perl)@.loose_kept(final(perl)@),
    {
        let slot = perl.av_delete(self.as_ptr(), key);
        take_out(perl, slot)
    }

    /// Takes what the slot at index `key` holds out of the array and
    /// lets it go, without converting it.
    pub fn discard(&self, perl: &mut Interpreter, key: SSize_t)
        requires
            old(perl)@.wf(),
            self.wf(old(perl)@),
        ensures
            final(perl)@ == old(perl)@.av_deleted(self@, key as int).dec_opt(
                slot_at(old(perl)@.array(self@), key as int),
            ),
            final(perl)@.wf(),
            old(perl)@.loose_kept(final(perl)@),
    {
        match perl.av_delete(self.as_ptr(), key) {
            Some(e) => {
                perl.sv_refcnt_dec(e);
            },
            None => {},
        }
    }

    /// Whether the slot at index `key` is populated.
    pub fn exists_at(&self, perl: &Interpreter, key: SSize_t) -> (b: bool)
        requires
            perl@.wf(),
            self.wf(perl@),
        ensures
            b == slot_at(perl@.array(self@), key as int) is Some,
    {
        perl.av_exists(self.as_ptr(), key)
    }

    /// Asks the host for room for slots up to index `key`. The slots of
    /// the array stay as they are.
    pub fn extend(&self, perl: &mut Interpreter, key: SSize_t)
        requires
            old(perl)@.wf(),
            self.wf(old(perl)@),
        ensures
            final(perl)@ == old(perl)@,
    {
    }

    /// What the slot at index `key` holds, converted; nothing where the
    /// slot is unpopulated or beyond the array. The array is left as it is.
    pub fn fetch<T: FromSV>(&self, perl: &mut Interpreter, key: SSize_t) -> (out: Option<T>)
        requires
            old(perl)@.wf(),
            self.wf(old(perl)@),
            has_room::<T>(old(perl)@, slot_at(old(perl)@.array(self@), key as int)),
        ensures
            converts(old(perl)@, slot_at(old(perl)@.array(self@), key as int), out),
            final(perl)@ == lent(
                old(perl)@,
                unit_of::<T>(slot_at(old(perl)@.array(self@), key as int)),
            ),
            final(perl)@.wf(),
            self.wf(final(perl)@),
            old(perl)@.loose_kept(final(perl)@),
    {
        match perl.av_fetch(self.as_ptr(), key) {
            Some(e) => Some(T::from_sv(perl, e)),
            None => None,
        }
    }

    /// The world after an undefined scalar was made and stored at index
    /// `key` of the array at `av`.
    pub open spec fn vivified(w: World, av: usize, key: int) -> World {
        w.with_new(Thing::Scalar(Value::Undef)).av_stored(av, key, w.objs.len() as usize)
    }

    /// What the slot at index `key` holds, converted, ready for
    /// assignment: an unpopulated slot is first set to a new scalar that
    /// holds the undefined value. Nothing where no slot can
    /// be at the index.
    pub fn fetch_lvalue<T: FromSV>(&self, perl: &mut Interpreter, key: SSize_t) -> (out: Option<T>)
        requires
            old(perl)@.wf(),
            self.wf(old(perl)@),
            old(perl)@.objs.len() < usize::MAX,
            has_room::<T>(old(perl)@, slot_at(old(perl)@.array(self@), key as int)),
        ensures
            match slot_at(old(perl)@.array(self@), key as int) {
                Some(e) => converts(old(perl)@, Some(e), out) && final(perl)@ == lent(
                    old(perl)@,
                    unit_of::<T>(Some(e)),
                ),
                None => if 0 <= key <= AV_MAX_INDEX {
                    &&& converts(
                        AV::vivified(old(perl)@, self@, key as int),
                        Some(old(perl)@.objs.len() as usize),
                        out,
                    )
                    &&& final(perl)@ == lent(
                        AV::vivified(old(perl)@, self@, key as int),
                        unit_of::<T>(Some(old(perl)@.objs.len() as usize)),
                    )
                } else {
                    out is None && final(perl)@ == old(perl)@
                },
            },
            final(perl)@.wf(),
            old(perl)@.loose_kept(final(perl)@),
    {
        match perl.av_fetch(self.as_ptr(), key) {
            Some(e) => Some(T::from_sv(perl, e)),
            None => {
                if key < 0 || key > AV_MAX_INDEX {
                    return None;
                }
                let sv = perl.sv_undef();
                perl.av_store(self.as_ptr(), key, sv);
                proof {
                    let w1 = old(perl)@.with_new(Thing::Scalar(Value::Undef));
                    lemma_stored_live(w1, self@, key as int, sv);
                }
                Some(T::from_sv(perl, sv))
            },
        }
    }

    /// Cuts the array down to the slots up to index `fill`; what the
    /// slots beyond held loses its units. An array that ends before
    /// `fill` stays as it is.
    pub fn fill(&self, perl: &mut Interpreter, fill: SSize_t)
        requires
            old(perl)@.wf(),
            self.wf(old(perl)@),
        ensures
            final(perl)@ == old(perl)@.av_filled(self@, fill as int),
            final(perl)@.wf(),
            old(perl)@.loose_kept(final(perl)@),
    {
        perl.av_fill(self.as_ptr(), fill);
    }

    /// The highest index of a populated slot; -1 where there is none.
    pub fn top_index(&self, perl: &Interpreter) -> (top: SSize_t)
        requires
            perl@.wf(),
            self.wf(perl@),
        ensures
            top == perl@.array(self@).len() - 1,
            top >= 0 ==> slot_at(perl@.array(self@), top as int) is Some,
            forall|k: int| k > top ==> slot_at(perl@.array(self@), k) is None,
    {
        assert(crate::raw::model::thing_wf(perl@.objs[self@ as int].thing));
        perl.av_len(self.as_ptr())
    }

    /// Takes the last slot off the array and returns what it held,
    /// converted; nothing where the array is empty.
    pub fn pop<T: FromSV>(&self, perl: &mut Interpreter) -> (out: Option<T>)
        requires
            old(perl)@.wf(),
            self.wf(old(perl)@),
            has_room::<T>(
                old(perl)@,
                slot_at(old(perl)@.array(self@), old(perl)@.array(self@).len() - 1),
            ),
        ensures
            out is Some == (old(perl)@.array(self@).len() > 0),
            converts(
                old(perl)@.av_popped(self@),
                slot_at(old(perl)@.array(self@), old(perl)@.array(self@).len() - 1),
                out,
            ),
            final(perl)@ == taken::<T>(
                old(perl)@.av_popped(self@),
                slot_at(old(perl)@.array(self@), old(perl)@.array(self@).len() - 1),
            ),
            final(perl)@.wf(),
            old(perl)@.loose_kept(final(perl)@),
    {
        let slot = perl.av_pop(self.as_ptr());
        take_out(perl, slot)
    }

    /// Appends `val` to the array, which takes the handle's unit.
    pub fn push(&self, perl: &mut Interpreter, val: SV)
        requires
            old(perl)@.wf(),
            self.wf(old(perl)@),
            val.wf(old(perl)@),
            old(perl)@.array(self@).len() <= AV_MAX_INDEX,
        ensures
            final(perl)@ == forgotten(old(perl)@, val@).av_pushed(self@, val@),
            final(perl)@.wf(),
            old(perl)@.loose_kept(final(perl)@),
    {
        let raw = val.into_raw(perl);
        perl.av_push(self.as_ptr(), raw);
    }

    /// Takes the first slot off the array and returns what it held,
    /// converted; nothing where the array is empty or the slot was
    /// unpopulated.
    pub fn shift<T: FromSV>(&self, perl: &mut Interpreter) -> (out: Option<T>)
        requires
            old(perl)@.wf(),
            self.wf(old(perl)@),
            has_room::<T>(old(perl)@, slot_at(old(perl)@.array(self@), 0)),
        ensures
            converts(old(perl)@.av_shifted(self@), slot_at(old(perl)@.array(self@), 0), out),
            final(perl)@ == taken::<T>(
                old(perl)@.av_shifted(self@),
                slot_at(old(perl)@.array(self@), 0),
            ),
            final(perl)@.wf(),
            old(perl)@.loose_kept(final(perl)@),
    {
        let slot = perl.av_shift(self.as_ptr());
        take_out(perl, slot)
    }

    /// Puts `num` unpopulated slots in front of the array. An array
    /// without a populated slot stays empty, and a number below one adds
    /// nothing.
    pub fn unshift(&self, perl: &mut Interpreter, num: SSize_t)
        requires
            old(perl)@.wf(),
            self.wf(old(perl)@),
            old(perl)@.array(self@).len() + num <= AV_MAX_INDEX + 1,
        ensures
            final(perl)@ == old(perl)@.av_unshifted(self@, num as int),
            final(perl)@.wf(),
            old(perl)@.loose_kept(final(perl)@),
    {
        perl.av_unshift(self.as_ptr(), num);
    }

    /// Sets the slot at index `key` to `val`. The array takes the
    /// handle's unit; where the host refuses the store, the unit is given
    /// back, so that none is lost.
    pub fn store(&self, perl: &mut Interpreter, key: SSize_t, val: SV)
        requires
            old(perl)@.wf(),
            self.wf(old(perl)@),
            val.wf(old(perl)@),
        ensures
            final(perl)@ == AV::stored(old(perl)@, self@, key as int, val@),
            final(perl)@.wf(),
            old(perl)@.loose_kept(final(perl)@),
    {
        let raw = val.into_raw(perl);
        let stored = perl.av_store(self.as_ptr(), key, raw);
        if !stored {
            perl.sv_refcnt_dec(raw);
        }
    }

    /// A walk over the slots of the array as it stands, from index 0 up
    /// to the top index.
    pub fn iter<'a, T: FromSV>(&'a self, perl: &Interpreter) -> (it: IterAV<'a, T>)
        requires
            perl@.wf(),
            self.wf(perl@),
        ensures
            it.av() == self@,
            it.pos() == 0,
            it.top() == perl@.array(self@).len() - 1,
    {
        IterAV::new(self, perl)
    }
}

impl TryFromSV for AV {
    /// Only a reference to an array converts.
    open spec fn failure(w: World, raw: usize) -> Option<Seq<char>> {
        if w.value(raw).rok() && w.is_array(w.value(raw).rv()) {
            None
        } else {
            Some("not an array reference"@)
        }
    }

    open spec fn unit(w: World, raw: usize) -> Option<usize> {
        Some(w.value(raw).rv())
    }

    open spec fn try_reads(w: World, raw: usize, out: Self) -> bool {
        out@ == w.value(raw).rv()
    }

    fn try_from_sv(perl: &mut Interpreter, raw: usize) -> (out: Result<Self, String>) {
        if !perl.sv_rok(raw) {
            return Err(String::from_str("not an array reference"));
        }
        let target = perl.sv_rv(raw);
        proof {
            crate::raw::model::lemma_referenced_is_live(perl@, raw, target);
        }
        if perl.sv_type(target) != raw::SVt_PVAV {
            return Err(String::from_str("not an array reference"));
        }
        Ok(AV::from_raw_borrowed(perl, target))
    }
}

/// A walk over the slots of an array, by rising index.
pub struct IterAV<'a, T> {
    av: &'a AV,
    pos: SSize_t,
    top: SSize_t,
    ty: PhantomData<T>,
}

impl<'a, T: FromSV> IterAV<'a, T> {
    /// The address of the array that is walked.
    pub closed spec fn av(self) -> usize {
        self.av@
    }

    /// The index of the slot that comes next.
    pub closed spec fn pos(self) -> int {
        self.pos as int
    }

    /// The index at which the walk ends.
    pub closed spec fn top(self) -> int {
        self.top as int
    }

    fn new(av: &'a AV, perl: &Interpreter) -> (it: Self)
        requires
            perl@.wf(),
            av.wf(perl@),
        ensures
            it.av() == av@,
            it.pos() == 0,
            it.top() == perl@.array(av@).len() - 1,
    {
        IterAV { pos: 0, top: av.top_index(perl), av, ty: PhantomData }
    }

    /// The next item of the walk: what the slot that comes next holds,
    /// converted, or nothing for an unpopulated slot. The walk is over,
    /// and the result is `None`, once the index of the next slot is
    /// beyond the top index.
    pub fn next(&mut self, perl: &mut Interpreter) -> (item: Option<Option<T>>)
        requires
            old(perl)@.wf(),
            old(perl)@.is_array(old(self).av()),
            old(perl)@.held(old(self).av()) >= 1,
            0 <= old(self).pos(),
            old(self).top() <= AV_MAX_INDEX,
            has_room::<T>(
                old(perl)@,
                slot_at(old(perl)@.array(old(self).av()), old(self).pos()),
            ),
        ensures
            final(self).av() == old(self).av(),
            final(self).top() == old(self).top(),
            item is Some == (old(self).pos() <= old(self).top()),
            item is Some ==> {
                &&& final(self).pos() == old(self).pos() + 1
                &&& converts(
                    old(perl)@,
                    slot_at(old(perl)@.array(old(self).av()), old(self).pos()),
                    item->Some_0,
                )
                &&& final(perl)@ == lent(
                    old(perl)@,
                    unit_of::<T>(slot_at(old(perl)@.array(old(self).av()), old(self).pos())),
                )
            },
            item is None ==> final(self).pos() == old(self).pos() && final(perl)@ == old(perl)@,
            final(perl)@.wf(),
            old(perl)@.loose_kept(final(perl)@),
    {
        if self.pos <= self.top {
            let v = self.av.fetch(perl, self.pos);
            self.pos = self.pos + 1;
            Some(v)
        } else {
            None
        }
    }
}

/// What the array at `av` holds once the scalar at `sv` was stored at
/// index `key`, and that every scalar still reads as it read.
pub proof fn lemma_stored(w: World, av: usize, key: int, sv: usize)
    requires
        w.wf(),
        w.is_array(av),
        w.valid(sv),
        0 <= key <= AV_MAX_INDEX,
    ensures
        AV::stored(w, av, key, sv).is_array(av),
        AV::stored(w, av, key, sv).array(av) == stored_slots(w.array(av), key, sv),
        AV::stored(w, av, key, sv).objs.len() == w.objs.len(),
        forall|p: usize|
            w.valid(p) && p != av ==> #[trigger] AV::stored(w, av, key, sv).value(p) == w.value(p),
{
    let w0 = forgotten(w, sv);
    assert(w0.objs[av as int].thing == w.objs[av as int].thing);
    let s2 = stored_slots(w.array(av), key, sv);
    let w1 = w0.with_thing(av, Thing::Array(s2));
    let was = slot_at(w.array(av), key);
    if was is Some {
        lemma_slot_is_live(w, av, key);
    }
    let w2 = w1.dec_opt(was);
    assert(w2.objs[av as int].thing == Thing::Array(s2));
    assert forall|p: usize| w.valid(p) && p != av implies #[trigger] w2.value(p) == w.value(
        p,
    ) by {
        assert(w2.objs[p as int].thing == w.objs[p as int].thing);
    }
}

/// What the host stored in an array has the count that it had, unless
/// it stood in the slot before, and is not the array.
pub proof fn lemma_stored_live(w: World, av: usize, key: int, sv: usize)
    requires
        w.wf(),
        w.is_array(av),
        w.valid(sv),
        0 <= key <= AV_MAX_INDEX,
        slot_at(w.array(av), key) != Some(sv),
    ensures
        w.av_stored(av, key, sv).refcnt(sv) == w.refcnt(sv),
        w.av_stored(av, key, sv).valid(sv),
{
    let was = slot_at(w.array(av), key);
    if was is Some {
        lemma_slot_is_live(w, av, key);
    }
}

/// What was stored in an array is found at the index at which it was
/// stored, and reads as it read before it was stored.
pub proof fn lemma_store_fetch(w: World, av: usize, key: int, sv: usize)
    requires
        w.wf(),
        w.is_array(av),
        w.valid(sv),
        0 <= key <= AV_MAX_INDEX,
    ensures
        AV::stored(w, av, key, sv).is_array(av),
        slot_at(AV::stored(w, av, key, sv).array(av), key) == Some(sv),
        AV::stored(w, av, key, sv).value(sv) == w.value(sv),
{
    lemma_stored(w, av, key, sv);
    assert(crate::raw::model::thing_wf(w.objs[av as int].thing));
    lemma_stored_slots(w.array(av), key, sv, sv);
    if sv == av {
        assert(AV::stored(w, av, key, sv).value(sv) == crate::raw::model::Value::Undef);
    }
}

/// Where a scalar was stored at an index within an array, every other
/// slot and the top index stay as they were.
pub proof fn lemma_store_within(w: World, av: usize, key: int, sv: usize)
    requires
        w.wf(),
        w.is_array(av),
        w.valid(sv),
        0 <= key < w.array(av).len(),
    ensures
        AV::stored(w, av, key, sv).array(av) == w.array(av).update(key, Some(sv)),
        AV::stored(w, av, key, sv).array(av).len() == w.array(av).len(),
        forall|j: int|
            j != key ==> slot_at(#[trigger] AV::stored(w, av, key, sv).array(av), j) == slot_at(
                w.array(av),
                j,
            ),
{
    assert(crate::raw::model::thing_wf(w.objs[av as int].thing));
    lemma_stored(w, av, key, sv);
}

/// Where a scalar was stored beyond the end of an array, the slots
/// between the old end and the new slot hold nothing, and so does every
/// slot beyond the new one.
pub proof fn lemma_sparse(w: World, av: usize, key: int, sv: usize, other: int)
    requires
        w.wf(),
        w.is_array(av),
        w.valid(sv),
        w.array(av).len() <= key <= AV_MAX_INDEX,
        w.array(av).len() <= other,
        other != key,
    ensures
        slot_at(w.array(av), other) is None,
        slot_at(AV::stored(w, av, key, sv).array(av), other) is None,
{
    lemma_stored(w, av, key, sv);
}

/// A new scalar that is stored in an array is found at the index at
/// which it was stored, and holds the value that it was made with.
pub proof fn lemma_fresh_stored(w: World, av: usize, key: int, v: Value)
    requires
        w.wf(),
        w.is_array(av),
        w.objs.len() < usize::MAX,
        0 <= key <= AV_MAX_INDEX,
        !(v is Ref),
    ensures
        slot_at(
            AV::stored(fresh(w, v), av, key, w.objs.len() as usize).array(av),
            key,
        ) == Some(w.objs.len() as usize),
        AV::stored(fresh(w, v), av, key, w.objs.len() as usize).value(w.objs.len() as usize) == v,
{
    let sv = w.objs.len() as usize;
    let w1 = w.with_new(Thing::Scalar(v));
    assert forall|q: usize| crate::raw::model::thing_count(Thing::Scalar(v), q) == 0 by {}
    crate::raw::model::lemma_with_new(w, Thing::Scalar(v));
    assert(w1.loose(sv) == w.loose(sv) + 1);
    let o = w1.objs[sv as int];
    crate::raw::sv::lemma_same_thing(w1, sv, crate::raw::model::Object { held: o.held + 1, ..o });
    lemma_store_fetch(fresh(w, v), av, key, sv);
}

/// A signed integer that was converted to a scalar and stored in an
/// array is fetched back, from the index at which it was stored, as the
/// same integer.
pub proof fn lemma_round_trip_iv(w: World, av: usize, key: int, v: IV)
    requires
        w.wf(),
        w.is_array(av),
        v.fits(w),
        0 <= key <= AV_MAX_INDEX,
    ensures
        slot_at(AV::stored(v.made(w), av, key, v.address(w)).array(av), key) == Some(v.address(w)),
        <IV as FromSV>::reads(AV::stored(v.made(w), av, key, v.address(w)), v.address(w), v),
{
    lemma_fresh_stored(w, av, key, Value::Int(v));
}

/// An unsigned integer that was converted to a scalar and stored in an
/// array is fetched back as the same integer.
pub proof fn lemma_round_trip_uv(w: World, av: usize, key: int, v: UV)
    requires
        w.wf(),
        w.is_array(av),
        v.fits(w),
        0 <= key <= AV_MAX_INDEX,
    ensures
        slot_at(AV::stored(v.made(w), av, key, v.address(w)).array(av), key) == Some(v.address(w)),
        <UV as FromSV>::reads(AV::stored(v.made(w), av, key, v.address(w)), v.address(w), v),
{
    lemma_fresh_stored(w, av, key, Value::Uint(v));
}

/// A floating-point number that was converted to a scalar and stored in
/// an array is fetched back as the same number, bit by bit.
pub proof fn lemma_round_trip_nv(w: World, av: usize, key: int, v: NV)
    requires
        w.wf(),
        w.is_array(av),
        v.fits(w),
        0 <= key <= AV_MAX_INDEX,
    ensures
        slot_at(AV::stored(v.made(w), av, key, v.address(w)).array(av), key) == Some(v.address(w)),
        <NV as FromSV>::reads(AV::stored(v.made(w), av, key, v.address(w)), v.address(w), v),
{
    lemma_fresh_stored(w, av, key, Value::Num(v));
}

/// A truth value that was converted to a scalar and stored in an array
/// converts back, with a check that passes, to the same truth value.
pub proof fn lemma_round_trip_bool(w: World, av: usize, key: int, v: bool)
    requires
        w.wf(),
        w.is_array(av),
        v.fits(w),
        0 <= key <= AV_MAX_INDEX,
    ensures
        slot_at(AV::stored(v.made(w), av, key, v.address(w)).array(av), key) == Some(v.address(w)),
        <bool as TryFromSV>::failure(AV::stored(v.made(w), av, key, v.address(w)), v.address(w))
            is None,
        <bool as TryFromSV>::try_reads(
            AV::stored(v.made(w), av, key, v.address(w)),
            v.address(w),
            v,
        ),
{
    lemma_fresh_stored(w, av, key, Value::Bool(v));
}

/// A text that was converted to a scalar and stored in an array converts
/// back, with a check that passes, to the same text.
pub proof fn lemma_round_trip_string(w: World, av: usize, key: int, v: String)
    requires
        w.wf(),
        w.is_array(av),
        v.fits(w),
        0 <= key <= AV_MAX_INDEX,
    ensures
        slot_at(AV::stored(v.made(w), av, key, v.address(w)).array(av), key) == Some(v.address(w)),
        <String as TryFromSV>::failure(AV::stored(v.made(w), av, key, v.address(w)), v.address(w))
            is None,
        <String as TryFromSV>::try_reads(
            AV::stored(v.made(w), av, key, v.address(w)),
            v.address(w),
            v,
        ),
{
    lemma_fresh_stored(
        w,
        av,
        key,
        Value::Text { bytes: vstd::utf8::encode_utf8(v@), utf8: true },
    );
    vstd::utf8::encode_utf8_valid_utf8(v@);
    vstd::utf8::encode_utf8_decode_utf8(v@);
}

} // verus!
