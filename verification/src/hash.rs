//! Hashes of the host.
//!
//! The host keeps one walk per hash, in the hash itself. Starting a walk
//! with [`HV::iter`], [`HV::values`] or [`HV::keys`] sets it back to the
//! first key, so two walks of one hash that are under way at the same
//! time disturb each other: each `next` moves the one place that both
//! read. The contracts below say so, by stating every step over the
//! place that the host keeps.

use vstd::prelude::*;
use vstd::string::*;
use std::marker::PhantomData;
use crate::convert::{converts, has_room, lent, take_out, taken, unit_of, FromSV, TryFromSV};
use crate::handle::{borrowed, dropped, forgotten, owned, Owned};
use crate::raw;
use crate::raw::model::{Thing, Value, World};
use crate::raw::Interpreter;
use crate::scalar::SV;

verus! {

/// A handle on a hash.
#[derive(Debug)]
pub struct HV(Owned<raw::HV>);

impl View for HV {
    type V = usize;

    closed spec fn view(&self) -> usize {
        self.0@
    }
}

impl HV {
    /// Whether the handle's unit is on the books of `w`, and the object
    /// is a hash.
    pub open spec fn wf(self, w: World) -> bool {
        w.is_hash(self@) && w.held(self@) >= 1
    }

    /// A handle that takes over the unit which `raw` already carries and
    /// which nobody accounts for.
    pub fn from_raw_owned(perl: &mut Interpreter, raw: usize) -> (hv: HV)
        requires
            old(perl)@.wf(),
            old(perl)@.is_hash(raw),
            old(perl)@.loose(raw) >= 1,
        ensures
            hv@ == raw,
            final(perl)@ == owned(old(perl)@, raw),
            final(perl)@.wf(),
            hv.wf(final(perl)@),
            old(perl)@.loose_moved(final(perl)@, raw, -1),
    {
        HV(Owned::from_raw_owned(perl, raw))
    }

    /// A handle on a hash whose address was borrowed from elsewhere:
    /// the count is raised by one, and the new unit is the handle's.
    pub fn from_raw_borrowed(perl: &mut Interpreter, raw: usize) -> (hv: HV)
        requires
            old(perl)@.wf(),
            old(perl)@.live(raw),
            old(perl)@.is_hash(raw),
            old(perl)@.refcnt(raw) < usize::MAX,
        ensures
            hv@ == raw,
            final(perl)@ == borrowed(old(perl)@, raw),
            final(perl)@.wf(),
            hv.wf(final(perl)@),
            old(perl)@.loose_kept(final(perl)@),
    {
        HV(Owned::from_raw_borrowed(perl, raw))
    }

    /// The address of the hash.
    pub fn as_ptr(&self) -> (ptr: usize)
        ensures
            ptr == self@,
    {
        self.0.as_ptr()
    }

    /// Ends the handle: the count of the hash is one lower.
    pub fn drop(self, perl: &mut Interpreter)
        requires
            old(perl)@.wf(),
            self.wf(old(perl)@),
        ensures
            final(perl)@ == dropped(old(perl)@, self@),
            final(perl)@.wf(),
            old(perl)@.loose_kept(final(perl)@),
    {
        self.0.drop(perl);
    }

    /// Empties the hash; each value loses its unit.
    pub fn clear(&self, perl: &mut Interpreter)
        requires
            old(perl)@.wf(),
            self.wf(old(perl)@),
        ensures
            final(perl)@ == old(perl)@.hv_cleared(self@),
            final(perl)@.wf(),
            old(perl)@.loose_kept(final(perl)@),
    {
        perl.hv_clear(self.as_ptr());
    }

    /// Asks the host to forget the keys that it only keeps a place for.
    /// This host keeps none: the hash stays as it is.
    pub fn clear_placeholders(&self, perl: &mut Interpreter)
        requires
            old(perl)@.wf(),
            self.wf(old(perl)@),
        ensures
            final(perl)@ == old(perl)@,
    {
    }

    /// Takes `key` out of the hash and returns the value that stood
    /// under it, converted; nothing where the hash has no such key.
    pub fn delete<T: FromSV>(&self, perl: &mut Interpreter, key: &str) -> (out: Option<T>)
        requires
            old(perl)@.wf(),
            self.wf(old(perl)@),
            has_room::<T>(old(perl)@, old(perl)@.hv_value(self@, key.spec_bytes())),
        ensures
            converts(
                old(perl)@.hv_deleted(self@, key.spec_bytes()),
                old(perl)@.hv_value(self@, key.spec_bytes()),
                out,
            ),
            final(perl)@ == taken::<T>(
                old(perl)@.hv_deleted(self@, key.spec_bytes()),
                old(perl)@.hv_value(self@, key.spec_bytes()),
            ),
            final(perl)@.wf(),
            old(perl)@.loose_kept(final(perl)@),
    {
        let slot = perl.hv_delete(self.as_ptr(), key.as_bytes());
        take_out(perl, slot)
    }

    /// Takes `key` out of the hash and lets the value that stood under
    /// it go, without converting it.
    pub fn discard(&self, perl: &mut Interpreter, key: &str)
        requires
            old(perl)@.wf(),
            self.wf(old(perl)@),
        ensures
            final(perl)@ == old(perl)@.hv_deleted(self@, key.spec_bytes()).dec_opt(
                old(perl)@.hv_value(self@, key.spec_bytes()),
            ),
            final(perl)@.wf(),
            old(perl)@.loose_kept(final(perl)@),
    {
        match perl.hv_delete(self.as_ptr(), key.as_bytes()) {
            Some(e) => {
                perl.sv_refcnt_dec(e);
            },
            None => {},
        }
    }

    /// Whether the hash has `key`.
    pub fn exists_key(&self, perl: &Interpreter, key: &str) -> (b: bool)
        requires
            perl@.wf(),
            self.wf(perl@),
        ensures
            b == perl@.keys(self@).contains(key.spec_bytes()),
    {
        perl.hv_exists(self.as_ptr(), key.as_bytes())
    }

    /// The value under `key`, converted; nothing where the hash has no
    /// such key. The hash is left as it is.
    pub fn fetch<T: FromSV>(&self, perl: &mut Interpreter, key: &str) -> (out: Option<T>)
        requires
            old(perl)@.wf(),
            self.wf(old(perl)@),
            has_room::<T>(old(perl)@, old(perl)@.hv_value(self@, key.spec_bytes())),
        ensures
            converts(old(perl)@, old(perl)@.hv_value(self@, key.spec_bytes()), out),
            final(perl)@ == lent(
                old(perl)@,
                unit_of::<T>(old(perl)@.hv_value(self@, key.spec_bytes())),
            ),
            final(perl)@.wf(),
            self.wf(final(perl)@),
            old(perl)@.loose_kept(final(perl)@),
    {
        match perl.hv_fetch(self.as_ptr(), key.as_bytes()) {
            Some(e) => Some(T::from_sv(perl, e)),
            None => None,
        }
    }

    /// The world after an undefined scalar was made and stored under
    /// `key` in the hash at `hv`.
    pub open spec fn vivified(w: World, hv: usize, key: Seq<u8>) -> World {
        w.with_new(Thing::Scalar(Value::Undef)).hv_stored(hv, key, w.objs.len() as usize)
    }

    /// The value under `key`, converted, ready for assignment: a key
    /// that the hash has not is first stored with a new scalar that holds
    /// the undefined value.
    pub fn fetch_lvalue<T: FromSV>(&self, perl: &mut Interpreter, key: &str) -> (out: Option<T>)
        requires
            old(perl)@.wf(),
            self.wf(old(perl)@),
            old(perl)@.objs.len() < usize::MAX,
            has_room::<T>(old(perl)@, old(perl)@.hv_value(self@, key.spec_bytes())),
        ensures
            out is Some,
            match old(perl)@.hv_value(self@, key.spec_bytes()) {
                Some(e) => converts(old(perl)@, Some(e), out) && final(perl)@ == lent(
                    old(perl)@,
                    unit_of::<T>(Some(e)),
                ),
                None => {
                    &&& converts(
                        HV::vivified(old(perl)@, self@, key.spec_bytes()),
                        Some(old(perl)@.objs.len() as usize),
                        out,
                    )
                    &&& final(perl)@ == lent(
                        HV::vivified(old(perl)@, self@, key.spec_bytes()),
                        unit_of::<T>(Some(old(perl)@.objs.len() as usize)),
                    )
                },
            },
            final(perl)@.wf(),
            old(perl)@.loose_kept(final(perl)@),
    {
        match perl.hv_fetch(self.as_ptr(), key.as_bytes()) {
            Some(e) => Some(T::from_sv(perl, e)),
            None => {
                let sv = perl.sv_undef();
                perl.hv_store(self.as_ptr(), key.as_bytes(), sv);
                Some(T::from_sv(perl, sv))
            },
        }
    }

    /// Stores `val` under `key`. The hash takes the handle's unit; where
    /// the host refuses the store, the unit is given back, so that none
    /// is lost.
    pub fn store(&self, perl: &mut Interpreter, key: &str, val: SV)
        requires
            old(perl)@.wf(),
            self.wf(old(perl)@),
            val.wf(old(perl)@),
        ensures
            final(perl)@ == forgotten(old(perl)@, val@).hv_stored(self@, key.spec_bytes(), val@),
            final(perl)@.wf(),
            old(perl)@.loose_kept(final(perl)@),
    {
        let raw = val.into_raw(perl);
        let stored = perl.hv_store(self.as_ptr(), key.as_bytes(), raw);
        if !stored {
            perl.sv_refcnt_dec(raw);
        }
    }

    /// Starts a walk over the keys of the hash and their values.
    pub fn iter<'a, T: FromSV>(&'a self, perl: &mut Interpreter) -> (it: Iter<'a, T>)
        requires
            old(perl)@.wf(),
            self.wf(old(perl)@),
        ensures
            it.hv() == self@,
            final(perl)@ == old(perl)@.hv_walked(self@, 0),
            final(perl)@.wf(),
            old(perl)@.loose_kept(final(perl)@),
    {
        Iter::new(self, perl)
    }

    /// Starts a walk over the values of the hash.
    pub fn values<'a, T: FromSV>(&'a self, perl: &mut Interpreter) -> (it: Values<'a, T>)
        requires
            old(perl)@.wf(),
            self.wf(old(perl)@),
        ensures
            it.hv() == self@,
            final(perl)@ == old(perl)@.hv_walked(self@, 0),
            final(perl)@.wf(),
            old(perl)@.loose_kept(final(perl)@),
    {
        Values::new(self, perl)
    }

    /// Starts a walk over the keys of the hash.
    pub fn keys<'a>(&'a self, perl: &mut Interpreter) -> (it: Keys<'a>)
        requires
            old(perl)@.wf(),
            self.wf(old(perl)@),
        ensures
            it.hv() == self@,
            final(perl)@ == old(perl)@.hv_walked(self@, 0),
            final(perl)@.wf(),
            old(perl)@.loose_kept(final(perl)@),
    {
        Keys::new(self, perl)
    }
}

impl TryFromSV for HV {
    /// Only a reference to a hash converts.
    open spec fn failure(w: World, raw: usize) -> Option<Seq<char>> {
        if w.value(raw).rok() && w.is_hash(w.value(raw).rv()) {
            None
        } else {
            Some("not a hash reference"@)
        }
    }

    open spec fn unit(w: World, raw: usize) -> Option<usize> {
        Some(w.value(raw).rv())
    }

    open spec fn try_reads(w: World, raw: usize, out: Self) -> bool {
        out@ == w.value(raw).rv()
    }

    fn try_from_sv(perl: &mut Interpreter, raw: usize) -> (out: Result<Self, String>) {
        if !perl.sv_rok(raw) {
            return Err(String::from_str("not a hash reference"));
        }
        let target = perl.sv_rv(raw);
        proof {
            crate::raw::model::lemma_referenced_is_live(perl@, raw, target);
        }
        if perl.sv_type(target) != raw::SVt_PVHV {
            return Err(String::from_str("not a hash reference"));
        }
        Ok(HV::from_raw_borrowed(perl, target))
    }
}

/// The key that the walk of the hash at `hv` comes to next, if it is
/// not over.
pub open spec fn next_key(w: World, hv: usize) -> Option<Seq<u8>> {
    if w.cursor(hv) < w.keys(hv).len() {
        Some(w.keys(hv)[w.cursor(hv) as int])
    } else {
        None
    }
}

/// The value that the walk of the hash at `hv` comes to next, if it is
/// not over.
pub open spec fn next_val(w: World, hv: usize) -> Option<usize> {
    if w.cursor(hv) < w.keys(hv).len() {
        Some(w.vals(hv)[w.cursor(hv) as int])
    } else {
        None
    }
}

/// The world after the walk of the hash at `hv` went one step, if it
/// was not over.
pub open spec fn stepped(w: World, hv: usize) -> World {
    if w.cursor(hv) < w.keys(hv).len() {
        w.hv_walked(hv, w.cursor(hv) + 1)
    } else {
        w
    }
}

/// A step of the walk moves its place and nothing else.
pub proof fn lemma_stepped(w: World, hv: usize)
    requires
        w.is_hash(hv),
    ensures
        stepped(w, hv).objs.len() == w.objs.len(),
        stepped(w, hv).is_hash(hv),
        stepped(w, hv).keys(hv) == w.keys(hv),
        stepped(w, hv).vals(hv) == w.vals(hv),
        forall|p: usize| w.valid(p) ==> #[trigger] stepped(w, hv).refcnt(p) == w.refcnt(p),
{
}

/// A walk over the keys of a hash and their values.
pub struct Iter<'a, T> {
    hv: &'a HV,
    ty: PhantomData<T>,
}

impl<'a, T: FromSV> Iter<'a, T> {
    /// The address of the hash that is walked.
    pub closed spec fn hv(self) -> usize {
        self.hv@
    }

    fn new(hv: &'a HV, perl: &mut Interpreter) -> (it: Self)
        requires
            old(perl)@.wf(),
            hv.wf(old(perl)@),
        ensures
            it.hv() == hv@,
            final(perl)@ == old(perl)@.hv_walked(hv@, 0),
            final(perl)@.wf(),
            old(perl)@.loose_kept(final(perl)@),
    {
        perl.hv_iterinit(hv.as_ptr());
        Iter { hv, ty: PhantomData }
    }

    /// The key that the walk comes to next, with its value, converted;
    /// nothing once the walk is over.
    pub fn next(&mut self, perl: &mut Interpreter) -> (item: Option<(Vec<u8>, T)>)
        requires
            old(perl)@.wf(),
            old(perl)@.is_hash(old(self).hv()),
            has_room::<T>(old(perl)@, next_val(old(perl)@, old(self).hv())),
        ensures
            final(self).hv() == old(self).hv(),
            item is Some == next_key(old(perl)@, old(self).hv()) is Some,
            item is Some ==> {
                &&& item->Some_0.0@ == next_key(old(perl)@, old(self).hv())->Some_0
                &&& T::reads(
                    stepped(old(perl)@, old(self).hv()),
                    next_val(old(perl)@, old(self).hv())->Some_0,
                    item->Some_0.1,
                )
            },
            final(perl)@ == lent(
                stepped(old(perl)@, old(self).hv()),
                unit_of::<T>(next_val(old(perl)@, old(self).hv())),
            ),
            final(perl)@.wf(),
            old(perl)@.loose_kept(final(perl)@),
    {
        let hv_ptr = self.hv.as_ptr();
        proof {
            lemma_stepped(perl@, hv_ptr);
        }
        match perl.hv_iternext(hv_ptr) {
            None => None,
            Some(he) => {
                let k = perl.hv_iterkey(hv_ptr, he);
                let v = perl.hv_iterval(hv_ptr, he);
                assert(perl@.refcnt(v) == old(perl)@.refcnt(v));
                Some((k, T::from_sv(perl, v)))
            },
        }
    }
}

/// A walk over the values of a hash.
pub struct Values<'a, T> {
    hv: &'a HV,
    ty: PhantomData<T>,
}

impl<'a, T: FromSV> Values<'a, T> {
    /// The address of the hash that is walked.
    pub closed spec fn hv(self) -> usize {
        self.hv@
    }

    fn new(hv: &'a HV, perl: &mut Interpreter) -> (it: Self)
        requires
            old(perl)@.wf(),
            hv.wf(old(perl)@),
        ensures
            it.hv() == hv@,
            final(perl)@ == old(perl)@.hv_walked(hv@, 0),
            final(perl)@.wf(),
            old(perl)@.loose_kept(final(perl)@),
    {
        perl.hv_iterinit(hv.as_ptr());
        Values { hv, ty: PhantomData }
    }

    /// The value that the walk comes to next, converted; nothing once
    /// the walk is over.
    pub fn next(&mut self, perl: &mut Interpreter) -> (item: Option<T>)
        requires
            old(perl)@.wf(),
            old(perl)@.is_hash(old(self).hv()),
            has_room::<T>(old(perl)@, next_val(old(perl)@, old(self).hv())),
        ensures
            final(self).hv() == old(self).hv(),
            converts(
                stepped(old(perl)@, old(self).hv()),
                next_val(old(perl)@, old(self).hv()),
                item,
            ),
            final(perl)@ == lent(
                stepped(old(perl)@, old(self).hv()),
                unit_of::<T>(next_val(old(perl)@, old(self).hv())),
            ),
            final(perl)@.wf(),
            old(perl)@.loose_kept(final(perl)@),
    {
        let hv_ptr = self.hv.as_ptr();
        proof {
            lemma_stepped(perl@, hv_ptr);
        }
        match perl.hv_iternext(hv_ptr) {
            None => None,
            Some(he) => {
                let v = perl.hv_iterval(hv_ptr, he);
                assert(perl@.refcnt(v) == old(perl)@.refcnt(v));
                Some(T::from_sv(perl, v))
            },
        }
    }
}

/// A walk over the keys of a hash.
pub struct Keys<'a>(&'a HV);

impl<'a> Keys<'a> {
    /// The address of the hash that is walked.
    pub closed spec fn hv(self) -> usize {
        self.0@
    }

    fn new(hv: &'a HV, perl: &mut Interpreter) -> (it: Self)
        requires
            old(perl)@.wf(),
            hv.wf(old(perl)@),
        ensures
            it.hv() == hv@,
            final(perl)@ == old(perl)@.hv_walked(hv@, 0),
            final(perl)@.wf(),
            old(perl)@.loose_kept(final(perl)@),
    {
        perl.hv_iterinit(hv.as_ptr());
        Keys(hv)
    }

    /// The key that the walk comes to next; nothing once the walk is over.
    pub fn next(&mut self, perl: &mut Interpreter) -> (item: Option<Vec<u8>>)
        requires
            old(perl)@.wf(),
            old(perl)@.is_hash(old(self).hv()),
        ensures
            final(self).hv() == old(self).hv(),
            item is Some == next_key(old(perl)@, old(self).hv()) is Some,
            item is Some ==> item->Some_0@ == next_key(old(perl)@, old(self).hv())->Some_0,
            final(perl)@ == stepped(old(perl)@, old(self).hv()),
            final(perl)@.wf(),
            old(perl)@.loose_kept(final(perl)@),
    {
        let hv_ptr = self.0.as_ptr();
        proof {
            lemma_stepped(perl@, hv_ptr);
        }
        match perl.hv_iternext(hv_ptr) {
            None => None,
            Some(he) => {
                let k = perl.hv_iterkey(hv_ptr, he);
                Some(k)
            },
        }
    }

    /// Walks to the end and returns the keys that were still to come, in
    /// the order of the walk.
    pub fn collect(self, perl: &mut Interpreter) -> (keys: Vec<Vec<u8>>)
        requires
            old(perl)@.wf(),
            old(perl)@.is_hash(self.hv()),
        ensures
            keys@.len() == old(perl)@.keys(self.hv()).len() - old(perl)@.cursor(self.hv()),
            forall|i: int|
                0 <= i < keys@.len() ==> #[trigger] keys@[i]@ == old(perl)@.keys(self.hv())[old(
                    perl,
                )@.cursor(self.hv()) + i],
            final(perl)@ == old(perl)@.hv_walked(self.hv(), old(perl)@.keys(self.hv()).len()),
            final(perl)@.wf(),
            old(perl)@.loose_kept(final(perl)@),
    {
        let mut walk = self;
        let ghost w = perl@;
        let ghost hv = walk.hv();
        let ghost start = w.cursor(hv);
        assert(crate::raw::model::thing_wf(w.objs[hv as int].thing));
        let mut keys: Vec<Vec<u8>> = Vec::new();
        proof {
            assert(w.hv_walked(hv, start).objs =~= w.objs);
        }
        loop
            invariant
                w.wf(),
                w.is_hash(hv),
                walk.hv() == hv,
                start == w.cursor(hv),
                start + keys@.len() <= w.keys(hv).len(),
                perl@ == w.hv_walked(hv, start + keys@.len()),
                perl@.wf(),
                w.loose_kept(perl@),
                forall|i: int|
                    0 <= i < keys@.len() ==> #[trigger] keys@[i]@ == w.keys(hv)[start + i],
            ensures
                start + keys@.len() == w.keys(hv).len(),
                perl@ == w.hv_walked(hv, w.keys(hv).len()),
                perl@.wf(),
                w.loose_kept(perl@),
                forall|i: int|
                    0 <= i < keys@.len() ==> #[trigger] keys@[i]@ == w.keys(hv)[start + i],
            decreases w.keys(hv).len() - start - keys@.len(),
        {
            match walk.next(perl) {
                Some(k) => {
                    keys.push(k);
                    proof {
                        assert(perl@.objs =~= w.hv_walked(hv, start + keys@.len()).objs);
                    }
                },
                None => {
                    break ;
                },
            }
        }
        keys
    }
}

} // verus!
