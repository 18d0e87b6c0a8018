//! Handles on host objects: an address, and with it the promise that one
//! unit of the object's reference count is accounted for.
//!
//! A handle is ended by its `drop`, which gives the unit back. The
//! interpreter keeps count of the units that handles hold, so that a
//! handle which a native subroutine made and left behind, because it
//! failed or returned early, is dropped when its call is wound up
//! ([`crate::context::Context::finish`]).

use vstd::prelude::*;
use std::marker::PhantomData;
use crate::raw::model::{lemma_held_is_live, Thing, World};
use crate::raw::{Interpreter, AV, HV, SV};

verus! {

/// The kinds of object whose lifetime the host counts.
pub trait HasRefCnt {
    /// Whether an object with contents `t` is of this kind.
    spec fn holds(t: Thing) -> bool;
}

impl HasRefCnt for SV {
    /// Every object can be addressed as a scalar.
    open spec fn holds(t: Thing) -> bool {
        true
    }
}

impl HasRefCnt for AV {
    open spec fn holds(t: Thing) -> bool {
        t is Array
    }
}

impl HasRefCnt for HV {
    open spec fn holds(t: Thing) -> bool {
        t is Hash
    }
}

/// The world after a handle took over a unit of the object at `p` that
/// nobody accounted for: the count stays.
pub open spec fn owned(w: World, p: usize) -> World {
    w.with_held(p, 1)
}

/// The world after a handle took a unit of its own of the object at `p`:
/// the count is one higher.
pub open spec fn borrowed(w: World, p: usize) -> World {
    w.with_refcnt(p, 1).with_held(p, 1)
}

/// The world after a handle on the object at `p` was dropped: the count
/// is one lower.
pub open spec fn dropped(w: World, p: usize) -> World {
    w.with_held(p, -1).with_refcnt(p, -1)
}

/// The world after a handle on the object at `p` was turned into a bare
/// address: the count stays, and nobody accounts for the handle's unit.
pub open spec fn forgotten(w: World, p: usize) -> World {
    w.with_held(p, -1)
}

/// An address that is known to be that of an object of kind `T`. It
/// accounts for no unit.
#[derive(Debug)]
pub struct Ref<T: HasRefCnt> {
    ptr: usize,
    kind: PhantomData<T>,
}

impl<T: HasRefCnt> View for Ref<T> {
    type V = usize;

    closed spec fn view(&self) -> usize {
        self.ptr
    }
}

impl<T: HasRefCnt> Ref<T> {
    /// Whether the address is that of an object of kind `T` whose count
    /// is positive.
    pub open spec fn wf(self, w: World) -> bool {
        w.live(self@) && T::holds(w.objs[self@ as int].thing)
    }

    /// The address `ptr`, taken as that of an object of kind `T`.
    pub fn from_raw(ptr: usize) -> (r: Ref<T>)
        ensures
            r@ == ptr,
    {
        Ref { ptr, kind: PhantomData }
    }

    /// The address.
    pub fn as_ptr(&self) -> (ptr: usize)
        ensures
            ptr == self@,
    {
        self.ptr
    }

    /// Adds one unit to the object's count.
    pub fn incref(&self, perl: &mut Interpreter)
        requires
            old(perl)@.wf(),
            old(perl)@.live(self@),
            old(perl)@.refcnt(self@) < usize::MAX,
        ensures
            final(perl)@ == old(perl)@.with_refcnt(self@, 1),
            final(perl)@.wf(),
            old(perl)@.loose_moved(final(perl)@, self@, 1),
    {
        perl.sv_refcnt_inc(self.ptr);
    }

    /// Takes one unit that nobody accounts for from the object's count.
    pub fn decref(&self, perl: &mut Interpreter)
        requires
            old(perl)@.wf(),
            old(perl)@.valid(self@),
            old(perl)@.loose(self@) >= 1,
        ensures
            final(perl)@ == old(perl)@.with_refcnt(self@, -1),
            final(perl)@.wf(),
            old(perl)@.loose_moved(final(perl)@, self@, -1),
    {
        perl.sv_refcnt_dec(self.ptr);
    }

    /// A handle on the same object with a unit of its own.
    pub fn to_owned(&self, perl: &mut Interpreter) -> (r: Owned<T>)
        requires
            old(perl)@.wf(),
            self.wf(old(perl)@),
            old(perl)@.refcnt(self@) < usize::MAX,
        ensures
            r@ == self@,
            final(perl)@ == borrowed(old(perl)@, self@),
            final(perl)@.wf(),
            r.wf(final(perl)@),
            old(perl)@.loose_kept(final(perl)@),
    {
        let svr: Ref<T> = Ref { ptr: self.ptr, kind: PhantomData };
        svr.incref(perl);
        perl.adopt(self.ptr);
        Owned(svr)
    }
}

/// A handle that accounts for exactly one unit of its object's count,
/// from the moment it is made until it is dropped.
#[derive(Debug)]
pub struct Owned<T: HasRefCnt>(Ref<T>);

impl<T: HasRefCnt> View for Owned<T> {
    type V = usize;

    closed spec fn view(&self) -> usize {
        self.0@
    }
}

impl<T: HasRefCnt> Owned<T> {
    /// Whether the handle's unit is on the books of `w`, and the object is
    /// of kind `T`.
    pub open spec fn wf(self, w: World) -> bool {
        &&& w.valid(self@)
        &&& w.held(self@) >= 1
        &&& T::holds(w.objs[self@ as int].thing)
    }

    /// A handle that takes over the unit which `raw` already carries and
    /// which nobody accounts for. The count is not touched.
    pub fn from_raw_owned(perl: &mut Interpreter, raw: usize) -> (r: Owned<T>)
        requires
            old(perl)@.wf(),
            old(perl)@.valid(raw),
            T::holds(old(perl)@.objs[raw as int].thing),
            old(perl)@.loose(raw) >= 1,
        ensures
            r@ == raw,
            final(perl)@ == owned(old(perl)@, raw),
            final(perl)@.wf(),
            r.wf(final(perl)@),
            old(perl)@.loose_moved(final(perl)@, raw, -1),
    {
        perl.adopt(raw);
        Owned(Ref::from_raw(raw))
    }

    /// A handle on an object whose address was borrowed from elsewhere:
    /// the count is raised by one, and the new unit is the handle's.
    pub fn from_raw_borrowed(perl: &mut Interpreter, raw: usize) -> (r: Owned<T>)
        requires
            old(perl)@.wf(),
            old(perl)@.live(raw),
            T::holds(old(perl)@.objs[raw as int].thing),
            old(perl)@.refcnt(raw) < usize::MAX,
        ensures
            r@ == raw,
            final(perl)@ == borrowed(old(perl)@, raw),
            final(perl)@.wf(),
            r.wf(final(perl)@),
            old(perl)@.loose_kept(final(perl)@),
    {
        Ref::<T>::from_raw(raw).to_owned(perl)
    }

    /// The address, without a unit.
    pub fn deref(&self) -> (r: &Ref<T>)
        ensures
            r@ == self@,
    {
        &self.0
    }

    /// The address.
    pub fn as_ptr(&self) -> (ptr: usize)
        ensures
            ptr == self@,
    {
        self.0.as_ptr()
    }

    /// Ends the handle: its unit is given back, and the count is one lower.
    pub fn drop(self, perl: &mut Interpreter)
        requires
            old(perl)@.wf(),
            self.wf(old(perl)@),
        ensures
            final(perl)@ == dropped(old(perl)@, self@),
            final(perl)@.wf(),
            old(perl)@.loose_kept(final(perl)@),
    {
        perl.disown(self.0.ptr);
        self.0.decref(perl);
    }

    /// Ends the handle without touching the count: the address comes
    /// back, and with it a unit that nobody accounts for.
    pub fn into_raw(self, perl: &mut Interpreter) -> (raw: usize)
        requires
            old(perl)@.wf(),
            self.wf(old(perl)@),
        ensures
            raw == self@,
            final(perl)@ == forgotten(old(perl)@, self@),
            final(perl)@.wf(),
            old(perl)@.loose_moved(final(perl)@, raw, 1),
    {
        perl.disown(self.0.ptr);
        self.0.ptr
    }
}

/// What can be done with handles on one object.
pub enum HandleOp {
    /// A handle is made that takes over a unit which was already counted.
    FromOwned,
    /// A handle is made from a borrowed address, or copied from a handle.
    FromBorrowed,
    /// A handle is dropped.
    Drop,
}

impl HandleOp {
    /// Whether the operation may be made on the object at `p` in `w`.
    pub open spec fn permitted(self, w: World, p: usize) -> bool {
        match self {
            HandleOp::FromOwned => w.loose(p) >= 1,
            HandleOp::FromBorrowed => w.live(p),
            HandleOp::Drop => w.held(p) >= 1,
        }
    }

    /// The world after the operation was made on the object at `p`.
    pub open spec fn apply(self, w: World, p: usize) -> World {
        match self {
            HandleOp::FromOwned => owned(w, p),
            HandleOp::FromBorrowed => borrowed(w, p),
            HandleOp::Drop => dropped(w, p),
        }
    }
}

/// The world after the operations `ops` were made, in order, on the object at `p`.
pub open spec fn run(w: World, p: usize, ops: Seq<HandleOp>) -> World
    decreases ops.len(),
{
    if ops.len() == 0 {
        w
    } else {
        ops.last().apply(run(w, p, ops.drop_last()), p)
    }
}

/// Whether each of `ops` may be made in the world that those before it leave.
pub open spec fn permitted(w: World, p: usize, ops: Seq<HandleOp>) -> bool
    decreases ops.len(),
{
    if ops.len() == 0 {
        true
    } else {
        permitted(w, p, ops.drop_last()) && ops.last().permitted(
            run(w, p, ops.drop_last()),
            p,
        )
    }
}

/// How many of `ops` make a handle that takes over a unit.
pub open spec fn taken_over(ops: Seq<HandleOp>) -> nat
    decreases ops.len(),
{
    if ops.len() == 0 {
        0
    } else {
        taken_over(ops.drop_last()) + if ops.last() is FromOwned {
            1nat
        } else {
            0nat
        }
    }
}

/// One operation on handles keeps the world well formed, leaves every
/// other object alone, and moves the count and the handles' units of its
/// object together, but for a handle that takes over a unit: that one
/// adds a handle and leaves the count.
pub proof fn lemma_handle_step(w: World, p: usize, op: HandleOp)
    requires
        w.wf(),
        w.valid(p),
        op.permitted(w, p),
    ensures
        op.apply(w, p).wf(),
        op.apply(w, p).valid(p),
        op.apply(w, p).objs.len() == w.objs.len(),
        forall|q: usize| q != p && w.valid(q) ==> op.apply(w, p).objs[q as int] == w.objs[q as int],
        op.apply(w, p).refcnt(p) - op.apply(w, p).held(p) == w.refcnt(p) - w.held(p) - if op is FromOwned {
            1int
        } else {
            0int
        },
        op.apply(w, p).loose(p) == w.loose(p) - if op is FromOwned {
            1int
        } else {
            0int
        },
{
    assert(w.loose(p) >= 0);
    let o = w.objs[p as int];
    match op {
        HandleOp::FromOwned => {
            let o1 = crate::raw::model::Object { held: o.held + 1, ..o };
            crate::raw::sv::lemma_same_thing(w, p, o1);
        },
        HandleOp::FromBorrowed => {
            let o1 = crate::raw::model::Object { refcnt: o.refcnt + 1, ..o };
            crate::raw::sv::lemma_same_thing(w, p, o1);
            let w1 = w.with_object(p, o1);
            assert(w1.loose(p) >= 0);
            let o2 = crate::raw::model::Object { held: o.held + 1, ..o1 };
            crate::raw::sv::lemma_same_thing(w1, p, o2);
            assert(w1.with_object(p, o2).objs =~= borrowed(w, p).objs);
        },
        HandleOp::Drop => {
            let o1 = crate::raw::model::Object { held: (o.held - 1) as nat, ..o };
            crate::raw::sv::lemma_same_thing(w, p, o1);
            let w1 = w.with_object(p, o1);
            assert(w1.loose(p) >= 0);
            let o2 = crate::raw::model::Object { refcnt: (o.refcnt - 1) as nat, ..o1 };
            crate::raw::sv::lemma_same_thing(w1, p, o2);
            assert(w1.with_object(p, o2).objs =~= dropped(w, p).objs);
        },
    }
}

/// Whatever handles are made on an object and dropped, in whatever order:
/// the world stays well formed; the count of the object moves with the
/// number of handles on it, but for each handle that took over a unit,
/// which added a handle and left the count; and while a handle is on the
/// books, the count is positive.
pub proof fn lemma_refcount_balance(w: World, p: usize, ops: Seq<HandleOp>)
    requires
        w.wf(),
        w.valid(p),
        permitted(w, p, ops),
    ensures
        run(w, p, ops).wf(),
        run(w, p, ops).valid(p),
        run(w, p, ops).refcnt(p) - run(w, p, ops).held(p) + taken_over(ops) == w.refcnt(p)
            - w.held(p),
        run(w, p, ops).held(p) >= 1 ==> run(w, p, ops).refcnt(p) >= 1,
    decreases ops.len(),
{
    if ops.len() > 0 {
        lemma_refcount_balance(w, p, ops.drop_last());
        lemma_handle_step(run(w, p, ops.drop_last()), p, ops.last());
    }
    lemma_held_is_live_or_none(run(w, p, ops), p);
}

/// Whatever handles are made on an object and dropped, in whatever order:
/// at no point on the way is the count of the object zero while a handle
/// on it is on the books.
pub proof fn lemma_refcount_never_zero(w: World, p: usize, ops: Seq<HandleOp>)
    requires
        w.wf(),
        w.valid(p),
        permitted(w, p, ops),
    ensures
        forall|k: int|
            0 <= k <= ops.len() && (#[trigger] run(w, p, ops.take(k))).held(p) >= 1 ==> run(
                w,
                p,
                ops.take(k),
            ).refcnt(p) >= 1,
    decreases ops.len(),
{
    assert forall|k: int|
        0 <= k <= ops.len() && (#[trigger] run(w, p, ops.take(k))).held(p) >= 1 implies run(
        w,
        p,
        ops.take(k),
    ).refcnt(p) >= 1 by {
        if k == ops.len() {
            assert(ops.take(k) =~= ops);
            lemma_refcount_balance(w, p, ops);
        } else {
            lemma_refcount_never_zero(w, p, ops.drop_last());
            assert(ops.drop_last().take(k) =~= ops.take(k));
        }
    }
}

/// Once every handle that was made on an object is dropped again, and
/// none of them had taken over a unit, the count is what it was at the
/// start.
pub proof fn lemma_refcount_returns(w: World, p: usize, ops: Seq<HandleOp>)
    requires
        w.wf(),
        w.valid(p),
        permitted(w, p, ops),
        taken_over(ops) == 0,
        run(w, p, ops).held(p) == w.held(p),
    ensures
        run(w, p, ops).refcnt(p) == w.refcnt(p),
{
    lemma_refcount_balance(w, p, ops);
}

proof fn lemma_held_is_live_or_none(w: World, p: usize)
    requires
        w.wf(),
        w.valid(p),
    ensures
        w.held(p) >= 1 ==> w.refcnt(p) >= 1,
{
    if w.held(p) >= 1 {
        lemma_held_is_live(w, p);
    }
}

} // verus!
