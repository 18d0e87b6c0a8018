//! The context of one call of a native subroutine: the interpreter and
//! the stack frame through which arguments come in and results go out.

use vstd::prelude::*;
use crate::convert::{
    converts, has_room, lent, try_converts, try_has_room, try_lent, unit_of, FromSV, IntoSV,
    TryFromSV,
};
use crate::array::AV;
use crate::croak::{rethrow_panic, rethrown, Outcome};
use crate::handle::forgotten;
use crate::raw::model::{Object, World};
use crate::raw::{Interpreter, Stack};
use crate::scalar::{fresh, SV};

verus! {

/// What is kept of the interpreter as it was when a frame was entered:
/// how many units of each object handles held.
pub struct Entry {
    marks: Vec<usize>,
    world: Ghost<World>,
}

impl View for Entry {
    type V = World;

    closed spec fn view(&self) -> World {
        self.world@
    }
}

impl Entry {
    /// Whether what is kept is what handles held in the interpreter as
    /// it was.
    pub closed spec fn wf(self) -> bool {
        &&& self.marks@.len() == self@.objs.len()
        &&& forall|p: int| 0 <= p < self.marks@.len() ==> self.marks@[p] == (#[trigger] self@.objs[p]).held
    }

    /// What handles hold in `perl` now.
    pub fn new(perl: &Interpreter) -> (entry: Entry)
        ensures
            entry@ == perl@,
            entry.wf(),
    {
        let n = perl.heap_len();
        let mut marks: Vec<usize> = Vec::new();
        let mut p: usize = 0;
        while p < n
            invariant
                n == perl@.objs.len(),
                p <= n,
                marks@.len() == p,
                forall|q: int| 0 <= q < p ==> marks@[q] == (#[trigger] perl@.objs[q]).held,
            decreases n - p,
        {
            marks.push(perl.sv_held(p));
            p += 1;
        }
        Entry { marks, world: Ghost(perl@) }
    }

    /// How many units of the object at `p` handles held when the frame
    /// was entered; none of an object that was made since.
    pub fn mark(&self, p: usize) -> (n: usize)
        requires
            self.wf(),
        ensures
            n == self@.handles(p),
    {
        if p < self.marks.len() {
            self.marks[p]
        } else {
            0
        }
    }
}

/// The context of one call.
pub struct Context {
    /// The interpreter that made the call.
    pub perl: Interpreter,
    /// The local picture of the stack frame.
    pub stack: Stack,
    /// What is kept of the interpreter as it was when the frame was entered.
    pub entry: Entry,
}

/// The argument at index `idx`; nothing where there is none.
pub open spec fn arg_at(w: World, idx: int) -> Option<usize> {
    if 0 <= idx < w.args.len() {
        Some(w.args[idx])
    } else {
        None
    }
}

/// The world after the scalar that `val` converts to was pushed.
pub open spec fn pushed<T: IntoSV>(w: World, val: T) -> World {
    forgotten(val.made(w), val.address(w)).ret_pushed(val.address(w))
}

/// What the machine's limits ask of the world for `val` to be pushed.
pub open spec fn can_push<T: IntoSV>(w: World, val: T) -> bool {
    val.fits(w) && w.rets.len() < usize::MAX
}

impl Context {
    /// Whether the interpreter is well formed and the local picture of
    /// the frame agrees with it.
    pub open spec fn wf(self) -> bool {
        &&& self.perl@.wf()
        &&& self.stack.items() == self.perl@.args.len()
        &&& self.stack.sp() == self.perl@.rets.len()
        &&& self.entry.wf()
    }

    /// Enters the frame of the call that `perl` is making.
    pub fn new(perl: Interpreter) -> (ctx: Context)
        requires
            perl@.wf(),
        ensures
            ctx.perl@ == perl@,
            ctx.entry@ == perl@,
            ctx.wf(),
    {
        let stack = perl.stack_init();
        let entry = Entry::new(&perl);
        Context { perl, stack, entry }
    }

    /// Leaves the frame, and gives the interpreter back.
    pub fn into_inner(self) -> (perl: Interpreter)
        ensures
            perl@ == self.perl@,
    {
        self.perl
    }

    /// Writes the local stack pointer back to the host, which then sees
    /// every result pushed so far.
    pub fn st_putback(&mut self)
        requires
            old(self).wf(),
            old(self).perl@.putbacks < usize::MAX,
        ensures
            final(self).perl@ == old(self).perl@.put_back(old(self).perl@.rets.len()),
            final(self).wf(),
            final(self).entry == old(self).entry,
    {
        self.perl.stack_putback(&self.stack);
    }

    /// The number of arguments on the stack.
    pub fn st_items(&mut self) -> (n: isize)
        requires
            old(self).wf(),
        ensures
            n == old(self).perl@.args.len(),
            final(self).perl@ == old(self).perl@,
            final(self).wf(),
            final(self).entry == old(self).entry,
    {
        self.perl.stack_items(&self.stack)
    }

    fn st_fetch_raw(&mut self, idx: isize) -> (svp: Option<usize>)
        requires
            old(self).wf(),
        ensures
            svp == arg_at(old(self).perl@, idx as int),
            svp is Some ==> old(self).perl@.live(svp->Some_0),
            final(self).perl@ == old(self).perl@,
            final(self).wf(),
            final(self).entry == old(self).entry,
    {
        if idx >= self.st_items() {
            return None;
        }
        self.perl.stack_fetch(&self.stack, idx)
    }

    /// The argument at index `idx`, converted; nothing where the call
    /// was made with fewer arguments.
    pub fn st_fetch<T: FromSV>(&mut self, idx: isize) -> (out: Option<T>)
        requires
            old(self).wf(),
            has_room::<T>(old(self).perl@, arg_at(old(self).perl@, idx as int)),
        ensures
            converts(old(self).perl@, arg_at(old(self).perl@, idx as int), out),
            final(self).perl@ == lent(
                old(self).perl@,
                unit_of::<T>(arg_at(old(self).perl@, idx as int)),
            ),
            final(self).wf(),
            final(self).entry == old(self).entry,
            out is Some ==> old(self).perl@.live(arg_at(old(self).perl@, idx as int)->Some_0),
    {
        match self.st_fetch_raw(idx) {
            Some(svp) => Some(T::from_sv(&mut self.perl, svp)),
            None => None,
        }
    }

    /// The argument at index `idx`, converted with a check: nothing where
    /// the call was made with fewer arguments, and what the conversion
    /// reports where the argument is not of the kind asked for.
    pub fn st_try_fetch<T: TryFromSV>(&mut self, idx: isize) -> (out: Option<Result<T, String>>)
        requires
            old(self).wf(),
            try_has_room::<T>(old(self).perl@, arg_at(old(self).perl@, idx as int)),
        ensures
            try_converts(old(self).perl@, arg_at(old(self).perl@, idx as int), out),
            final(self).perl@ == try_lent::<T>(
                old(self).perl@,
                arg_at(old(self).perl@, idx as int),
            ),
            final(self).wf(),
            final(self).entry == old(self).entry,
            out is Some ==> old(self).perl@.live(arg_at(old(self).perl@, idx as int)->Some_0),
    {
        match self.st_fetch_raw(idx) {
            Some(svp) => Some(T::try_from_sv(&mut self.perl, svp)),
            None => None,
        }
    }

    /// Converts `val` to a scalar and pushes it behind the results. The
    /// stack takes the unit of the scalar.
    pub fn st_push<T: IntoSV>(&mut self, val: T)
        requires
            old(self).wf(),
            can_push(old(self).perl@, val),
        ensures
            final(self).perl@ == pushed(old(self).perl@, val),
            final(self).wf(),
            final(self).perl@.rets == old(self).perl@.rets.push(val.address(old(self).perl@)),
            final(self).perl@.args == old(self).perl@.args,
            final(self).perl@.sp == old(self).perl@.sp,
            final(self).perl@.putbacks == old(self).perl@.putbacks,
            final(self).perl@.raised == old(self).perl@.raised,
            final(self).entry == old(self).entry,
            forall|p: usize| #[trigger]
                final(self).perl@.handles(p) + val.units(p) == old(self).perl@.handles(p),
    {
        let sv = val.into_sv(&mut self.perl);
        let ghost made = self.perl@;
        let raw = sv.into_raw(&mut self.perl);
        let ghost let_go = self.perl@;
        self.perl.stack_xpush_sv_mortal(&mut self.stack, raw);
        proof {
            assert forall|p: usize| #[trigger]
                self.perl@.handles(p) + val.units(p) == old(self).perl@.handles(p) by {
                assert(made.handles(p) + val.units(p) == old(self).perl@.handles(p) + if p == raw {
                    1nat
                } else {
                    0nat
                });
                assert(let_go.handles(p) + if p == raw {
                    1nat
                } else {
                    0nat
                } == made.handles(p));
                assert(self.perl@.handles(p) == let_go.handles(p));
            }
        }
    }

    /// The world after what a call ended with was dealt with: the
    /// results were pushed, or the failure was raised as an exception of
    /// the host.
    pub open spec fn consumed<R: Stackable>(w: World, outcome: Outcome<R>) -> World {
        match outcome {
            Outcome::Done(value) => value.stacked(w),
            Outcome::NativeFailure(payload) => rethrown(w, payload),
            Outcome::HostException(sv) => forgotten(w, sv@).croaked(sv@),
        }
    }

    /// The world after a call that ended with `outcome` was wound up:
    /// the results were pushed, or the failure was raised as an
    /// exception of the host; the handles that the native subroutine made
    /// and did not drop, nor hand over in `outcome`, were dropped; and
    /// the stack pointer was written back. `entry` is the world as it
    /// was when the frame was entered.
    pub open spec fn finished<R: Stackable>(w: World, entry: World, outcome: Outcome<R>) -> World {
        Context::consumed(w, outcome).given_back(entry).put_back(
            Context::consumed(w, outcome).rets.len(),
        )
    }

    /// The units of the object at `p` that the handles in `outcome` hold.
    pub open spec fn outcome_units<R: Stackable>(outcome: Outcome<R>, p: usize) -> nat {
        match outcome {
            Outcome::Done(value) => value.held_units(p),
            Outcome::NativeFailure(payload) => 0,
            Outcome::HostException(sv) => if p == sv@ {
                1
            } else {
                0
            },
        }
    }

    /// What the machine's limits ask for a call that ended with `outcome`
    /// to be wound up, and that the native subroutine has not written
    /// the stack pointer back itself.
    pub open spec fn can_finish<R: Stackable>(self, outcome: Outcome<R>) -> bool {
        &&& self.perl@.putbacks < usize::MAX
        &&& self.perl@.putbacks == self.entry@.putbacks
        &&& match outcome {
            Outcome::Done(value) => value.stackable(self.perl@),
            Outcome::NativeFailure(payload) => self.perl@.objs.len() < usize::MAX,
            Outcome::HostException(sv) => sv.wf(self.perl@),
        }
    }

    /// Whether the native subroutine has dropped no handle that was
    /// there when the frame was entered.
    pub open spec fn kept_handles<R: Stackable>(self, outcome: Outcome<R>) -> bool {
        forall|p: usize| #[trigger]
            self.perl@.handles(p) >= self.entry@.handles(p) + Context::outcome_units(outcome, p)
    }

    /// Drops every handle that was made since the frame was entered and
    /// is still on the books: of each object, the units that handles hold
    /// beyond what they held at entry are given back.
    pub fn give_back(&mut self)
        requires
            old(self).wf(),
        ensures
            final(self).perl@ == old(self).perl@.given_back(old(self).entry@),
            final(self).wf(),
            final(self).entry == old(self).entry,
            forall|p: usize| #[trigger]
                final(self).perl@.handles(p) == if old(self).perl@.handles(p) > old(
                    self,
                ).entry@.handles(p) {
                    old(self).entry@.handles(p)
                } else {
                    old(self).perl@.handles(p)
                },
    {
        let ghost w = self.perl@;
        let ghost entry = self.entry@;
        let n = self.perl.heap_len();
        let mut p: usize = 0;
        proof {
            assert(w.given_back_upto(entry, 0).objs =~= w.objs);
        }
        while p < n
            invariant
                n == w.objs.len(),
                p <= n,
                w.wf(),
                self.wf(),
                self.entry == old(self).entry,
                entry == self.entry@,
                self.stack == old(self).stack,
                self.perl@ == w.given_back_upto(entry, p as nat),
            decreases n - p,
        {
            let mark = self.entry.mark(p);
            let ghost base = self.perl@;
            proof {
                assert(base.objs.len() == n);
                assert(base.loose(p) >= 0);
                assert(base.objs =~= base.with_object(p, base.objs[p as int]).objs);
            }
            while self.perl.sv_held(p) > mark
                invariant
                    p < n,
                    n == w.objs.len(),
                    n == base.objs.len(),
                    base.refcnt(p) >= base.held(p),
                    base == w.given_back_upto(entry, p as nat),
                    self.perl@.wf(),
                    self.stack == old(self).stack,
                    self.entry == old(self).entry,
                    self.stack.items() == self.perl@.args.len(),
                    self.stack.sp() == self.perl@.rets.len(),
                    self.entry.wf(),
                    mark == entry.handles(p),
                    self.perl@.held(p) <= base.held(p),
                    self.perl@.held(p) >= mark || self.perl@.held(p) == base.held(p),
                    self.perl@ == base.with_object(
                        p,
                        Object {
                            held: self.perl@.held(p),
                            refcnt: (base.refcnt(p) - (base.held(p) - self.perl@.held(p))) as nat,
                            ..base.objs[p as int]
                        },
                    ),
                decreases self.perl@.held(p),
            {
                let ghost before = self.perl@;
                proof {
                    assert(before.loose(p) >= 0);
                }
                self.perl.disown(p);
                let ghost mid = self.perl@;
                self.perl.sv_refcnt_dec(p);
                proof {
                    assert(before.refcnt(p) >= before.held(p));
                    assert(before.refcnt(p) == base.refcnt(p) - (base.held(p) - before.held(p)));
                    assert(mid.objs[p as int].held == before.held(p) - 1);
                    assert(self.perl@.objs[p as int].held == before.held(p) - 1);
                    assert(self.perl@.objs[p as int].refcnt == before.refcnt(p) - 1);
                    assert(self.perl@.objs =~= base.with_object(
                        p,
                        Object {
                            held: self.perl@.held(p),
                            refcnt: (base.refcnt(p) - (base.held(p) - self.perl@.held(p))) as nat,
                            ..base.objs[p as int]
                        },
                    ).objs);
                }
            }
            proof {
                assert(self.perl@.objs =~= w.given_back_upto(entry, (p + 1) as nat).objs);
            }
            p += 1;
        }
        proof {
            assert forall|q: usize| #[trigger]
                self.perl@.handles(q) == if w.handles(q) > entry.handles(q) {
                    entry.handles(q)
                } else {
                    w.handles(q)
                } by {}
        }
    }

    /// Winds the call up, however it ended: pushes the results of a
    /// native subroutine that returned, or raises the failure of one that
    /// failed as an exception of the host; drops every handle that the
    /// native subroutine made and neither dropped nor handed over; then
    /// writes the stack pointer back, once; and gives the interpreter
    /// back. No handle is left behind: unless the native subroutine
    /// dropped a handle that was there before it, the books are what they
    /// were when the frame was entered.
    pub fn finish<R: Stackable>(self, outcome: Outcome<R>) -> (perl: Interpreter)
        requires
            self.wf(),
            self.can_finish(outcome),
        ensures
            perl@ == Context::finished(self.perl@, self.entry@, outcome),
            perl@.wf(),
            perl@.putbacks == self.entry@.putbacks + 1,
            forall|p: usize| #[trigger] perl@.handles(p) <= self.entry@.handles(p),
            self.kept_handles(outcome) ==> self.entry@.same_handles(perl@),
    {
        let mut ctx = self;
        let ghost entry = self.entry@;
        let ghost ended = self.perl@;
        match outcome {
            Outcome::Done(value) => {
                value.push_to(&mut ctx);
            },
            Outcome::NativeFailure(payload) => {
                rethrow_panic(&mut ctx.perl, payload);
                proof {
                    let made = ended.with_new(
                        crate::raw::model::Thing::Scalar(
                            crate::raw::model::Value::Text {
                                bytes: vstd::utf8::encode_utf8(payload.text()),
                                utf8: true,
                            },
                        ),
                    );
                    if ended.raised is Some {
                        assert(ended.inbound(ended.raised->Some_0) >= 1);
                        assert(ended.valid(ended.raised->Some_0)) by {
                            if !ended.valid(ended.raised->Some_0) {
                                assert(ended.inbound(ended.raised->Some_0) == 0);
                            }
                        }
                    }
                    assert forall|p: usize| #[trigger] ctx.perl@.handles(p) == ended.handles(p) by {
                        assert(made.handles(p) == ended.handles(p));
                    }
                }
            },
            Outcome::HostException(sv) => {
                let raw = sv.into_raw(&mut ctx.perl);
                let ghost let_go = ctx.perl@;
                ctx.perl.croak_sv(raw);
                proof {
                    if ended.raised is Some {
                        assert(ended.inbound(ended.raised->Some_0) >= 1);
                        assert(ended.valid(ended.raised->Some_0)) by {
                            if !ended.valid(ended.raised->Some_0) {
                                assert(ended.inbound(ended.raised->Some_0) == 0);
                            }
                        }
                    }
                    assert forall|p: usize| #[trigger]
                        ctx.perl@.handles(p) + Context::outcome_units(outcome, p) == ended.handles(
                            p,
                        ) by {
                        assert(let_go.handles(p) + if p == raw {
                            1nat
                        } else {
                            0nat
                        } == ended.handles(p));
                        assert(ctx.perl@.handles(p) == let_go.handles(p));
                    }
                }
            },
        }
        let ghost dealt = ctx.perl@;
        proof {
            assert forall|p: usize| #[trigger]
                dealt.handles(p) + Context::outcome_units(outcome, p) == ended.handles(p) by {}
        }
        ctx.give_back();
        let ghost wound = ctx.perl@;
        proof {
            assert forall|p: usize| #[trigger] wound.handles(p) <= entry.handles(p) by {}
            if self.kept_handles(outcome) {
                assert forall|p: usize| #[trigger] wound.handles(p) == entry.handles(p) by {
                    assert(dealt.handles(p) + Context::outcome_units(outcome, p) == ended.handles(
                        p,
                    ));
                    assert(ended.handles(p) >= entry.handles(p) + Context::outcome_units(outcome, p));
                }
            }
        }
        ctx.st_putback();
        proof {
            assert forall|p: usize| #[trigger] ctx.perl@.handles(p) == wound.handles(p) by {}
        }
        ctx.into_inner()
    }

    /// Runs the native subroutine `f` in the frame of the call that
    /// `perl` is making, and winds the call up, however `f` ended and
    /// whatever handles it left: the stack pointer is written back once
    /// on every path, and every handle that `f` made and neither dropped
    /// nor handed over is dropped.
    pub fn wrap<R: Stackable, F: FnOnce(&mut Context) -> Outcome<R>>(perl: Interpreter, f: F) -> (out:
        Interpreter)
        requires
            perl@.wf(),
            forall|ctx: &mut Context|
                ctx.wf() && ctx.perl@ == perl@ && ctx.entry@ == perl@ ==> #[trigger] f.requires(
                    (ctx, ),
                ),
            forall|ctx: &mut Context, r: Outcome<R>|
                ctx.wf() && ctx.perl@ == perl@ && ctx.entry@ == perl@ && #[trigger] f.ensures(
                    (ctx, ),
                    r,
                ) ==> final(ctx).wf() && final(ctx).entry@ == perl@ && final(ctx).can_finish(r),
        ensures
            out@.wf(),
            out@.putbacks == perl@.putbacks + 1,
            forall|p: usize| #[trigger] out@.handles(p) <= perl@.handles(p),
            exists|ctx: &mut Context, r: Outcome<R>|
                {
                    &&& ctx.wf()
                    &&& ctx.perl@ == perl@
                    &&& ctx.entry@ == perl@
                    &&& #[trigger] f.ensures((ctx, ), r)
                    &&& out@ == Context::finished(final(ctx).perl@, perl@, r)
                    &&& final(ctx).kept_handles(r) ==> perl@.same_handles(out@)
                },
    {
        let mut ctx = Context::new(perl);
        let outcome = f(&mut ctx);
        ctx.finish(outcome)
    }

    /// Registers the native subroutine that the loader knows as
    /// `xsaddr` with the host, under `name`.
    pub fn new_xs(&mut self, name: &str, xsaddr: usize)
        requires
            old(self).wf(),
        ensures
            final(self).perl@ == old(self).perl@.sub_registered(name@, xsaddr),
            final(self).wf(),
            final(self).entry == old(self).entry,
    {
        self.perl.new_xs(name, xsaddr);
    }

    /// A handle on the array that the host knows as `name`; nothing where
    /// it knows no array by that name.
    pub fn get_av(&mut self, name: &str) -> (av: Option<AV>)
        requires
            old(self).wf(),
            old(self).perl@.array_named(name@) is Some ==> old(self).perl@.refcnt(
                old(self).perl@.array_named(name@)->Some_0,
            ) < usize::MAX,
        ensures
            av is Some == old(self).perl@.array_named(name@) is Some,
            av is Some ==> av->Some_0@ == old(self).perl@.array_named(name@)->Some_0
                && av->Some_0.wf(final(self).perl@),
            final(self).perl@ == lent(old(self).perl@, old(self).perl@.array_named(name@)),
            final(self).wf(),
            final(self).entry == old(self).entry,
    {
        match self.perl.get_av(name) {
            Some(avp) => Some(AV::from_raw_borrowed(&mut self.perl, avp)),
            None => None,
        }
    }

    /// Calls the subroutine of the host that is known as `name`. Where
    /// the call dies, what it died with comes back as the outcome that
    /// the native subroutine has to end with, so that everything that it
    /// holds is dropped before the exception goes on to the host.
    pub fn call_pv(&mut self, name: &str, flags: u32) -> (outcome: Outcome<()>)
        requires
            old(self).wf(),
            old(self).perl@.objs.len() < usize::MAX,
        ensures
            match outcome {
                Outcome::Done(_) => old(self).perl@.call_dies(name@) is None && final(self).perl@
                    == old(self).perl@,
                Outcome::HostException(sv) => {
                    &&& old(self).perl@.call_dies(name@) is Some
                    &&& sv@ == old(self).perl@.objs.len()
                    &&& sv.wf(final(self).perl@)
                    &&& final(self).perl@ == fresh(
                        old(self).perl@,
                        crate::raw::model::Value::Text {
                            bytes: vstd::utf8::encode_utf8(
                                old(self).perl@.call_dies(name@)->Some_0,
                            ),
                            utf8: true,
                        },
                    )
                },
                Outcome::NativeFailure(_) => false,
            },
            final(self).wf(),
            final(self).entry == old(self).entry,
    {
        match self.perl.call_pv(name, flags) {
            Some(errsv) => Outcome::HostException(SV::from_raw_owned(&mut self.perl, errsv)),
            None => Outcome::Done(()),
        }
    }

    /// A new scalar that holds what `val` converts to.
    pub fn new_sv<T: IntoSV>(&mut self, val: T) -> (sv: SV)
        requires
            old(self).wf(),
            val.fits(old(self).perl@),
        ensures
            sv@ == val.address(old(self).perl@),
            final(self).perl@ == val.made(old(self).perl@),
            final(self).wf(),
            final(self).entry == old(self).entry,
            sv.wf(final(self).perl@),
    {
        val.into_sv(&mut self.perl)
    }

    /// A new scalar that holds the undefined value.
    pub fn sv_undef(&mut self) -> (sv: SV)
        requires
            old(self).wf(),
            old(self).perl@.objs.len() < usize::MAX,
        ensures
            sv@ == old(self).perl@.objs.len(),
            final(self).perl@ == fresh(old(self).perl@, crate::raw::model::Value::Undef),
            final(self).wf(),
            final(self).entry == old(self).entry,
            sv.wf(final(self).perl@),
    {
        let raw = self.perl.sv_undef();
        SV::from_raw_owned(&mut self.perl, raw)
    }
}

/// What is pushed to the stack as no, one or several scalars.
pub trait Stackable: Sized {
    /// What the machine's limits ask of the world for `self` to be pushed.
    spec fn stackable(self, w: World) -> bool;

    /// The world after `self` was pushed.
    spec fn stacked(self, w: World) -> World;

    /// How many units of the object at `p` the value holds through
    /// handles, which pushing consumes.
    spec fn held_units(self, p: usize) -> nat;

    /// Pushes `self` behind the results, scalar by scalar.
    fn push_to(self, ctx: &mut Context)
        requires
            old(ctx).wf(),
            self.stackable(old(ctx).perl@),
        ensures
            final(ctx).perl@ == self.stacked(old(ctx).perl@),
            final(ctx).wf(),
            final(ctx).perl@.putbacks == old(ctx).perl@.putbacks,
            final(ctx).perl@.args == old(ctx).perl@.args,
            final(ctx).entry == old(ctx).entry,
            forall|p: usize| #[trigger]
                final(ctx).perl@.handles(p) + self.held_units(p) == old(ctx).perl@.handles(p),
    ;
}

impl<T: IntoSV> Stackable for T {
    open spec fn stackable(self, w: World) -> bool {
        can_push(w, self)
    }

    open spec fn stacked(self, w: World) -> World {
        pushed(w, self)
    }

    open spec fn held_units(self, p: usize) -> nat {
        self.units(p)
    }

    fn push_to(self, ctx: &mut Context) {
        ctx.st_push(self);
    }
}

impl Stackable for () {
    open spec fn stackable(self, w: World) -> bool {
        true
    }

    open spec fn stacked(self, w: World) -> World {
        w
    }

    open spec fn held_units(self, p: usize) -> nat {
        0
    }

    fn push_to(self, ctx: &mut Context) {

    }
}

impl<A: IntoSV> Stackable for (A, ) {
    open spec fn stackable(self, w: World) -> bool {
        can_push(w, self.0)
    }

    open spec fn stacked(self, w: World) -> World {
        pushed(w, self.0)
    }

    open spec fn held_units(self, p: usize) -> nat {
        self.0.units(p)
    }

    fn push_to(self, ctx: &mut Context) {
        ctx.st_push(self.0);
    }
}

impl<A: IntoSV, B: IntoSV> Stackable for (A, B, ) {
    open spec fn stackable(self, w: World) -> bool {
        can_push(w, self.0) && can_push(pushed(w, self.0), self.1)
    }

    open spec fn stacked(self, w: World) -> World {
        pushed(pushed(w, self.0), self.1)
    }

    open spec fn held_units(self, p: usize) -> nat {
        self.0.units(p) + self.1.units(p)
    }

    fn push_to(self, ctx: &mut Context) {
        ctx.st_push(self.0);
        ctx.st_push(self.1);
    }
}

impl<A: IntoSV, B: IntoSV, C: IntoSV> Stackable for (A, B, C, ) {
    open spec fn stackable(self, w: World) -> bool {
        can_push(w, self.0) && can_push(pushed(w, self.0), self.1) && can_push(pushed(pushed(w, self.0), self.1), self.2)
    }

    open spec fn stacked(self, w: World) -> World {
        pushed(pushed(pushed(w, self.0), self.1), self.2)
    }

    open spec fn held_units(self, p: usize) -> nat {
        self.0.units(p) + self.1.units(p) + self.2.units(p)
    }

    fn push_to(self, ctx: &mut Context) {
        ctx.st_push(self.0);
        ctx.st_push(self.1);
        ctx.st_push(self.2);
    }
}

impl<A: IntoSV, B: IntoSV, C: IntoSV, D: IntoSV> Stackable for (A, B, C, D, ) {
    open spec fn stackable(self, w: World) -> bool {
        can_push(w, self.0) && can_push(pushed(w, self.0), self.1) && can_push(pushed(pushed(w, self.0), self.1), self.2) && can_push(pushed(pushed(pushed(w, self.0), self.1), self.2), self.3)
    }

    open spec fn stacked(self, w: World) -> World {
        pushed(pushed(pushed(pushed(w, self.0), self.1), self.2), self.3)
    }

    open spec fn held_units(self, p: usize) -> nat {
        self.0.units(p) + self.1.units(p) + self.2.units(p) + self.3.units(p)
    }

    fn push_to(self, ctx: &mut Context) {
        ctx.st_push(self.0);
        ctx.st_push(self.1);
        ctx.st_push(self.2);
        ctx.st_push(self.3);
    }
}

impl<A: IntoSV, B: IntoSV, C: IntoSV, D: IntoSV, E: IntoSV> Stackable for (A, B, C, D, E, ) {
    open spec fn stackable(self, w: World) -> bool {
        can_push(w, self.0) && can_push(pushed(w, self.0), self.1) && can_push(pushed(pushed(w, self.0), self.1), self.2) && can_push(pushed(pushed(pushed(w, self.0), self.1), self.2), self.3) && can_push(pushed(pushed(pushed(pushed(w, self.0), self.1), self.2), self.3), self.4)
    }

    open spec fn stacked(self, w: World) -> World {
        pushed(pushed(pushed(pushed(pushed(w, self.0), self.1), self.2), self.3), self.4)
    }

    open spec fn held_units(self, p: usize) -> nat {
        self.0.units(p) + self.1.units(p) + self.2.units(p) + self.3.units(p) + self.4.units(p)
    }

    fn push_to(self, ctx: &mut Context) {
        ctx.st_push(self.0);
        ctx.st_push(self.1);
        ctx.st_push(self.2);
        ctx.st_push(self.3);
        ctx.st_push(self.4);
    }
}

impl<A: IntoSV, B: IntoSV, C: IntoSV, D: IntoSV, E: IntoSV, F: IntoSV> Stackable for (A, B, C, D, E, F, ) {
    open spec fn stackable(self, w: World) -> bool {
        can_push(w, self.0) && can_push(pushed(w, self.0), self.1) && can_push(pushed(pushed(w, self.0), self.1), self.2) && can_push(pushed(pushed(pushed(w, self.0), self.1), self.2), self.3) && can_push(pushed(pushed(pushed(pushed(w, self.0), self.1), self.2), self.3), self.4) && can_push(pushed(pushed(pushed(pushed(pushed(w, self.0), self.1), self.2), self.3), self.4), self.5)
    }

    open spec fn stacked(self, w: World) -> World {
        pushed(pushed(pushed(pushed(pushed(pushed(w, self.0), self.1), self.2), self.3), self.4), self.5)
    }

    open spec fn held_units(self, p: usize) -> nat {
        self.0.units(p) + self.1.units(p) + self.2.units(p) + self.3.units(p) + self.4.units(p) + self.5.units(p)
    }

    fn push_to(self, ctx: &mut Context) {
        ctx.st_push(self.0);
        ctx.st_push(self.1);
        ctx.st_push(self.2);
        ctx.st_push(self.3);
        ctx.st_push(self.4);
        ctx.st_push(self.5);
    }
}

impl<A: IntoSV, B: IntoSV, C: IntoSV, D: IntoSV, E: IntoSV, F: IntoSV, G: IntoSV> Stackable for (A, B, C, D, E, F, G, ) {
    open spec fn stackable(self, w: World) -> bool {
        can_push(w, self.0) && can_push(pushed(w, self.0), self.1) && can_push(pushed(pushed(w, self.0), self.1), self.2) && can_push(pushed(pushed(pushed(w, self.0), self.1), self.2), self.3) && can_push(pushed(pushed(pushed(pushed(w, self.0), self.1), self.2), self.3), self.4) && can_push(pushed(pushed(pushed(pushed(pushed(w, self.0), self.1), self.2), self.3), self.4), self.5) && can_push(pushed(pushed(pushed(pushed(pushed(pushed(w, self.0), self.1), self.2), self.3), self.4), self.5), self.6)
    }

    open spec fn stacked(self, w: World) -> World {
        pushed(pushed(pushed(pushed(pushed(pushed(pushed(w, self.0), self.1), self.2), self.3), self.4), self.5), self.6)
    }

    open spec fn held_units(self, p: usize) -> nat {
        self.0.units(p) + self.1.units(p) + self.2.units(p) + self.3.units(p) + self.4.units(p) + self.5.units(p) + self.6.units(p)
    }

    fn push_to(self, ctx: &mut Context) {
        ctx.st_push(self.0);
        ctx.st_push(self.1);
        ctx.st_push(self.2);
        ctx.st_push(self.3);
        ctx.st_push(self.4);
        ctx.st_push(self.5);
        ctx.st_push(self.6);
    }
}

impl<A: IntoSV, B: IntoSV, C: IntoSV, D: IntoSV, E: IntoSV, F: IntoSV, G: IntoSV, H: IntoSV> Stackable for (A, B, C, D, E, F, G, H, ) {
    open spec fn stackable(self, w: World) -> bool {
        can_push(w, self.0) && can_push(pushed(w, self.0), self.1) && can_push(pushed(pushed(w, self.0), self.1), self.2) && can_push(pushed(pushed(pushed(w, self.0), self.1), self.2), self.3) && can_push(pushed(pushed(pushed(pushed(w, self.0), self.1), self.2), self.3), self.4) && can_push(pushed(pushed(pushed(pushed(pushed(w, self.0), self.1), self.2), self.3), self.4), self.5) && can_push(pushed(pushed(pushed(pushed(pushed(pushed(w, self.0), self.1), self.2), self.3), self.4), self.5), self.6) && can_push(pushed(pushed(pushed(pushed(pushed(pushed(pushed(w, self.0), self.1), self.2), self.3), self.4), self.5), self.6), self.7)
    }

    open spec fn stacked(self, w: World) -> World {
        pushed(pushed(pushed(pushed(pushed(pushed(pushed(pushed(w, self.0), self.1), self.2), self.3), self.4), self.5), self.6), self.7)
    }

    open spec fn held_units(self, p: usize) -> nat {
        self.0.units(p) + self.1.units(p) + self.2.units(p) + self.3.units(p) + self.4.units(p) + self.5.units(p) + self.6.units(p) + self.7.units(p)
    }

    fn push_to(self, ctx: &mut Context) {
        ctx.st_push(self.0);
        ctx.st_push(self.1);
        ctx.st_push(self.2);
        ctx.st_push(self.3);
        ctx.st_push(self.4);
        ctx.st_push(self.5);
        ctx.st_push(self.6);
        ctx.st_push(self.7);
    }
}

impl<A: IntoSV, B: IntoSV, C: IntoSV, D: IntoSV, E: IntoSV, F: IntoSV, G: IntoSV, H: IntoSV, I: IntoSV> Stackable for (A, B, C, D, E, F, G, H, I, ) {
    open spec fn stackable(self, w: World) -> bool {
        can_push(w, self.0) && can_push(pushed(w, self.0), self.1) && can_push(pushed(pushed(w, self.0), self.1), self.2) && can_push(pushed(pushed(pushed(w, self.0), self.1), self.2), self.3) && can_push(pushed(pushed(pushed(pushed(w, self.0), self.1), self.2), self.3), self.4) && can_push(pushed(pushed(pushed(pushed(pushed(w, self.0), self.1), self.2), self.3), self.4), self.5) && can_push(pushed(pushed(pushed(pushed(pushed(pushed(w, self.0), self.1), self.2), self.3), self.4), self.5), self.6) && can_push(pushed(pushed(pushed(pushed(pushed(pushed(pushed(w, self.0), self.1), self.2), self.3), self.4), self.5), self.6), self.7) && can_push(pushed(pushed(pushed(pushed(pushed(pushed(pushed(pushed(w, self.0), self.1), self.2), self.3), self.4), self.5), self.6), self.7), self.8)
    }

    open spec fn stacked(self, w: World) -> World {
        pushed(pushed(pushed(pushed(pushed(pushed(pushed(pushed(pushed(w, self.0), self.1), self.2), self.3), self.4), self.5), self.6), self.7), self.8)
    }

    open spec fn held_units(self, p: usize) -> nat {
        self.0.units(p) + self.1.units(p) + self.2.units(p) + self.3.units(p) + self.4.units(p) + self.5.units(p) + self.6.units(p) + self.7.units(p) + self.8.units(p)
    }

    fn push_to(self, ctx: &mut Context) {
        ctx.st_push(self.0);
        ctx.st_push(self.1);
        ctx.st_push(self.2);
        ctx.st_push(self.3);
        ctx.st_push(self.4);
        ctx.st_push(self.5);
        ctx.st_push(self.6);
        ctx.st_push(self.7);
        ctx.st_push(self.8);
    }
}

impl<A: IntoSV, B: IntoSV, C: IntoSV, D: IntoSV, E: IntoSV, F: IntoSV, G: IntoSV, H: IntoSV, I: IntoSV, J: IntoSV> Stackable for (A, B, C, D, E, F, G, H, I, J, ) {
    open spec fn stackable(self, w: World) -> bool {
        can_push(w, self.0) && can_push(pushed(w, self.0), self.1) && can_push(pushed(pushed(w, self.0), self.1), self.2) && can_push(pushed(pushed(pushed(w, self.0), self.1), self.2), self.3) && can_push(pushed(pushed(pushed(pushed(w, self.0), self.1), self.2), self.3), self.4) && can_push(pushed(pushed(pushed(pushed(pushed(w, self.0), self.1), self.2), self.3), self.4), self.5) && can_push(pushed(pushed(pushed(pushed(pushed(pushed(w, self.0), self.1), self.2), self.3), self.4), self.5), self.6) && can_push(pushed(pushed(pushed(pushed(pushed(pushed(pushed(w, self.0), self.1), self.2), self.3), self.4), self.5), self.6), self.7) && can_push(pushed(pushed(pushed(pushed(pushed(pushed(pushed(pushed(w, self.0), self.1), self.2), self.3), self.4), self.5), self.6), self.7), self.8) && can_push(pushed(pushed(pushed(pushed(pushed(pushed(pushed(pushed(pushed(w, self.0), self.1), self.2), self.3), self.4), self.5), self.6), self.7), self.8), self.9)
    }

    open spec fn stacked(self, w: World) -> World {
        pushed(pushed(pushed(pushed(pushed(pushed(pushed(pushed(pushed(pushed(w, self.0), self.1), self.2), self.3), self.4), self.5), self.6), self.7), self.8), self.9)
    }

    open spec fn held_units(self, p: usize) -> nat {
        self.0.units(p) + self.1.units(p) + self.2.units(p) + self.3.units(p) + self.4.units(p) + self.5.units(p) + self.6.units(p) + self.7.units(p) + self.8.units(p) + self.9.units(p)
    }

    fn push_to(self, ctx: &mut Context) {
        ctx.st_push(self.0);
        ctx.st_push(self.1);
        ctx.st_push(self.2);
        ctx.st_push(self.3);
        ctx.st_push(self.4);
        ctx.st_push(self.5);
        ctx.st_push(self.6);
        ctx.st_push(self.7);
        ctx.st_push(self.8);
        ctx.st_push(self.9);
    }
}

} // verus!
