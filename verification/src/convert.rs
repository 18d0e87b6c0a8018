//! Conversions between native values and scalars of the host.

use vstd::prelude::*;
use vstd::string::*;
use crate::context::{arg_at, Context};
use crate::handle::borrowed;
use crate::raw::model::World;
use crate::raw::Interpreter;
use crate::scalar::SV;

verus! {

/// The world after a conversion took a unit of the object at `unit`, if
/// it took one.
pub open spec fn lent(w: World, unit: Option<usize>) -> World {
    match unit {
        Some(p) => borrowed(w, p),
        None => w,
    }
}

/// Fast conversion from the address of a scalar: the caller vouches that
/// the scalar is of the kind that the conversion expects. On any other
/// scalar the conversion still returns, silently, with the value that is
/// stated for it.
pub trait FromSV: Sized {
    /// Whether the result is a handle, which takes a unit of the scalar.
    spec fn takes_unit() -> bool;

    /// Whether `out` is what the scalar at `raw` converts to.
    spec fn reads(w: World, raw: usize, out: Self) -> bool;

    /// Perform the conversion.
    fn from_sv(perl: &mut Interpreter, raw: usize) -> (out: Self)
        requires
            old(perl)@.wf(),
            old(perl)@.live(raw),
            Self::takes_unit() ==> old(perl)@.refcnt(raw) < usize::MAX,
        ensures
            Self::reads(old(perl)@, raw, out),
            final(perl)@ == lent(
                old(perl)@,
                if Self::takes_unit() {
                    Some(raw)
                } else {
                    None
                },
            ),
            final(perl)@.wf(),
            old(perl)@.loose_kept(final(perl)@),
    ;
}

/// Construct a scalar from `self`.
pub trait IntoSV: Sized {
    /// What the machine's limits ask of the world for the conversion.
    spec fn fits(self, w: World) -> bool;

    /// The address of the scalar that the conversion gives.
    spec fn address(self, w: World) -> usize;

    /// The world after the conversion.
    spec fn made(self, w: World) -> World;

    /// How many units of the object at `p` the value holds through
    /// handles, which the conversion consumes.
    spec fn units(self, p: usize) -> nat;

    /// Perform the conversion.
    fn into_sv(self, perl: &mut Interpreter) -> (sv: SV)
        requires
            old(perl)@.wf(),
            self.fits(old(perl)@),
        ensures
            sv@ == self.address(old(perl)@),
            final(perl)@ == self.made(old(perl)@),
            final(perl)@.wf(),
            sv.wf(final(perl)@),
            old(perl)@.loose_kept(final(perl)@),
            old(perl)@.extended(final(perl)@),
            forall|p: usize| #[trigger]
                final(perl)@.handles(p) + self.units(p) == old(perl)@.handles(p) + if p == sv@ {
                    1nat
                } else {
                    0nat
                },
    ;
}

/// Checked conversion from the address of a scalar: a scalar that the
/// conversion cannot read is reported, and changes nothing.
pub trait TryFromSV: Sized {
    /// What the conversion reports of the scalar at `raw`; nothing where
    /// it succeeds.
    spec fn failure(w: World, raw: usize) -> Option<Seq<char>>;

    /// The object of which the result, a handle, takes a unit; nothing
    /// where the result is no handle.
    spec fn unit(w: World, raw: usize) -> Option<usize>;

    /// Whether `out` is what the scalar at `raw` converts to.
    spec fn try_reads(w: World, raw: usize, out: Self) -> bool;

    /// Perform the conversion.
    fn try_from_sv(perl: &mut Interpreter, raw: usize) -> (out: Result<Self, String>)
        requires
            old(perl)@.wf(),
            old(perl)@.live(raw),
            Self::failure(old(perl)@, raw) is None && Self::unit(old(perl)@, raw) is Some
                ==> old(perl)@.refcnt(Self::unit(old(perl)@, raw)->Some_0) < usize::MAX,
        ensures
            match out {
                Ok(v) => {
                    &&& Self::failure(old(perl)@, raw) is None
                    &&& Self::try_reads(old(perl)@, raw, v)
                    &&& final(perl)@ == lent(old(perl)@, Self::unit(old(perl)@, raw))
                },
                Err(e) => {
                    &&& Self::failure(old(perl)@, raw) == Some(e@)
                    &&& final(perl)@ == old(perl)@
                },
            },
            final(perl)@.wf(),
            old(perl)@.loose_kept(final(perl)@),
    ;
}

/// Every fast conversion is a checked conversion that never fails, and
/// gives what the fast conversion gives.
impl<T: FromSV> TryFromSV for T {
    open spec fn failure(w: World, raw: usize) -> Option<Seq<char>> {
        None
    }

    open spec fn unit(w: World, raw: usize) -> Option<usize> {
        if T::takes_unit() {
            Some(raw)
        } else {
            None
        }
    }

    open spec fn try_reads(w: World, raw: usize, out: Self) -> bool {
        T::reads(w, raw, out)
    }

    fn try_from_sv(perl: &mut Interpreter, raw: usize) -> (out: Result<Self, String>) {
        Ok(T::from_sv(perl, raw))
    }
}

impl<T: IntoSV> IntoSV for Option<T> {
    open spec fn fits(self, w: World) -> bool {
        match self {
            Some(inner) => inner.fits(w),
            None => w.objs.len() < usize::MAX,
        }
    }

    open spec fn address(self, w: World) -> usize {
        match self {
            Some(inner) => inner.address(w),
            None => w.objs.len() as usize,
        }
    }

    open spec fn made(self, w: World) -> World {
        match self {
            Some(inner) => inner.made(w),
            None => crate::scalar::fresh(w, crate::raw::model::Value::Undef),
        }
    }

    open spec fn units(self, p: usize) -> nat {
        match self {
            Some(inner) => inner.units(p),
            None => 0,
        }
    }

    fn into_sv(self, perl: &mut Interpreter) -> (sv: SV) {
        match self {
            Some(inner) => inner.into_sv(perl),
            None => {
                let raw = perl.sv_undef();
                SV::from_raw_owned(perl, raw)
            },
        }
    }
}

/// The unit that a conversion to `T` takes of what a slot holds.
pub open spec fn unit_of<T: FromSV>(slot: Option<usize>) -> Option<usize> {
    if T::takes_unit() {
        slot
    } else {
        None
    }
}

/// The world after what was taken out of a container, `slot`, was
/// converted to `T` and let go: a handle keeps the unit that the
/// container had, any other result leaves the object one unit less.
pub open spec fn taken<T: FromSV>(w: World, slot: Option<usize>) -> World {
    lent(w, unit_of::<T>(slot)).dec_opt(slot)
}

/// Whether the count of what `slot` holds has room for one more unit,
/// where a conversion to `T` takes one.
pub open spec fn has_room<T: FromSV>(w: World, slot: Option<usize>) -> bool {
    T::takes_unit() && slot is Some ==> w.refcnt(slot->Some_0) < usize::MAX
}

/// Whether `out` is what a conversion to `T` makes of `slot`: nothing of
/// an unpopulated slot, else what the scalar in it reads as.
pub open spec fn converts<T: FromSV>(w: World, slot: Option<usize>, out: Option<T>) -> bool {
    match slot {
        Some(e) => out is Some && T::reads(w, e, out->Some_0),
        None => out is None,
    }
}

/// Converts what was taken out of a container, and lets it go.
pub fn take_out<T: FromSV>(perl: &mut Interpreter, slot: Option<usize>) -> (out: Option<T>)
    requires
        old(perl)@.wf(),
        slot is Some ==> old(perl)@.live(slot->Some_0) && old(perl)@.loose(slot->Some_0) >= 1,
        has_room::<T>(old(perl)@, slot),
    ensures
        converts(old(perl)@, slot, out),
        final(perl)@ == taken::<T>(old(perl)@, slot),
        final(perl)@.wf(),
        slot is Some ==> old(perl)@.loose_moved(final(perl)@, slot->Some_0, -1),
        slot is None ==> old(perl)@.loose_kept(final(perl)@),
{
    match slot {
        Some(e) => {
            let out = T::from_sv(perl, e);
            perl.sv_refcnt_dec(e);
            Some(out)
        },
        None => None,
    }
}

/// Whether the count of the object of which a checked conversion of
/// `slot` to `T` takes a unit has room for it.
pub open spec fn try_has_room<T: TryFromSV>(w: World, slot: Option<usize>) -> bool {
    slot is Some && T::failure(w, slot->Some_0) is None && T::unit(w, slot->Some_0) is Some
        ==> w.refcnt(T::unit(w, slot->Some_0)->Some_0) < usize::MAX
}

/// Whether `out` is what a checked conversion to `T` makes of `slot`:
/// nothing of no argument, else the argument's conversion or what the
/// conversion reports.
pub open spec fn try_converts<T: TryFromSV>(
    w: World,
    slot: Option<usize>,
    out: Option<Result<T, String>>,
) -> bool {
    match slot {
        None => out is None,
        Some(e) => out is Some && match out->Some_0 {
            Ok(v) => T::failure(w, e) is None && T::try_reads(w, e, v),
            Err(msg) => T::failure(w, e) == Some(msg@),
        },
    }
}

/// The world after a checked conversion of `slot` to `T`.
pub open spec fn try_lent<T: TryFromSV>(w: World, slot: Option<usize>) -> World {
    match slot {
        Some(e) => if T::failure(w, e) is None {
            lent(w, T::unit(w, e))
        } else {
            w
        },
        None => w,
    }
}

/// What is reported of an argument that is not of the kind asked for.
pub open spec fn invalid_argument(name: Seq<char>, why: Seq<char>) -> Seq<char> {
    "Invalid argument '"@ + name + "' ("@ + why + ")"@
}

/// What is reported of an argument that the call was made without.
pub open spec fn missing_argument(name: Seq<char>) -> Seq<char> {
    "Missing argument '"@ + name + "'"@
}

/// Fetch a value from the stack, at an index that is moved past what was
/// read.
pub trait TryFromContext: Sized {
    /// What is returned where the value cannot be had.
    type Error;

    /// What the machine's limits ask of the world for the value to be fetched.
    spec fn admits(w: World, index: int) -> bool;

    /// Whether `out` is what fetching the argument called `name` at
    /// `index` gives.
    spec fn fetched(w: World, name: Seq<char>, index: int, out: Result<Self, Self::Error>) -> bool;

    /// The world after the value was fetched at `index`.
    spec fn after(w: World, index: int) -> World;

    /// The index behind what was read at `index`.
    spec fn behind(w: World, index: int) -> int;

    /// Perform the conversion.
    fn try_from_context(ctx: &mut Context, name: &str, index: &mut isize) -> (out: Result<
        Self,
        Self::Error,
    >)
        requires
            old(ctx).wf(),
            Self::admits(old(ctx).perl@, *old(index) as int),
        ensures
            Self::fetched(old(ctx).perl@, name@, *old(index) as int, out),
            final(ctx).perl@ == Self::after(old(ctx).perl@, *old(index) as int),
            *final(index) == Self::behind(old(ctx).perl@, *old(index) as int),
            final(ctx).wf(),
            final(ctx).entry == old(ctx).entry,
    ;
}

fn invalid_argument_text(name: &str, why: &str) -> (r: String)
    ensures
        r@ == invalid_argument(name@, why@),
{
    let mut r = String::from_str("Invalid argument '");
    r.append(name);
    r.append("' (");
    r.append(why);
    r.append(")");
    assert(r@ =~= invalid_argument(name@, why@));
    r
}

fn missing_argument_text(name: &str) -> (r: String)
    ensures
        r@ == missing_argument(name@),
{
    let mut r = String::from_str("Missing argument '");
    r.append(name);
    r.append("'");
    assert(r@ =~= missing_argument(name@));
    r
}

/// A value that converts from a scalar is fetched from the one argument
/// at the index; an argument that is missing is an error.
impl<T: TryFromSV> TryFromContext for T {
    type Error = String;

    open spec fn admits(w: World, index: int) -> bool {
        index < isize::MAX && try_has_room::<T>(w, arg_at(w, index))
    }

    open spec fn fetched(w: World, name: Seq<char>, index: int, out: Result<Self, String>) -> bool {
        match arg_at(w, index) {
            None => out is Err && out->Err_0@ == missing_argument(name),
            Some(e) => match T::failure(w, e) {
                None => out is Ok && T::try_reads(w, e, out->Ok_0),
                Some(why) => out is Err && out->Err_0@ == invalid_argument(name, why),
            },
        }
    }

    open spec fn after(w: World, index: int) -> World {
        try_lent::<T>(w, arg_at(w, index))
    }

    open spec fn behind(w: World, index: int) -> int {
        index + 1
    }

    fn try_from_context(ctx: &mut Context, name: &str, index: &mut isize) -> (out: Result<
        T,
        String,
    >) {
        let out = match ctx.st_try_fetch::<T>(*index) {
            Some(Ok(v)) => Ok(v),
            Some(Err(e)) => Err(invalid_argument_text(name, e.as_str())),
            None => Err(missing_argument_text(name)),
        };
        *index = *index + 1;
        out
    }
}

/// An optional value is fetched like the value itself, but for an
/// argument that is missing, which gives `None`.
impl<T: TryFromSV> TryFromContext for Option<T> {
    type Error = String;

    open spec fn admits(w: World, index: int) -> bool {
        index < isize::MAX && try_has_room::<T>(w, arg_at(w, index))
    }

    open spec fn fetched(w: World, name: Seq<char>, index: int, out: Result<Self, String>) -> bool {
        match arg_at(w, index) {
            None => out is Ok && out->Ok_0 is None,
            Some(e) => match T::failure(w, e) {
                None => out is Ok && out->Ok_0 is Some && T::try_reads(w, e, out->Ok_0->Some_0),
                Some(why) => out is Err && out->Err_0@ == invalid_argument(name, why),
            },
        }
    }

    open spec fn after(w: World, index: int) -> World {
        try_lent::<T>(w, arg_at(w, index))
    }

    open spec fn behind(w: World, index: int) -> int {
        index + 1
    }

    fn try_from_context(ctx: &mut Context, name: &str, index: &mut isize) -> (out: Result<
        Option<T>,
        String,
    >) {
        let out = match ctx.st_try_fetch::<T>(*index) {
            Some(Ok(v)) => Ok(Some(v)),
            Some(Err(e)) => Err(invalid_argument_text(name, e.as_str())),
            None => Ok(None),
        };
        *index = *index + 1;
        out
    }
}

/// The checked conversion of a type that has the fast conversion never
/// fails, and gives what the fast conversion gives.
pub proof fn lemma_checked_is_unchecked<T: FromSV>(w: World, raw: usize, out: T)
    ensures
        <T as TryFromSV>::failure(w, raw) is None,
        <T as TryFromSV>::try_reads(w, raw, out) == T::reads(w, raw, out),
        lent(w, <T as TryFromSV>::unit(w, raw)) == lent(
            w,
            if T::takes_unit() {
                Some(raw)
            } else {
                None
            },
        ),
{
}

} // verus!
