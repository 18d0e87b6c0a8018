//! Pushing native values to the stack without a handle in between.

use vstd::prelude::*;
use vstd::string::*;
use crate::raw::model::{Thing, Value, World};
use crate::raw::{Interpreter, Stack, IV, NV, UV};

verus! {

/// The world after a new scalar with value `v` was pushed behind the results.
pub open spec fn pushed_value(w: World, v: Value) -> World {
    w.with_new(Thing::Scalar(v)).ret_pushed(w.objs.len() as usize)
}

/// What is pushed to the stack as one new scalar.
pub trait Pushable: Sized {
    /// What the scalar holds.
    spec fn scalar(self) -> Value;

    /// Pushes `self`, after making room for it in the frame.
    fn push_extend(self, perl: &mut Interpreter, stack: &mut Stack)
        requires
            old(perl)@.wf(),
            old(perl)@.objs.len() < usize::MAX,
            old(stack).sp() == old(perl)@.rets.len(),
            old(stack).sp() < usize::MAX,
        ensures
            final(perl)@ == pushed_value(old(perl)@, self.scalar()),
            final(perl)@.wf(),
            old(perl)@.loose_kept(final(perl)@),
            final(stack).items() == old(stack).items(),
            final(stack).sp() == old(stack).sp() + 1,
            final(stack).cap() >= final(stack).sp(),
    ;

    /// Pushes `self` into room that the frame already has.
    fn push_unsafe(self, perl: &mut Interpreter, stack: &mut Stack)
        requires
            old(perl)@.wf(),
            old(perl)@.objs.len() < usize::MAX,
            old(stack).sp() == old(perl)@.rets.len(),
            old(stack).sp() < old(stack).cap(),
        ensures
            final(perl)@ == pushed_value(old(perl)@, self.scalar()),
            final(perl)@.wf(),
            old(perl)@.loose_kept(final(perl)@),
            final(stack).items() == old(stack).items(),
            final(stack).sp() == old(stack).sp() + 1,
            final(stack).cap() == old(stack).cap(),
    ;
}

impl Pushable for IV {
    open spec fn scalar(self) -> Value {
        Value::Int(self)
    }

    fn push_extend(self, perl: &mut Interpreter, stack: &mut Stack) {
        let sv = perl.new_sv_iv(self);
        perl.stack_xpush_sv_mortal(stack, sv);
    }

    fn push_unsafe(self, perl: &mut Interpreter, stack: &mut Stack) {
        let sv = perl.new_sv_iv(self);
        perl.stack_push_sv_mortal(stack, sv);
    }
}

impl Pushable for UV {
    open spec fn scalar(self) -> Value {
        Value::Uint(self)
    }

    fn push_extend(self, perl: &mut Interpreter, stack: &mut Stack) {
        let sv = perl.new_sv_uv(self);
        perl.stack_xpush_sv_mortal(stack, sv);
    }

    fn push_unsafe(self, perl: &mut Interpreter, stack: &mut Stack) {
        let sv = perl.new_sv_uv(self);
        perl.stack_push_sv_mortal(stack, sv);
    }
}

impl Pushable for NV {
    open spec fn scalar(self) -> Value {
        Value::Num(self)
    }

    fn push_extend(self, perl: &mut Interpreter, stack: &mut Stack) {
        let sv = perl.new_sv_nv(self);
        perl.stack_xpush_sv_mortal(stack, sv);
    }

    fn push_unsafe(self, perl: &mut Interpreter, stack: &mut Stack) {
        let sv = perl.new_sv_nv(self);
        perl.stack_push_sv_mortal(stack, sv);
    }
}

impl<'a> Pushable for &'a str {
    /// The bytes of the text as they are, not marked as UTF-8 encoded.
    open spec fn scalar(self) -> Value {
        Value::Text { bytes: self.spec_bytes(), utf8: false }
    }

    fn push_extend(self, perl: &mut Interpreter, stack: &mut Stack) {
        let sv = perl.new_sv_pvn(self.as_bytes(), false);
        perl.stack_xpush_sv_mortal(stack, sv);
    }

    fn push_unsafe(self, perl: &mut Interpreter, stack: &mut Stack) {
        let sv = perl.new_sv_pvn(self.as_bytes(), false);
        perl.stack_push_sv_mortal(stack, sv);
    }
}

} // verus!
