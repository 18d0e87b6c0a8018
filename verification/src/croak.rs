//! How a native subroutine fails, and how the failure reaches the host.
//!
//! A native subroutine that cannot go on returns what it fails with. The
//! call context turns that into an exception of the host once the native
//! subroutine has returned, that is, after it has let go of its handles.

use vstd::prelude::*;
use vstd::string::*;
use crate::raw::model::{Thing, Value, World};
use crate::raw::Interpreter;
use crate::scalar::SV;
use crate::text::{joined, push_joined, views};

verus! {

/// What a native subroutine fails with.
pub enum Payload {
    /// A message for the host.
    Message(String),
    /// Something that is no text. The host is told that much and no more.
    Other,
}

/// How a native subroutine ends.
pub enum Outcome<R> {
    /// It returns `R`.
    Done(R),
    /// It fails with a payload of its own.
    NativeFailure(Payload),
    /// It fails with an exception that the host raised while the native
    /// subroutine called into it.
    HostException(SV),
}

/// What the host is told of a failure that carries no text.
pub open spec fn unknown_failure() -> Seq<char> {
    "unknown typed panic inside Rust code"@
}

impl Payload {
    /// The text that the host is told.
    pub open spec fn text(self) -> Seq<char> {
        match self {
            Payload::Message(msg) => msg@,
            Payload::Other => unknown_failure(),
        }
    }
}

/// The failure with message `msg`.
pub fn croak<R>(msg: String) -> (r: Outcome<R>)
    ensures
        r == Outcome::<R>::NativeFailure(Payload::Message(msg)),
{
    Outcome::NativeFailure(Payload::Message(msg))
}

/// The failure whose message is the pieces of `args`, one after another.
pub fn croak_fmt<R>(args: &[&str]) -> (r: Outcome<R>)
    ensures
        r is NativeFailure,
        r->NativeFailure_0 is Message,
        r->NativeFailure_0->Message_0@ == joined(views(args@), Seq::empty()),
{
    let mut s = String::new();
    proof {
        reveal_strlit("");
    }
    push_joined(&mut s, args, "");
    assert(""@ =~= Seq::<char>::empty());
    assert(s@ =~= joined(views(args@), Seq::empty()));
    croak(s)
}

/// The world after `payload` was raised as an exception: a new scalar
/// holds the text, marked as UTF-8 encoded, and is pending.
pub open spec fn rethrown(w: World, payload: Payload) -> World {
    w.with_new(
        Thing::Scalar(Value::Text { bytes: vstd::utf8::encode_utf8(payload.text()), utf8: true }),
    ).croaked(w.objs.len() as usize)
}

/// Raises `payload` as an exception of the host.
pub fn rethrow_panic(perl: &mut Interpreter, payload: Payload)
    requires
        old(perl)@.wf(),
        old(perl)@.objs.len() < usize::MAX,
    ensures
        final(perl)@ == rethrown(old(perl)@, payload),
        final(perl)@.wf(),
        old(perl)@.loose_kept(final(perl)@),
{
    let errsv = match &payload {
        Payload::Message(msg) => make_error_sv(perl, msg.as_str()),
        Payload::Other => make_error_sv(perl, "unknown typed panic inside Rust code"),
    };
    perl.croak_sv(errsv);
}

fn make_error_sv(perl: &mut Interpreter, e: &str) -> (errsv: usize)
    requires
        old(perl)@.wf(),
        old(perl)@.objs.len() < usize::MAX,
    ensures
        errsv == old(perl)@.objs.len(),
        final(perl)@ == old(perl)@.with_new(
            Thing::Scalar(Value::Text { bytes: vstd::utf8::encode_utf8(e@), utf8: true }),
        ),
        final(perl)@.wf(),
        old(perl)@.loose_moved(final(perl)@, errsv, 1),
{
    perl.new_sv_pvn(e.as_bytes(), true)
}

} // verus!
