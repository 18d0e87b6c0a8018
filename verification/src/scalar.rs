//! Scalars of the host.

use vstd::prelude::*;
use vstd::string::*;
use vstd::utf8::{decode_utf8, valid_utf8};
use crate::array::AV;
use crate::convert::{FromSV, IntoSV, TryFromSV};
use crate::handle::{borrowed, dropped, forgotten, owned, Owned};
use crate::hash::HV;
use crate::raw;
use crate::raw::model::{Object, Thing, Value, World};
use crate::raw::{Interpreter, IV, NV, UV};
use crate::text::{decimal, push_decimal};

verus! {

/// The world after a new scalar with value `v` was made and a handle
/// took its one unit.
pub open spec fn fresh(w: World, v: Value) -> World {
    owned(w.with_new(Thing::Scalar(v)), w.objs.len() as usize)
}

/// Why a string of bytes is no UTF-8 encoded text.
#[derive(Debug)]
pub struct Utf8Error {
    valid_up_to: usize,
}

impl Utf8Error {
    /// The length of the longest prefix of the bytes that is UTF-8
    /// encoded text.
    pub closed spec fn spec_valid_up_to(self) -> nat {
        self.valid_up_to as nat
    }

    /// The length of the longest prefix of the bytes that is UTF-8
    /// encoded text.
    pub fn valid_up_to(&self) -> (n: usize)
        ensures
            n == self.spec_valid_up_to(),
    {
        self.valid_up_to
    }

    /// The message that reports the error.
    pub open spec fn message(self) -> Seq<char> {
        "invalid utf-8 sequence from index "@ + decimal(self.spec_valid_up_to())
    }

    /// The message that reports the error, as text.
    pub fn to_string(&self) -> (r: String)
        ensures
            r@ == self.message(),
    {
        let mut r = String::from_str("invalid utf-8 sequence from index ");
        push_decimal(&mut r, self.valid_up_to as u128);
        r
    }
}

/// Whether `k` is the length of the longest prefix of `bytes` that is
/// UTF-8 encoded text.
pub open spec fn longest_valid_prefix(bytes: Seq<u8>, k: nat) -> bool {
    &&& k <= bytes.len()
    &&& valid_utf8(bytes.take(k as int))
    &&& forall|j: int| k < j <= bytes.len() ==> !valid_utf8(#[trigger] bytes.take(j))
}

/// `String::from_utf8` of the standard library: the bytes as a string,
/// unchanged, if and only if they are UTF-8 encoded text; else the
/// error's `valid_up_to`, which is the length of the longest prefix of
/// the bytes that is such text.
#[verifier::external_body]
fn string_from_utf8(bytes: Vec<u8>) -> (r: Result<String, usize>)
    ensures
        match r {
            Ok(s) => valid_utf8(bytes@) && s@ == decode_utf8(bytes@),
            Err(k) => !valid_utf8(bytes@) && longest_valid_prefix(bytes@, k as nat),
        },
{
    match String::from_utf8(bytes) {
        Ok(s) => Ok(s),
        Err(e) => Err(e.utf8_error().valid_up_to()),
    }
}

/// The text that `bytes` encode, or why they encode none.
pub fn decode(bytes: Vec<u8>) -> (r: Result<String, Utf8Error>)
    ensures
        match r {
            Ok(s) => valid_utf8(bytes@) && s@ == decode_utf8(bytes@),
            Err(e) => !valid_utf8(bytes@) && longest_valid_prefix(bytes@, e.spec_valid_up_to()),
        },
{
    match string_from_utf8(bytes) {
        Ok(s) => Ok(s),
        Err(k) => Err(Utf8Error { valid_up_to: k }),
    }
}

/// A handle on a scalar.
#[derive(Debug)]
pub struct SV(Owned<raw::SV>);

impl View for SV {
    type V = usize;

    closed spec fn view(&self) -> usize {
        self.0@
    }
}

impl SV {
    /// Whether the handle's unit is on the books of `w`.
    pub open spec fn wf(self, w: World) -> bool {
        w.valid(self@) && w.held(self@) >= 1
    }

    /// A handle that takes over the unit which `raw` already carries and
    /// which nobody accounts for.
    pub fn from_raw_owned(perl: &mut Interpreter, raw: usize) -> (sv: SV)
        requires
            old(perl)@.wf(),
            old(perl)@.valid(raw),
            old(perl)@.loose(raw) >= 1,
        ensures
            sv@ == raw,
            final(perl)@ == owned(old(perl)@, raw),
            final(perl)@.wf(),
            sv.wf(final(perl)@),
            old(perl)@.loose_moved(final(perl)@, raw, -1),
    {
        SV(Owned::from_raw_owned(perl, raw))
    }

    /// A handle on a scalar whose address was borrowed from elsewhere:
    /// the count is raised by one, and the new unit is the handle's.
    pub fn from_raw_borrowed(perl: &mut Interpreter, raw: usize) -> (sv: SV)
        requires
            old(perl)@.wf(),
            old(perl)@.live(raw),
            old(perl)@.refcnt(raw) < usize::MAX,
        ensures
            sv@ == raw,
            final(perl)@ == borrowed(old(perl)@, raw),
            final(perl)@.wf(),
            sv.wf(final(perl)@),
            old(perl)@.loose_kept(final(perl)@),
    {
        SV(Owned::from_raw_borrowed(perl, raw))
    }

    /// The address of the scalar.
    pub fn as_ptr(&self) -> (ptr: usize)
        ensures
            ptr == self@,
    {
        self.0.as_ptr()
    }

    /// Another handle on the same scalar, with a unit of its own.
    pub fn clone(&self, perl: &mut Interpreter) -> (sv: SV)
        requires
            old(perl)@.wf(),
            self.wf(old(perl)@),
            old(perl)@.refcnt(self@) < usize::MAX,
        ensures
            sv@ == self@,
            final(perl)@ == borrowed(old(perl)@, self@),
            final(perl)@.wf(),
            sv.wf(final(perl)@),
            self.wf(final(perl)@),
            old(perl)@.loose_kept(final(perl)@),
    {
        proof {
            crate::raw::model::lemma_held_is_live(perl@, self@);
        }
        SV::from_raw_borrowed(perl, self.as_ptr())
    }

    /// Ends the handle: the count of the scalar is one lower.
    pub fn drop(self, perl: &mut Interpreter)
        requires
            old(perl)@.wf(),
            self.wf(old(perl)@),
        ensures
            final(perl)@ == dropped(old(perl)@, self@),
            final(perl)@.wf(),
            old(perl)@.loose_kept(final(perl)@),
    {
        self.0.drop(perl);
    }

    /// Ends the handle without touching the count: the address comes
    /// back, and with it a unit that nobody accounts for.
    pub fn into_raw(self, perl: &mut Interpreter) -> (raw: usize)
        requires
            old(perl)@.wf(),
            self.wf(old(perl)@),
        ensures
            raw == self@,
            final(perl)@ == forgotten(old(perl)@, self@),
            final(perl)@.wf(),
            old(perl)@.loose_moved(final(perl)@, raw, 1),
    {
        self.0.into_raw(perl)
    }

    /// Whether the object is a scalar proper: neither array nor hash.
    pub fn is_scalar(&self, perl: &Interpreter) -> (b: bool)
        requires
            self.wf(perl@),
        ensures
            b == perl@.is_scalar(self@),
    {
        perl.sv_type(self.as_ptr()) < raw::SVt_PVAV
    }

    /// Whether the object is an array.
    pub fn is_array(&self, perl: &Interpreter) -> (b: bool)
        requires
            self.wf(perl@),
        ensures
            b == perl@.is_array(self@),
    {
        perl.sv_type(self.as_ptr()) == raw::SVt_PVAV
    }

    /// Whether the object is a hash.
    pub fn is_hash(&self, perl: &Interpreter) -> (b: bool)
        requires
            self.wf(perl@),
        ensures
            b == perl@.is_hash(self@),
    {
        perl.sv_type(self.as_ptr()) == raw::SVt_PVHV
    }

    /// Whether the object is a subroutine. This host holds none.
    pub fn is_code(&self, perl: &Interpreter) -> (b: bool)
        requires
            self.wf(perl@),
        ensures
            !b,
    {
        perl.sv_type(self.as_ptr()) == raw::SVt_PVCV
    }

    /// Whether the object is a glob. This host holds none.
    pub fn is_glob(&self, perl: &Interpreter) -> (b: bool)
        requires
            self.wf(perl@),
        ensures
            !b,
    {
        perl.sv_type(self.as_ptr()) == raw::SVt_PVGV
    }

    /// Whether the scalar is defined.
    pub fn ok(&self, perl: &Interpreter) -> (b: bool)
        requires
            self.wf(perl@),
        ensures
            b == perl@.value(self@).ok(),
    {
        perl.sv_ok(self.as_ptr())
    }

    /// Whether the scalar reads as a signed integer.
    pub fn iv_ok(&self, perl: &Interpreter) -> (b: bool)
        requires
            self.wf(perl@),
        ensures
            b == perl@.value(self@).iok(),
    {
        perl.sv_iok(self.as_ptr())
    }

    /// The signed integer that the scalar reads as; 0 where it does not
    /// read as one.
    pub fn iv(&self, perl: &Interpreter) -> (iv: IV)
        requires
            self.wf(perl@),
        ensures
            iv == perl@.value(self@).iv(),
    {
        perl.sv_iv(self.as_ptr())
    }

    /// Whether the scalar is an unsigned integer.
    pub fn uv_ok(&self, perl: &Interpreter) -> (b: bool)
        requires
            self.wf(perl@),
        ensures
            b == perl@.value(self@).uok(),
    {
        perl.sv_uok(self.as_ptr())
    }

    /// The unsigned integer that the scalar is; 0 where it is none.
    pub fn uv(&self, perl: &Interpreter) -> (uv: UV)
        requires
            self.wf(perl@),
        ensures
            uv == perl@.value(self@).uv(),
    {
        perl.sv_uv(self.as_ptr())
    }

    /// Whether the scalar reads as a floating-point number.
    pub fn nv_ok(&self, perl: &Interpreter) -> (b: bool)
        requires
            self.wf(perl@),
        ensures
            b == perl@.value(self@).nok(),
    {
        perl.sv_nok(self.as_ptr())
    }

    /// The floating-point number that the scalar reads as; zero where it
    /// does not read as one.
    pub fn nv(&self, perl: &Interpreter) -> (nv: NV)
        requires
            self.wf(perl@),
        ensures
            nv == perl@.value(self@).nv(),
    {
        perl.sv_nv(self.as_ptr())
    }

    /// Whether the scalar reads as a string.
    pub fn pv_ok(&self, perl: &Interpreter) -> (b: bool)
        requires
            self.wf(perl@),
        ensures
            b == perl@.value(self@).pok(),
    {
        perl.sv_pok(self.as_ptr())
    }

    /// Whether the scalar is a string marked as UTF-8 encoded text.
    pub fn utf8(&self, perl: &Interpreter) -> (b: bool)
        requires
            self.wf(perl@),
        ensures
            b == perl@.value(self@).utf8(),
    {
        perl.sv_utf8(self.as_ptr())
    }

    /// The bytes of the string that the scalar reads as, where they lie
    /// in the interpreter; the empty string where it does not read as
    /// one. The interpreter cannot change while the slice is in use.
    pub fn as_slice<'a>(&self, perl: &'a Interpreter) -> (bytes: &'a [u8])
        requires
            self.wf(perl@),
        ensures
            bytes@ == perl@.value(self@).pv(),
    {
        perl.sv_pv_slice(self.as_ptr())
    }

    /// A copy of the bytes of the string that the scalar reads as; the
    /// empty string where it does not read as one.
    pub fn to_vec(&self, perl: &Interpreter) -> (bytes: Vec<u8>)
        requires
            self.wf(perl@),
        ensures
            bytes@ == perl@.value(self@).pv(),
    {
        perl.sv_pv(self.as_ptr())
    }

    /// The text that the bytes of the scalar's string encode, or why
    /// they encode none.
    pub fn to_string(&self, perl: &Interpreter) -> (r: Result<String, Utf8Error>)
        requires
            self.wf(perl@),
        ensures
            match r {
                Ok(s) => valid_utf8(perl@.value(self@).pv()) && s@ == decode_utf8(
                    perl@.value(self@).pv(),
                ),
                Err(e) => !valid_utf8(perl@.value(self@).pv()) && longest_valid_prefix(
                    perl@.value(self@).pv(),
                    e.spec_valid_up_to(),
                ),
            },
    {
        decode(self.to_vec(perl))
    }

    /// Whether the scalar is a reference.
    pub fn rv_ok(&self, perl: &Interpreter) -> (b: bool)
        requires
            self.wf(perl@),
        ensures
            b == perl@.value(self@).rok(),
    {
        perl.sv_rok(self.as_ptr())
    }

    /// A handle on what the reference refers to; nothing where the
    /// scalar is no reference.
    pub fn deref(&self, perl: &mut Interpreter) -> (r: Option<SV>)
        requires
            old(perl)@.wf(),
            self.wf(old(perl)@),
            old(perl)@.value(self@).rok() ==> old(perl)@.refcnt(old(perl)@.value(self@).rv())
                < usize::MAX,
        ensures
            r is Some == old(perl)@.value(self@).rok(),
            r is Some ==> r->Some_0@ == old(perl)@.value(self@).rv() && r->Some_0.wf(final(perl)@),
            final(perl)@ == if r is Some {
                borrowed(old(perl)@, old(perl)@.value(self@).rv())
            } else {
                old(perl)@
            },
            final(perl)@.wf(),
            self.wf(final(perl)@),
            old(perl)@.loose_kept(final(perl)@),
    {
        if self.rv_ok(perl) {
            let target = perl.sv_rv(self.as_ptr());
            proof {
                crate::raw::model::lemma_referenced_is_live(perl@, self@, target);
            }
            Some(SV::from_raw_borrowed(perl, target))
        } else {
            None
        }
    }

    /// A handle on the array that the reference refers to; nothing where
    /// the scalar is no reference to an array.
    pub fn deref_av(&self, perl: &mut Interpreter) -> (r: Option<AV>)
        requires
            old(perl)@.wf(),
            self.wf(old(perl)@),
            old(perl)@.value(self@).rok() ==> old(perl)@.refcnt(old(perl)@.value(self@).rv())
                < usize::MAX,
        ensures
            r is Some == (old(perl)@.value(self@).rok() && old(perl)@.is_array(
                old(perl)@.value(self@).rv(),
            )),
            r is Some ==> r->Some_0@ == old(perl)@.value(self@).rv() && r->Some_0.wf(final(perl)@),
            final(perl)@ == if r is Some {
                borrowed(old(perl)@, old(perl)@.value(self@).rv())
            } else {
                old(perl)@
            },
            final(perl)@.wf(),
            self.wf(final(perl)@),
            old(perl)@.loose_kept(final(perl)@),
    {
        let ghost w = perl@;
        match self.deref(perl) {
            Some(sv) => {
                let ghost target = sv@;
                proof {
                    crate::raw::model::lemma_referenced_is_live(w, self@, target);
                    assert(perl@.objs[target as int].thing == w.objs[target as int].thing);
                }
                let r = sv.into_av(perl);
                proof {
                    if r is None {
                        assert(perl@.objs =~= w.objs);
                    }
                }
                r
            },
            None => None,
        }
    }

    /// A handle on the hash that the reference refers to; nothing where
    /// the scalar is no reference to a hash.
    pub fn deref_hv(&self, perl: &mut Interpreter) -> (r: Option<HV>)
        requires
            old(perl)@.wf(),
            self.wf(old(perl)@),
            old(perl)@.value(self@).rok() ==> old(perl)@.refcnt(old(perl)@.value(self@).rv())
                < usize::MAX,
        ensures
            r is Some == (old(perl)@.value(self@).rok() && old(perl)@.is_hash(
                old(perl)@.value(self@).rv(),
            )),
            r is Some ==> r->Some_0@ == old(perl)@.value(self@).rv() && r->Some_0.wf(final(perl)@),
            final(perl)@ == if r is Some {
                borrowed(old(perl)@, old(perl)@.value(self@).rv())
            } else {
                old(perl)@
            },
            final(perl)@.wf(),
            self.wf(final(perl)@),
            old(perl)@.loose_kept(final(perl)@),
    {
        let ghost w = perl@;
        match self.deref(perl) {
            Some(sv) => {
                let ghost target = sv@;
                proof {
                    crate::raw::model::lemma_referenced_is_live(w, self@, target);
                    assert(perl@.objs[target as int].thing == w.objs[target as int].thing);
                }
                let r = sv.into_hv(perl);
                proof {
                    if r is None {
                        assert(perl@.objs =~= w.objs);
                    }
                }
                r
            },
            None => None,
        }
    }

    /// The handle as one on an array; nothing, and the handle is dropped,
    /// where the object is no array.
    pub fn into_av(self, perl: &mut Interpreter) -> (r: Option<AV>)
        requires
            old(perl)@.wf(),
            self.wf(old(perl)@),
        ensures
            r is Some == old(perl)@.is_array(self@),
            r is Some ==> r->Some_0@ == self@ && r->Some_0.wf(final(perl)@),
            final(perl)@ == if r is Some {
                old(perl)@
            } else {
                dropped(old(perl)@, self@)
            },
            final(perl)@.wf(),
            old(perl)@.loose_kept(final(perl)@),
    {
        if self.is_array(perl) {
            let ghost w = perl@;
            let raw = self.into_raw(perl);
            let av = AV::from_raw_owned(perl, raw);
            proof {
                assert(perl@.objs =~= w.objs);
            }
            Some(av)
        } else {
            self.drop(perl);
            None
        }
    }

    /// The handle as one on a hash; nothing, and the handle is dropped,
    /// where the object is no hash.
    pub fn into_hv(self, perl: &mut Interpreter) -> (r: Option<HV>)
        requires
            old(perl)@.wf(),
            self.wf(old(perl)@),
        ensures
            r is Some == old(perl)@.is_hash(self@),
            r is Some ==> r->Some_0@ == self@ && r->Some_0.wf(final(perl)@),
            final(perl)@ == if r is Some {
                old(perl)@
            } else {
                dropped(old(perl)@, self@)
            },
            final(perl)@.wf(),
            old(perl)@.loose_kept(final(perl)@),
    {
        if self.is_hash(perl) {
            let ghost w = perl@;
            let raw = self.into_raw(perl);
            let hv = HV::from_raw_owned(perl, raw);
            proof {
                assert(perl@.objs =~= w.objs);
            }
            Some(hv)
        } else {
            self.drop(perl);
            None
        }
    }
}

impl SV {
    /// A new reference to the scalar; the handle's unit becomes the
    /// reference's.
    pub fn into_ref(self, perl: &mut Interpreter) -> (rv: SV)
        requires
            old(perl)@.wf(),
            self.wf(old(perl)@),
            old(perl)@.objs.len() < usize::MAX,
        ensures
            rv@ == old(perl)@.objs.len(),
            final(perl)@ == owned(
                forgotten(old(perl)@, self@).with_new(Thing::Scalar(Value::Ref(self@))),
                rv@,
            ),
            final(perl)@.wf(),
            rv.wf(final(perl)@),
            old(perl)@.loose_kept(final(perl)@),
    {
        let raw = self.into_raw(perl);
        let rv = perl.new_rv_noinc(raw);
        SV::from_raw_owned(perl, rv)
    }

    /// Blesses what the reference refers to into `package`.
    pub fn bless(self, perl: &mut Interpreter, package: &str) -> (sv: SV)
        requires
            old(perl)@.wf(),
            self.wf(old(perl)@),
            old(perl)@.value(self@).rok(),
        ensures
            sv@ == self@,
            final(perl)@ == old(perl)@.with_object(
                old(perl)@.value(self@).rv(),
                Object {
                    package: Some(package@),
                    ..old(perl)@.objs[old(perl)@.value(self@).rv() as int]
                },
            ),
            final(perl)@.wf(),
            sv.wf(final(perl)@),
            old(perl)@.loose_kept(final(perl)@),
    {
        proof {
            crate::raw::model::lemma_referenced_is_live(perl@, self@, perl@.value(self@).rv());
        }
        perl.sv_bless(self.as_ptr(), package);
        self
    }
}

impl FromSV for IV {
    open spec fn takes_unit() -> bool {
        false
    }

    open spec fn reads(w: World, raw: usize, out: Self) -> bool {
        out == w.value(raw).iv()
    }

    fn from_sv(perl: &mut Interpreter, raw: usize) -> (out: Self) {
        perl.sv_iv(raw)
    }
}

impl FromSV for UV {
    open spec fn takes_unit() -> bool {
        false
    }

    open spec fn reads(w: World, raw: usize, out: Self) -> bool {
        out == w.value(raw).uv()
    }

    fn from_sv(perl: &mut Interpreter, raw: usize) -> (out: Self) {
        perl.sv_uv(raw)
    }
}

impl FromSV for NV {
    open spec fn takes_unit() -> bool {
        false
    }

    open spec fn reads(w: World, raw: usize, out: Self) -> bool {
        out == w.value(raw).nv()
    }

    fn from_sv(perl: &mut Interpreter, raw: usize) -> (out: Self) {
        perl.sv_nv(raw)
    }
}

impl FromSV for SV {
    open spec fn takes_unit() -> bool {
        true
    }

    open spec fn reads(w: World, raw: usize, out: Self) -> bool {
        out@ == raw
    }

    fn from_sv(perl: &mut Interpreter, raw: usize) -> (out: Self) {
        SV::from_raw_borrowed(perl, raw)
    }
}

/// The value of a scalar that may be undefined: `Some` of what a defined
/// scalar reads as, `None` of the undefined value.
#[derive(Debug)]
pub struct Defined<T>(pub Option<T>);

impl FromSV for Defined<IV> {
    open spec fn takes_unit() -> bool {
        false
    }

    open spec fn reads(w: World, raw: usize, out: Self) -> bool {
        out.0 == if w.value(raw).ok() {
            Some(w.value(raw).iv())
        } else {
            None
        }
    }

    fn from_sv(perl: &mut Interpreter, raw: usize) -> (out: Self) {
        if perl.sv_ok(raw) {
            Defined(Some(perl.sv_iv(raw)))
        } else {
            Defined(None)
        }
    }
}

impl FromSV for Defined<UV> {
    open spec fn takes_unit() -> bool {
        false
    }

    open spec fn reads(w: World, raw: usize, out: Self) -> bool {
        out.0 == if w.value(raw).ok() {
            Some(w.value(raw).uv())
        } else {
            None
        }
    }

    fn from_sv(perl: &mut Interpreter, raw: usize) -> (out: Self) {
        if perl.sv_ok(raw) {
            Defined(Some(perl.sv_uv(raw)))
        } else {
            Defined(None)
        }
    }
}

impl FromSV for Defined<NV> {
    open spec fn takes_unit() -> bool {
        false
    }

    open spec fn reads(w: World, raw: usize, out: Self) -> bool {
        out.0 == if w.value(raw).ok() {
            Some(w.value(raw).nv())
        } else {
            None
        }
    }

    fn from_sv(perl: &mut Interpreter, raw: usize) -> (out: Self) {
        if perl.sv_ok(raw) {
            Defined(Some(perl.sv_nv(raw)))
        } else {
            Defined(None)
        }
    }
}

/// The length of the longest prefix of `bytes` that is UTF-8 encoded text.
pub open spec fn valid_prefix(bytes: Seq<u8>) -> nat {
    choose|k: nat| longest_valid_prefix(bytes, k)
}

/// There is one longest prefix.
pub proof fn lemma_valid_prefix(bytes: Seq<u8>, k: nat)
    requires
        longest_valid_prefix(bytes, k),
    ensures
        valid_prefix(bytes) == k,
{
    let c = valid_prefix(bytes);
    assert(longest_valid_prefix(bytes, c));
    if c < k {
        assert(!valid_utf8(bytes.take(k as int)));
    } else if k < c {
        assert(!valid_utf8(bytes.take(c as int)));
    }
}

/// What is reported of bytes that are no UTF-8 encoded text.
pub open spec fn utf8_failure(bytes: Seq<u8>) -> Seq<char> {
    "invalid utf-8 sequence from index "@ + decimal(valid_prefix(bytes))
}

impl TryFromSV for String {
    open spec fn failure(w: World, raw: usize) -> Option<Seq<char>> {
        if valid_utf8(w.value(raw).pv()) {
            None
        } else {
            Some(utf8_failure(w.value(raw).pv()))
        }
    }

    open spec fn unit(w: World, raw: usize) -> Option<usize> {
        None
    }

    open spec fn try_reads(w: World, raw: usize, out: Self) -> bool {
        out@ == decode_utf8(w.value(raw).pv())
    }

    fn try_from_sv(perl: &mut Interpreter, raw: usize) -> (out: Result<Self, String>) {
        let bytes = perl.sv_pv(raw);
        match decode(bytes) {
            Ok(s) => Ok(s),
            Err(e) => {
                proof {
                    lemma_valid_prefix(bytes@, e.spec_valid_up_to());
                }
                Err(e.to_string())
            },
        }
    }
}

impl TryFromSV for bool {
    /// A reference is no truth value; every other scalar is.
    open spec fn failure(w: World, raw: usize) -> Option<Seq<char>> {
        if w.value(raw).rok() {
            Some("not a boolean"@)
        } else {
            None
        }
    }

    open spec fn unit(w: World, raw: usize) -> Option<usize> {
        None
    }

    open spec fn try_reads(w: World, raw: usize, out: Self) -> bool {
        out == w.value(raw).truth()
    }

    fn try_from_sv(perl: &mut Interpreter, raw: usize) -> (out: Result<Self, String>) {
        if perl.sv_rok(raw) {
            Err(String::from_str("not a boolean"))
        } else {
            Ok(perl.sv_true(raw))
        }
    }
}

impl IntoSV for IV {
    open spec fn fits(self, w: World) -> bool {
        w.objs.len() < usize::MAX
    }

    open spec fn address(self, w: World) -> usize {
        w.objs.len() as usize
    }

    open spec fn made(self, w: World) -> World {
        fresh(w, Value::Int(self))
    }

    open spec fn units(self, p: usize) -> nat {
        0
    }

    fn into_sv(self, perl: &mut Interpreter) -> (sv: SV) {
        let raw = perl.new_sv_iv(self);
        SV::from_raw_owned(perl, raw)
    }
}

impl IntoSV for UV {
    open spec fn fits(self, w: World) -> bool {
        w.objs.len() < usize::MAX
    }

    open spec fn address(self, w: World) -> usize {
        w.objs.len() as usize
    }

    open spec fn made(self, w: World) -> World {
        fresh(w, Value::Uint(self))
    }

    open spec fn units(self, p: usize) -> nat {
        0
    }

    fn into_sv(self, perl: &mut Interpreter) -> (sv: SV) {
        let raw = perl.new_sv_uv(self);
        SV::from_raw_owned(perl, raw)
    }
}

/// A signed integer of another width becomes the scalar that the same
/// number becomes as an `IV`.
impl IntoSV for i8 {
    open spec fn fits(self, w: World) -> bool {
        w.objs.len() < usize::MAX
    }

    open spec fn address(self, w: World) -> usize {
        w.objs.len() as usize
    }

    open spec fn made(self, w: World) -> World {
        fresh(w, Value::Int(self as IV))
    }

    open spec fn units(self, p: usize) -> nat {
        0
    }

    fn into_sv(self, perl: &mut Interpreter) -> (sv: SV) {
        let raw = perl.new_sv_iv(self as IV);
        SV::from_raw_owned(perl, raw)
    }
}

/// A signed integer of another width becomes the scalar that the same
/// number becomes as an `IV`.
impl IntoSV for i16 {
    open spec fn fits(self, w: World) -> bool {
        w.objs.len() < usize::MAX
    }

    open spec fn address(self, w: World) -> usize {
        w.objs.len() as usize
    }

    open spec fn made(self, w: World) -> World {
        fresh(w, Value::Int(self as IV))
    }

    open spec fn units(self, p: usize) -> nat {
        0
    }

    fn into_sv(self, perl: &mut Interpreter) -> (sv: SV) {
        let raw = perl.new_sv_iv(self as IV);
        SV::from_raw_owned(perl, raw)
    }
}

/// A signed integer of another width becomes the scalar that the same
/// number becomes as an `IV`.
impl IntoSV for i32 {
    open spec fn fits(self, w: World) -> bool {
        w.objs.len() < usize::MAX
    }

    open spec fn address(self, w: World) -> usize {
        w.objs.len() as usize
    }

    open spec fn made(self, w: World) -> World {
        fresh(w, Value::Int(self as IV))
    }

    open spec fn units(self, p: usize) -> nat {
        0
    }

    fn into_sv(self, perl: &mut Interpreter) -> (sv: SV) {
        let raw = perl.new_sv_iv(self as IV);
        SV::from_raw_owned(perl, raw)
    }
}

/// A signed integer of another width becomes the scalar that the same
/// number becomes as an `IV`.
impl IntoSV for isize {
    open spec fn fits(self, w: World) -> bool {
        w.objs.len() < usize::MAX
    }

    open spec fn address(self, w: World) -> usize {
        w.objs.len() as usize
    }

    open spec fn made(self, w: World) -> World {
        fresh(w, Value::Int(self as IV))
    }

    open spec fn units(self, p: usize) -> nat {
        0
    }

    fn into_sv(self, perl: &mut Interpreter) -> (sv: SV) {
        let raw = perl.new_sv_iv(self as IV);
        SV::from_raw_owned(perl, raw)
    }
}

/// An unsigned integer of another width becomes the scalar that the same
/// number becomes as a `UV`.
impl IntoSV for u8 {
    open spec fn fits(self, w: World) -> bool {
        w.objs.len() < usize::MAX
    }

    open spec fn address(self, w: World) -> usize {
        w.objs.len() as usize
    }

    open spec fn made(self, w: World) -> World {
        fresh(w, Value::Uint(self as UV))
    }

    open spec fn units(self, p: usize) -> nat {
        0
    }

    fn into_sv(self, perl: &mut Interpreter) -> (sv: SV) {
        let raw = perl.new_sv_uv(self as UV);
        SV::from_raw_owned(perl, raw)
    }
}

/// An unsigned integer of another width becomes the scalar that the same
/// number becomes as a `UV`.
impl IntoSV for u16 {
    open spec fn fits(self, w: World) -> bool {
        w.objs.len() < usize::MAX
    }

    open spec fn address(self, w: World) -> usize {
        w.objs.len() as usize
    }

    open spec fn made(self, w: World) -> World {
        fresh(w, Value::Uint(self as UV))
    }

    open spec fn units(self, p: usize) -> nat {
        0
    }

    fn into_sv(self, perl: &mut Interpreter) -> (sv: SV) {
        let raw = perl.new_sv_uv(self as UV);
        SV::from_raw_owned(perl, raw)
    }
}

/// An unsigned integer of another width becomes the scalar that the same
/// number becomes as a `UV`.
impl IntoSV for u32 {
    open spec fn fits(self, w: World) -> bool {
        w.objs.len() < usize::MAX
    }

    open spec fn address(self, w: World) -> usize {
        w.objs.len() as usize
    }

    open spec fn made(self, w: World) -> World {
        fresh(w, Value::Uint(self as UV))
    }

    open spec fn units(self, p: usize) -> nat {
        0
    }

    fn into_sv(self, perl: &mut Interpreter) -> (sv: SV) {
        let raw = perl.new_sv_uv(self as UV);
        SV::from_raw_owned(perl, raw)
    }
}

/// An unsigned integer of another width becomes the scalar that the same
/// number becomes as a `UV`.
impl IntoSV for usize {
    open spec fn fits(self, w: World) -> bool {
        w.objs.len() < usize::MAX
    }

    open spec fn address(self, w: World) -> usize {
        w.objs.len() as usize
    }

    open spec fn made(self, w: World) -> World {
        fresh(w, Value::Uint(self as UV))
    }

    open spec fn units(self, p: usize) -> nat {
        0
    }

    fn into_sv(self, perl: &mut Interpreter) -> (sv: SV) {
        let raw = perl.new_sv_uv(self as UV);
        SV::from_raw_owned(perl, raw)
    }
}

impl IntoSV for NV {
    open spec fn fits(self, w: World) -> bool {
        w.objs.len() < usize::MAX
    }

    open spec fn address(self, w: World) -> usize {
        w.objs.len() as usize
    }

    open spec fn made(self, w: World) -> World {
        fresh(w, Value::Num(self))
    }

    open spec fn units(self, p: usize) -> nat {
        0
    }

    fn into_sv(self, perl: &mut Interpreter) -> (sv: SV) {
        let raw = perl.new_sv_nv(self);
        SV::from_raw_owned(perl, raw)
    }
}

impl IntoSV for bool {
    open spec fn fits(self, w: World) -> bool {
        w.objs.len() < usize::MAX
    }

    open spec fn address(self, w: World) -> usize {
        w.objs.len() as usize
    }

    open spec fn made(self, w: World) -> World {
        fresh(w, Value::Bool(self))
    }

    open spec fn units(self, p: usize) -> nat {
        0
    }

    fn into_sv(self, perl: &mut Interpreter) -> (sv: SV) {
        let raw = if self {
            perl.sv_yes()
        } else {
            perl.sv_no()
        };
        SV::from_raw_owned(perl, raw)
    }
}

impl<'a> IntoSV for &'a str {
    open spec fn fits(self, w: World) -> bool {
        w.objs.len() < usize::MAX
    }

    open spec fn address(self, w: World) -> usize {
        w.objs.len() as usize
    }

    /// The scalar holds the UTF-8 encoding of the text, and is marked as
    /// such.
    open spec fn made(self, w: World) -> World {
        fresh(w, Value::Text { bytes: self.spec_bytes(), utf8: true })
    }

    open spec fn units(self, p: usize) -> nat {
        0
    }

    fn into_sv(self, perl: &mut Interpreter) -> (sv: SV) {
        let raw = perl.new_sv_pvn(self.as_bytes(), true);
        SV::from_raw_owned(perl, raw)
    }
}

impl IntoSV for String {
    open spec fn fits(self, w: World) -> bool {
        w.objs.len() < usize::MAX
    }

    open spec fn address(self, w: World) -> usize {
        w.objs.len() as usize
    }

    open spec fn made(self, w: World) -> World {
        fresh(w, Value::Text { bytes: vstd::utf8::encode_utf8(self@), utf8: true })
    }

    open spec fn units(self, p: usize) -> nat {
        0
    }

    fn into_sv(self, perl: &mut Interpreter) -> (sv: SV) {
        self.as_str().into_sv(perl)
    }
}

impl IntoSV for SV {
    open spec fn fits(self, w: World) -> bool {
        self.wf(w)
    }

    open spec fn address(self, w: World) -> usize {
        self@
    }

    open spec fn made(self, w: World) -> World {
        w
    }

    open spec fn units(self, p: usize) -> nat {
        if p == self@ {
            1
        } else {
            0
        }
    }

    fn into_sv(self, perl: &mut Interpreter) -> (sv: SV) {
        self
    }
}

impl<'a> IntoSV for &'a SV {
    open spec fn fits(self, w: World) -> bool {
        self.wf(w) && w.refcnt(self@) < usize::MAX
    }

    open spec fn address(self, w: World) -> usize {
        self@
    }

    open spec fn made(self, w: World) -> World {
        borrowed(w, self@)
    }

    open spec fn units(self, p: usize) -> nat {
        0
    }

    fn into_sv(self, perl: &mut Interpreter) -> (sv: SV) {
        self.clone(perl)
    }
}

} // verus!
