//! Decoding of keyword arguments: pairs of a key and a value on the
//! stack, read into the fields of a declared structure.
//!
//! Every pair is read, and everything that is wrong is collected: one
//! error reports every key that could not be read, every value that
//! could not be converted or was missing, and every required field for
//! which no key was passed. A key that no field is declared with is
//! passed over in silence.

use vstd::prelude::*;
use vstd::string::*;
use vstd::utf8::decode_utf8;
use crate::context::{arg_at, Context};
use crate::array::AV;
use crate::convert::{lent, TryFromSV};
use crate::handle::{borrowed, dropped};
use crate::hash::HV;
use crate::scalar::SV;
use crate::error::{ToStructErr, ToStructErrPart};
use crate::raw::model::{
    holes, lemma_arg_is_live, lemma_holes, lemma_occurrences_bound, lemma_occurrences_member,
    lemma_occurrences_update, lemma_referenced_is_live, occurrences, World,
};
use crate::raw::{Interpreter, IV, NV, UV};

verus! {

/// The kinds of value that a field can be declared with.
#[derive(Clone, Copy, Debug, PartialEq, Eq, Structural)]
pub enum FieldKind {
    /// A truth value.
    Bool,
    /// A signed integer.
    Int,
    /// An unsigned integer.
    Uint,
    /// A floating-point number.
    Num,
    /// Text.
    Text,
    /// A handle on a scalar.
    Scalar,
    /// A handle on an array, passed by reference.
    Array,
    /// A handle on a hash, passed by reference.
    Hash,
}

/// A field as it is declared.
#[derive(Debug)]
pub struct FieldDecl {
    /// The name of the field.
    pub name: &'static str,
    /// The keys under which the field may be passed.
    pub keys: &'static [&'static str],
    /// The name of the field's type, for reports.
    pub ty: &'static str,
    /// The kind of value that the field holds.
    pub kind: FieldKind,
    /// Whether the field may be left out.
    pub optional: bool,
}

/// A structure as it is declared.
#[derive(Debug)]
pub struct StructDecl {
    /// The name of the structure, for reports.
    pub name: &'static str,
    /// The fields, in the order of their declaration.
    pub fields: Vec<FieldDecl>,
}

/// The value of a field.
#[derive(Debug)]
pub enum FieldValue {
    /// A truth value.
    Bool(bool),
    /// A signed integer.
    Int(IV),
    /// An unsigned integer.
    Uint(UV),
    /// A floating-point number.
    Num(NV),
    /// Text.
    Text(String),
    /// A handle on a scalar.
    Scalar(SV),
    /// A handle on an array.
    Array(AV),
    /// A handle on a hash.
    Hash(HV),
}

/// The value of a field, as mathematics sees it.
pub enum FieldView {
    Bool(bool),
    Int(IV),
    Uint(UV),
    Num(NV),
    Text(Seq<char>),
    /// A handle on the scalar at an address.
    Scalar(usize),
    /// A handle on the array at an address.
    Array(usize),
    /// A handle on the hash at an address.
    Hash(usize),
}

impl FieldView {
    /// The object of which the value holds a unit, where it is a handle.
    pub open spec fn ptr(self) -> Option<usize> {
        match self {
            FieldView::Scalar(p) => Some(p),
            FieldView::Array(p) => Some(p),
            FieldView::Hash(p) => Some(p),
            _ => None,
        }
    }

    /// Whether the value, where it is a handle, is one on an object of
    /// its kind in `w`.
    pub open spec fn of_kind(self, w: World) -> bool {
        match self {
            FieldView::Scalar(p) => w.valid(p),
            FieldView::Array(p) => w.is_array(p),
            FieldView::Hash(p) => w.is_hash(p),
            _ => true,
        }
    }
}

/// The objects of which `values` hold units, field by field.
pub open spec fn view_ptrs(values: Seq<Option<FieldView>>) -> Seq<Option<usize>> {
    values.map_values(
        |v: Option<FieldView>|
            match v {
                Some(x) => x.ptr(),
                None => None,
            },
    )
}

impl View for FieldValue {
    type V = FieldView;

    open spec fn view(&self) -> FieldView {
        match *self {
            FieldValue::Bool(b) => FieldView::Bool(b),
            FieldValue::Int(i) => FieldView::Int(i),
            FieldValue::Uint(u) => FieldView::Uint(u),
            FieldValue::Num(n) => FieldView::Num(n),
            FieldValue::Text(s) => FieldView::Text(s@),
            FieldValue::Scalar(sv) => FieldView::Scalar(sv@),
            FieldValue::Array(av) => FieldView::Array(av@),
            FieldValue::Hash(hv) => FieldView::Hash(hv@),
        }
    }
}

impl FieldValue {
    /// Drops the handle that the value holds, where it holds one.
    pub fn drop(self, perl: &mut Interpreter)
        requires
            old(perl)@.wf(),
            self@.of_kind(old(perl)@),
            self@.ptr() is Some ==> old(perl)@.held(self@.ptr()->Some_0) >= 1,
        ensures
            final(perl)@ == match self@.ptr() {
                Some(p) => dropped(old(perl)@, p),
                None => old(perl)@,
            },
            final(perl)@.wf(),
    {
        match self {
            FieldValue::Scalar(sv) => sv.drop(perl),
            FieldValue::Array(av) => av.drop(perl),
            FieldValue::Hash(hv) => hv.drop(perl),
            _ => {},
        }
    }
}

/// One reason of an error, as mathematics sees it.
pub enum PartView {
    OmittedKey(Seq<Seq<char>>),
    OmittedValue(Seq<char>),
    KeyParseFail { offset: int, ty: Seq<char>, error: Seq<char> },
    ValueParseFail { key: Seq<char>, offset: int, ty: Seq<char>, error: Seq<char> },
}

/// The view of one reason of an error.
pub open spec fn part_view(part: ToStructErrPart) -> PartView {
    match part {
        ToStructErrPart::OmittedKey(names) => PartView::OmittedKey(crate::text::views(names@)),
        ToStructErrPart::OmittedValue(name) => PartView::OmittedValue(name@),
        ToStructErrPart::KeyParseFail { offset, ty, error } => PartView::KeyParseFail {
            offset: offset as int,
            ty: ty@,
            error: error@,
        },
        ToStructErrPart::ValueParseFail { key, offset, ty, error } => PartView::ValueParseFail {
            key: key@,
            offset: offset as int,
            ty: ty@,
            error: error@,
        },
    }
}

/// The views of the reasons of an error.
pub open spec fn part_views(parts: Seq<ToStructErrPart>) -> Seq<PartView> {
    parts.map_values(|p: ToStructErrPart| part_view(p))
}

/// The views of the values of the fields.
pub open spec fn value_views(values: Seq<Option<FieldValue>>) -> Seq<Option<FieldView>> {
    values.map_values(
        |v: Option<FieldValue>|
            match v {
                Some(x) => Some(x@),
                None => None,
            },
    )
}

/// The index of the first of `keys` that equals `key`.
pub open spec fn key_index(keys: Seq<&'static str>, key: Seq<char>) -> Option<int>
    decreases keys.len(),
{
    if keys.len() == 0 {
        None
    } else if keys[0]@ == key {
        Some(0)
    } else {
        match key_index(keys.drop_first(), key) {
            Some(i) => Some(i + 1),
            None => None,
        }
    }
}

/// The first field that is declared with `key`, and the index of the
/// key among the keys of that field.
pub open spec fn field_index(fields: Seq<FieldDecl>, key: Seq<char>) -> Option<(int, int)>
    decreases fields.len(),
{
    if fields.len() == 0 {
        None
    } else {
        match key_index(fields[0].keys@, key) {
            Some(k) => Some((0, k)),
            None => match field_index(fields.drop_first(), key) {
                Some((f, k)) => Some((f + 1, k)),
                None => None,
            },
        }
    }
}

/// The kind of value that a field of the type written `ty` holds; none
/// where the decoder cannot fill a field of that type.
pub open spec fn kind_of(ty: Seq<char>) -> Option<FieldKind> {
    if ty == "bool"@ {
        Some(FieldKind::Bool)
    } else if ty == "IV"@ || ty == "i64"@ {
        Some(FieldKind::Int)
    } else if ty == "UV"@ || ty == "u64"@ {
        Some(FieldKind::Uint)
    } else if ty == "NV"@ {
        Some(FieldKind::Num)
    } else if ty == "String"@ {
        Some(FieldKind::Text)
    } else if ty == "SV"@ {
        Some(FieldKind::Scalar)
    } else if ty == "AV"@ {
        Some(FieldKind::Array)
    } else if ty == "HV"@ {
        Some(FieldKind::Hash)
    } else {
        None
    }
}

impl FieldKind {
    /// The kind of value that a field of the type written `ty` holds.
    pub fn of_type(ty: &str) -> (kind: Option<FieldKind>)
        ensures
            kind == kind_of(ty@),
    {
        let ty = String::from_str(ty);
        if ty == String::from_str("bool") {
            Some(FieldKind::Bool)
        } else if ty == String::from_str("IV") || ty == String::from_str("i64") {
            Some(FieldKind::Int)
        } else if ty == String::from_str("UV") || ty == String::from_str("u64") {
            Some(FieldKind::Uint)
        } else if ty == String::from_str("NV") {
            Some(FieldKind::Num)
        } else if ty == String::from_str("String") {
            Some(FieldKind::Text)
        } else if ty == String::from_str("SV") {
            Some(FieldKind::Scalar)
        } else if ty == String::from_str("AV") {
            Some(FieldKind::Array)
        } else if ty == String::from_str("HV") {
            Some(FieldKind::Hash)
        } else {
            None
        }
    }

    /// What the conversion to this kind reports of the scalar at `raw`;
    /// nothing where it succeeds.
    pub open spec fn failure(self, w: World, raw: usize) -> Option<Seq<char>> {
        match self {
            FieldKind::Bool => <bool as TryFromSV>::failure(w, raw),
            FieldKind::Int => None,
            FieldKind::Uint => None,
            FieldKind::Num => None,
            FieldKind::Text => <String as TryFromSV>::failure(w, raw),
            FieldKind::Scalar => None,
            FieldKind::Array => <AV as TryFromSV>::failure(w, raw),
            FieldKind::Hash => <HV as TryFromSV>::failure(w, raw),
        }
    }

    /// What the scalar at `raw` converts to.
    pub open spec fn value(self, w: World, raw: usize) -> FieldView {
        match self {
            FieldKind::Bool => FieldView::Bool(w.value(raw).truth()),
            FieldKind::Int => FieldView::Int(w.value(raw).iv()),
            FieldKind::Uint => FieldView::Uint(w.value(raw).uv()),
            FieldKind::Num => FieldView::Num(w.value(raw).nv()),
            FieldKind::Text => FieldView::Text(decode_utf8(w.value(raw).pv())),
            FieldKind::Scalar => FieldView::Scalar(raw),
            FieldKind::Array => FieldView::Array(w.value(raw).rv()),
            FieldKind::Hash => FieldView::Hash(w.value(raw).rv()),
        }
    }

    /// The object of which a value of this kind that is made of the
    /// argument at `idx` takes a unit: none where there is no such
    /// argument, where it does not convert, or where the kind is no handle.
    pub open spec fn taken(self, w: World, idx: int) -> Option<usize> {
        match arg_at(w, idx) {
            Some(e) => if self.failure(w, e) is None {
                self.value(w, e).ptr()
            } else {
                None
            },
            None => None,
        }
    }

    /// Converts the argument at `idx` to this kind. A handle takes a unit
    /// of its object.
    pub fn fetch(self, ctx: &mut Context, idx: isize) -> (out: Option<Result<FieldValue, String>>)
        requires
            old(ctx).wf(),
            self.taken(old(ctx).perl@, idx as int) is Some ==> old(ctx).perl@.refcnt(
                self.taken(old(ctx).perl@, idx as int)->Some_0,
            ) < usize::MAX,
        ensures
            final(ctx).perl@ == lent(old(ctx).perl@, self.taken(old(ctx).perl@, idx as int)),
            final(ctx).wf(),
            final(ctx).entry == old(ctx).entry,
            match arg_at(old(ctx).perl@, idx as int) {
                None => out is None,
                Some(e) => out is Some && match out->Some_0 {
                    Ok(v) => self.failure(old(ctx).perl@, e) is None && v@ == self.value(
                        old(ctx).perl@,
                        e,
                    ) && v@.of_kind(old(ctx).perl@),
                    Err(msg) => self.failure(old(ctx).perl@, e) == Some(msg@),
                },
            },
    {
        match self {
            FieldKind::Bool => match ctx.st_try_fetch::<bool>(idx) {
                None => None,
                Some(Ok(v)) => Some(Ok(FieldValue::Bool(v))),
                Some(Err(e)) => Some(Err(e)),
            },
            FieldKind::Int => match ctx.st_try_fetch::<IV>(idx) {
                None => None,
                Some(Ok(v)) => Some(Ok(FieldValue::Int(v))),
                Some(Err(e)) => Some(Err(e)),
            },
            FieldKind::Uint => match ctx.st_try_fetch::<UV>(idx) {
                None => None,
                Some(Ok(v)) => Some(Ok(FieldValue::Uint(v))),
                Some(Err(e)) => Some(Err(e)),
            },
            FieldKind::Num => match ctx.st_try_fetch::<NV>(idx) {
                None => None,
                Some(Ok(v)) => Some(Ok(FieldValue::Num(v))),
                Some(Err(e)) => Some(Err(e)),
            },
            FieldKind::Text => match ctx.st_try_fetch::<String>(idx) {
                None => None,
                Some(Ok(v)) => Some(Ok(FieldValue::Text(v))),
                Some(Err(e)) => Some(Err(e)),
            },
            FieldKind::Scalar => match ctx.st_try_fetch::<SV>(idx) {
                None => None,
                Some(Ok(v)) => Some(Ok(FieldValue::Scalar(v))),
                Some(Err(e)) => Some(Err(e)),
            },
            FieldKind::Array => match ctx.st_try_fetch::<AV>(idx) {
                None => None,
                Some(Ok(v)) => Some(Ok(FieldValue::Array(v))),
                Some(Err(e)) => Some(Err(e)),
            },
            FieldKind::Hash => match ctx.st_try_fetch::<HV>(idx) {
                None => None,
                Some(Ok(v)) => Some(Ok(FieldValue::Hash(v))),
                Some(Err(e)) => Some(Err(e)),
            },
        }
    }
}

/// What is known while the pairs are read: the value of each field for
/// which one was read, and what went wrong so far.
pub struct Progress {
    pub values: Seq<Option<FieldView>>,
    pub errors: Seq<PartView>,
}

/// What is known once the pair at `offset` was read.
pub open spec fn step(w: World, fields: Seq<FieldDecl>, offset: int, p: Progress) -> Progress {
    let key_sv = arg_at(w, offset)->Some_0;
    match <String as TryFromSV>::failure(w, key_sv) {
        Some(why) => Progress {
            errors: p.errors.push(
                PartView::KeyParseFail { offset, ty: "String"@, error: why },
            ),
            ..p
        },
        None => match field_index(fields, decode_utf8(w.value(key_sv).pv())) {
            None => p,
            Some((f, k)) => match arg_at(w, offset + 1) {
                None => Progress {
                    errors: p.errors.push(PartView::OmittedValue(fields[f].keys@[k]@)),
                    ..p
                },
                Some(val_sv) => match fields[f].kind.failure(w, val_sv) {
                    Some(why) => Progress {
                        errors: p.errors.push(
                            PartView::ValueParseFail {
                                key: fields[f].keys@[k]@,
                                offset: offset + 1,
                                ty: fields[f].ty@,
                                error: why,
                            },
                        ),
                        ..p
                    },
                    None => Progress {
                        values: p.values.update(f, Some(fields[f].kind.value(w, val_sv))),
                        ..p
                    },
                },
            },
        },
    }
}

/// What is known once every pair from `offset` on was read.
pub open spec fn run(w: World, fields: Seq<FieldDecl>, offset: int, p: Progress) -> Progress
    decreases
        (if offset < w.args.len() {
            w.args.len() - offset
        } else {
            0
        }),
{
    if 0 <= offset < w.args.len() {
        run(w, fields, offset + 2, step(w, fields, offset, p))
    } else {
        p
    }
}

/// The offset at which reading pairs from `offset` on ends.
pub open spec fn end(w: World, offset: int) -> int
    decreases
        (if offset < w.args.len() {
            w.args.len() - offset
        } else {
            0
        }),
{
    if 0 <= offset < w.args.len() {
        end(w, offset + 2)
    } else {
        offset
    }
}

/// One error for each required field among the first `n` that has no value.
pub open spec fn omitted(fields: Seq<FieldDecl>, values: Seq<Option<FieldView>>, n: int) -> Seq<
    PartView,
>
    decreases n,
{
    if n <= 0 {
        Seq::empty()
    } else {
        let before = omitted(fields, values, n - 1);
        if !fields[n - 1].optional && values[n - 1] is None {
            before.push(PartView::OmittedKey(crate::text::views(fields[n - 1].keys@)))
        } else {
            before
        }
    }
}

/// Everything that is wrong with the keyword arguments from `offset` on.
pub open spec fn all_errors(w: World, fields: Seq<FieldDecl>, offset: int) -> Seq<PartView> {
    let p = run(w, fields, offset, start(fields.len()));
    p.errors + omitted(fields, p.values, fields.len() as int)
}

/// What is known before a pair was read.
pub open spec fn start(n: nat) -> Progress {
    Progress { values: Seq::new(n, |i: int| None::<FieldView>), errors: Seq::empty() }
}

/// Reading a pair drops nothing that went wrong before it.
pub proof fn lemma_step_keeps(w: World, fields: Seq<FieldDecl>, offset: int, p: Progress)
    ensures
        p.errors.is_prefix_of(step(w, fields, offset, p).errors),
{
}

/// Nothing that went wrong with one pair is dropped when the pairs
/// behind it are read: the errors of all pairs are collected.
pub proof fn lemma_run_keeps(w: World, fields: Seq<FieldDecl>, offset: int, p: Progress)
    ensures
        p.errors.is_prefix_of(run(w, fields, offset, p).errors),
    decreases
        (if offset < w.args.len() {
            w.args.len() - offset
        } else {
            0
        }),
{
    if 0 <= offset < w.args.len() {
        lemma_step_keeps(w, fields, offset, p);
        lemma_run_keeps(w, fields, offset + 2, step(w, fields, offset, p));
    }
}

/// Each required field that has no value is reported as omitted.
pub proof fn lemma_omitted_reported(
    fields: Seq<FieldDecl>,
    values: Seq<Option<FieldView>>,
    n: int,
    i: int,
)
    requires
        0 <= i < n <= fields.len(),
        !fields[i].optional,
        values[i] is None,
    ensures
        omitted(fields, values, n).contains(
            PartView::OmittedKey(crate::text::views(fields[i].keys@)),
        ),
    decreases n,
{
    let part = PartView::OmittedKey(crate::text::views(fields[i].keys@));
    if i == n - 1 {
        let all = omitted(fields, values, n);
        assert(all.last() == part);
    } else {
        lemma_omitted_reported(fields, values, n - 1, i);
        let before = omitted(fields, values, n - 1);
        let k = choose|k: int| 0 <= k < before.len() && before[k] == part;
        assert(omitted(fields, values, n)[k] == part);
    }
}

/// The error that the decoder returns holds every problem: what went
/// wrong with each pair, in the order of the pairs, and behind that each
/// required field that was given no value.
pub proof fn lemma_all_errors(w: World, fields: Seq<FieldDecl>, offset: int, i: int)
    requires
        0 <= i < fields.len(),
        !fields[i].optional,
        run(w, fields, offset, start(fields.len())).values[i] is None,
    ensures
        run(w, fields, offset, start(fields.len())).errors.is_prefix_of(
            all_errors(w, fields, offset),
        ),
        all_errors(w, fields, offset).contains(
            PartView::OmittedKey(crate::text::views(fields[i].keys@)),
        ),
{
    let p = run(w, fields, offset, start(fields.len()));
    let gone = omitted(fields, p.values, fields.len() as int);
    lemma_omitted_reported(fields, p.values, fields.len() as int, i);
    let part = PartView::OmittedKey(crate::text::views(fields[i].keys@));
    let k = choose|k: int| 0 <= k < gone.len() && gone[k] == part;
    assert((p.errors + gone)[p.errors.len() + k] == part);
}

fn find_key(keys: &'static [&'static str], key: &String) -> (at: Option<usize>)
    ensures
        match at {
            Some(i) => key_index(keys@, key@) == Some(i as int) && i < keys@.len(),
            None => key_index(keys@, key@) is None,
        },
{
    let n = keys.len();
    let mut i: usize = 0;
    assert(keys@.skip(0) =~= keys@);
    while i < n
        invariant
            n == keys@.len(),
            i <= n,
            key_index(keys@, key@) == match key_index(keys@.skip(i as int), key@) {
                Some(j) => Some(j + i),
                None => None,
            },
        decreases n - i,
    {
        let candidate = String::from_str(keys[i]);
        if candidate == *key {
            assert(keys@.skip(i as int)[0] == keys@[i as int]);
            return Some(i);
        }
        proof {
            assert(keys@.skip(i as int)[0] == keys@[i as int]);
            assert(keys@.skip(i as int).drop_first() =~= keys@.skip(i + 1));
        }
        i += 1;
    }
    None
}

fn find_field(fields: &Vec<FieldDecl>, key: &String) -> (at: Option<(usize, usize)>)
    ensures
        match at {
            Some((f, k)) => field_index(fields@, key@) == Some((f as int, k as int)) && f
                < fields@.len() && k < fields@[f as int].keys@.len(),
            None => field_index(fields@, key@) is None,
        },
{
    let n = fields.len();
    let mut i: usize = 0;
    assert(fields@.skip(0) =~= fields@);
    while i < n
        invariant
            n == fields@.len(),
            i <= n,
            field_index(fields@, key@) == match field_index(fields@.skip(i as int), key@) {
                Some((f, k)) => Some((f + i, k)),
                None => None,
            },
        decreases n - i,
    {
        proof {
            assert(fields@.skip(i as int)[0] == fields@[i as int]);
            assert(fields@.skip(i as int).drop_first() =~= fields@.skip(i + 1));
        }
        match find_key(fields[i].keys, key) {
            Some(k) => {
                return Some((i, k));
            },
            None => {},
        }
        i += 1;
    }
    None
}

/// What a world that lends units reads as: everything but the counts
/// and the handles is as it was.
pub proof fn lemma_lending(w: World, ptrs: Seq<Option<usize>>)
    ensures
        w.lending(ptrs).objs.len() == w.objs.len(),
        w.lending(ptrs).args == w.args,
        forall|p: usize|
            w.valid(p) ==> {
                &&& (#[trigger] w.lending(ptrs).objs[p as int]).thing == w.objs[p as int].thing
                &&& w.lending(ptrs).objs[p as int].refcnt == w.objs[p as int].refcnt + occurrences(
                    ptrs,
                    Some(p),
                )
                &&& w.lending(ptrs).objs[p as int].held == w.objs[p as int].held + occurrences(
                    ptrs,
                    Some(p),
                )
                &&& w.lending(ptrs).objs[p as int].refcnt <= w.objs[p as int].refcnt + ptrs.len()
            },
{
    assert forall|p: usize| w.valid(p) implies (#[trigger] w.lending(ptrs).objs[p as int]).refcnt
        <= w.objs[p as int].refcnt + ptrs.len() by {
        lemma_occurrences_bound(ptrs, Some(p));
    }
}

/// Putting another value in the place of one value lends a unit of
/// what the new value is a handle on, and drops the handle that the old
/// value was.
pub proof fn lemma_lending_update(w: World, ptrs: Seq<Option<usize>>, f: int, np: Option<usize>)
    requires
        0 <= f < ptrs.len(),
        w.objs.len() <= usize::MAX,
        np is Some ==> w.valid(np->Some_0),
        ptrs[f] is Some ==> w.valid(ptrs[f]->Some_0),
    ensures
        w.lending(ptrs.update(f, np)) == match ptrs[f] {
            Some(o) => dropped(lent(w.lending(ptrs), np), o),
            None => lent(w.lending(ptrs), np),
        },
{
    let a = w.lending(ptrs);
    let b = lent(a, np);
    let c = match ptrs[f] {
        Some(o) => dropped(b, o),
        None => b,
    };
    let t = w.lending(ptrs.update(f, np));
    lemma_occurrences_member(ptrs, f);
    assert forall|p: int| 0 <= p < t.objs.len() implies t.objs[p] == c.objs[p] by {
        lemma_occurrences_update(ptrs, f, np, Some(p as usize));
        let x = a.objs[p];
        let y = b.objs[p];
        if np == Some(p as usize) {
            let q = np->Some_0;
            assert(b == borrowed(a, q));
            assert(a.with_refcnt(q, 1).objs[p].refcnt == x.refcnt + 1);
            assert(y.refcnt == x.refcnt + 1 && y.held == x.held + 1);
        } else {
            assert(y == x);
        }
        if ptrs[f] == Some(p as usize) {
            let o = ptrs[f]->Some_0;
            assert(y.held >= 1 && y.refcnt >= 1);
            assert(c == dropped(b, o));
            assert(b.with_held(o, -1).objs[p].held == y.held - 1);
            assert(c.objs[p].held == y.held - 1);
            assert(c.objs[p].refcnt == y.refcnt - 1);
        } else {
            assert(c.objs[p] == y);
        }
    }
    assert(t.objs =~= c.objs);
}

/// The view of a value that may be missing.
pub open spec fn view_of(v: Option<FieldValue>) -> Option<FieldView> {
    match v {
        Some(x) => Some(x@),
        None => None,
    }
}

/// The object of which a value that may be missing holds a unit.
pub open spec fn ptr_of(v: Option<FieldValue>) -> Option<usize> {
    match v {
        Some(x) => x@.ptr(),
        None => None,
    }
}

fn put(values: &mut Vec<Option<FieldValue>>, f: usize, v: Option<FieldValue>) -> (was: Option<
    FieldValue,
>)
    requires
        f < old(values)@.len(),
    ensures
        final(values)@ == old(values)@.update(f as int, v),
        was == old(values)@[f as int],
{
    values.push(v);
    let was = values.swap_remove(f);
    assert(values@ =~= old(values)@.update(f as int, v));
    was
}

/// Puts `v` in the place of the value of field `f`, and drops the handle
/// that the old value was.
fn replace_value(ctx: &mut Context, values: &mut Vec<Option<FieldValue>>, f: usize, v: Option<
    FieldValue,
>, Ghost(w): Ghost<World>)
    requires
        old(ctx).wf(),
        w.wf(),
        w.objs.len() <= usize::MAX,
        f < old(values)@.len(),
        forall|i: int|
            0 <= i < old(values)@.len() && (#[trigger] value_views(old(values)@)[i]) is Some
                ==> value_views(old(values)@)[i]->Some_0.of_kind(w),
        v is Some ==> v->Some_0@.of_kind(w),
        old(ctx).perl@ == lent(w.lending(view_ptrs(value_views(old(values)@))), ptr_of(v)),
    ensures
        final(values)@ == old(values)@.update(f as int, v),
        final(ctx).perl@ == w.lending(view_ptrs(value_views(final(values)@))),
        final(ctx).wf(),
        final(ctx).entry == old(ctx).entry,
        forall|i: int|
            0 <= i < final(values)@.len() && (#[trigger] value_views(final(values)@)[i]) is Some
                ==> value_views(final(values)@)[i]->Some_0.of_kind(w),
{
    let ghost ptrs = view_ptrs(value_views(values@));
    let ghost np = ptr_of(v);
    proof {
        lemma_lending(w, ptrs);
        assert(value_views(values@)[f as int] is Some ==> value_views(values@)[f as int]->Some_0.of_kind(w));
        if ptrs[f as int] is Some {
            lemma_occurrences_member(ptrs, f as int);
        }
        lemma_lending_update(w, ptrs, f as int, np);
    }
    let was = put(values, f, v);
    proof {
        assert(value_views(values@) =~= value_views(old(values)@).update(f as int, view_of(v)));
        assert(view_ptrs(value_views(values@)) =~= ptrs.update(f as int, np));
    }
    match was {
        Some(old_value) => {
            old_value.drop(&mut ctx.perl);
        },
        None => {},
    }
}

/// Reads the keyword arguments from `offset` on into the fields of
/// `decl`. Returns the value of each field, `None` for an optional field
/// that was not passed, or everything that is wrong with the arguments.
/// A value that is a handle holds a unit of its object; where the
/// arguments are wrong, every handle that was made is dropped again.
pub fn from_kv(ctx: &mut Context, decl: &StructDecl, offset: &mut isize) -> (out: Result<
    Vec<Option<FieldValue>>,
    ToStructErr,
>)
    requires
        old(ctx).wf(),
        old(ctx).perl@.args.len() < isize::MAX,
        forall|p: usize|
            old(ctx).perl@.valid(p) ==> old(ctx).perl@.refcnt(p) + decl.fields@.len() < usize::MAX,
    ensures
        final(ctx).wf(),
        final(ctx).entry == old(ctx).entry,
        *final(offset) == end(old(ctx).perl@, *old(offset) as int),
        match out {
            Ok(values) => {
                &&& all_errors(old(ctx).perl@, decl.fields@, *old(offset) as int).len() == 0
                &&& value_views(values@) == run(
                    old(ctx).perl@,
                    decl.fields@,
                    *old(offset) as int,
                    start(decl.fields@.len()),
                ).values
                &&& final(ctx).perl@ == old(ctx).perl@.lending(view_ptrs(value_views(values@)))
                &&& forall|i: int|
                    0 <= i < values@.len() && (#[trigger] value_views(values@)[i]) is Some
                        ==> value_views(values@)[i]->Some_0.of_kind(final(ctx).perl@)
            },
            Err(e) => {
                &&& e.name == decl.name
                &&& e.errors@.len() > 0
                &&& part_views(e.errors@) == all_errors(
                    old(ctx).perl@,
                    decl.fields@,
                    *old(offset) as int,
                )
                &&& final(ctx).perl@ == old(ctx).perl@
            },
        },
{
    let ghost w = ctx.perl@;
    let ghost fields = decl.fields@;
    let ghost first = *offset as int;
    let objects = ctx.perl.heap_len();
    let mut errors: Vec<ToStructErrPart> = Vec::new();
    let mut values: Vec<Option<FieldValue>> = Vec::new();
    let n = decl.fields.len();
    let mut i: usize = 0;
    while i < n
        invariant
            n == decl.fields@.len(),
            i <= n,
            values@.len() == i,
            forall|k: int| 0 <= k < i ==> values@[k] is None,
        decreases n - i,
    {
        values.push(None);
        i += 1;
    }
    assert(value_views(values@) =~= start(n as nat).values);
    assert(part_views(errors@) =~= start(n as nat).errors);
    proof {
        assert(view_ptrs(value_views(values@)) =~= holes(n as nat));
        assert forall|p: usize| occurrences(holes(n as nat), Some(p)) == 0 by {
            lemma_holes(n as nat, p);
        }
        assert(w.lending(holes(n as nat)).objs =~= w.objs);
    }
    loop
        invariant
            ctx.wf(),
            w.wf(),
            objects == w.objs.len(),
            ctx.perl@ == w.lending(view_ptrs(value_views(values@))),
            ctx.entry == old(ctx).entry,
            w.args.len() < isize::MAX,
            forall|p: usize| w.valid(p) ==> w.refcnt(p) + fields.len() < usize::MAX,
            fields == decl.fields@,
            values@.len() == fields.len(),
            forall|i: int|
                0 <= i < values@.len() && (#[trigger] value_views(values@)[i]) is Some
                    ==> value_views(values@)[i]->Some_0.of_kind(w),
            run(w, fields, first, start(fields.len())) == run(
                w,
                fields,
                *offset as int,
                Progress { values: value_views(values@), errors: part_views(errors@) },
            ),
            end(w, first) == end(w, *offset as int),
        ensures
            ctx.wf(),
            ctx.perl@ == w.lending(view_ptrs(value_views(values@))),
            ctx.entry == old(ctx).entry,
            values@.len() == fields.len(),
            forall|i: int|
                0 <= i < values@.len() && (#[trigger] value_views(values@)[i]) is Some
                    ==> value_views(values@)[i]->Some_0.of_kind(w),
            run(w, fields, first, start(fields.len())) == (Progress {
                values: value_views(values@),
                errors: part_views(errors@),
            }),
            end(w, first) == *offset,
        decreases
            (if *offset < w.args.len() {
                w.args.len() - *offset
            } else {
                0
            }),
    {
        let ghost before = Progress {
            values: value_views(values@),
            errors: part_views(errors@),
        };
        let ghost ptrs = view_ptrs(value_views(values@));
        let ghost cur = ctx.perl@;
        let at: isize = *offset;
        proof {
            lemma_lending(w, ptrs);
            if arg_at(w, at as int) is Some {
                lemma_arg_is_live(w, at as int);
            }
            if arg_at(w, at + 1) is Some {
                lemma_arg_is_live(w, at + 1);
                let e = w.args[at + 1];
                assert(cur.objs[e as int].thing == w.objs[e as int].thing);
            }
        }
        match ctx.st_try_fetch::<String>(at) {
            None => {
                break ;
            },
            Some(Err(e)) => {
                errors.push(ToStructErrPart::KeyParseFail { offset: at, ty: "String", error: e });
                proof {
                    assert(part_views(errors@) =~= step(w, fields, at as int, before).errors);
                }
            },
            Some(Ok(key)) => {
                match find_field(&decl.fields, &key) {
                    None => {},
                    Some((f, k)) => {
                        let field = &decl.fields[f];
                        let key_lit: &'static str = field.keys[k];
                        proof {
                            let q = field.kind.taken(cur, at + 1);
                            if q is Some {
                                let e = w.args[at + 1];
                                if field.kind is Array || field.kind is Hash {
                                    lemma_referenced_is_live(w, e, q->Some_0);
                                }
                                assert(w.valid(q->Some_0));
                                assert(cur.refcnt(q->Some_0) < usize::MAX);
                            }
                        }
                        match field.kind.fetch(ctx, at + 1) {
                            Some(Ok(v)) => {
                                proof {
                                    let e = w.args[at + 1];
                                    assert(v@ == field.kind.value(w, e));
                                    assert(v@.of_kind(w));
                                }
                                replace_value(ctx, &mut values, f, Some(v), Ghost(w));
                                proof {
                                    assert(value_views(values@) =~= step(
                                        w,
                                        fields,
                                        at as int,
                                        before,
                                    ).values);
                                }
                            },
                            Some(Err(e)) => {
                                errors.push(
                                    ToStructErrPart::ValueParseFail {
                                        key: key_lit,
                                        ty: field.ty,
                                        error: e,
                                        offset: at + 1,
                                    },
                                );
                                proof {
                                    assert(part_views(errors@) =~= step(
                                        w,
                                        fields,
                                        at as int,
                                        before,
                                    ).errors);
                                }
                            },
                            None => {
                                errors.push(ToStructErrPart::OmittedValue(key_lit));
                                proof {
                                    assert(part_views(errors@) =~= step(
                                        w,
                                        fields,
                                        at as int,
                                        before,
                                    ).errors);
                                }
                            },
                        }
                    },
                }
            },
        }
        *offset = at + 2;
    }
    let ghost read = Progress { values: value_views(values@), errors: part_views(errors@) };
    let mut j: usize = 0;
    while j < n
        invariant
            n == decl.fields@.len(),
            fields == decl.fields@,
            values@.len() == fields.len(),
            value_views(values@) == read.values,
            j <= n,
            part_views(errors@) == read.errors + omitted(fields, read.values, j as int),
        decreases n - j,
    {
        let field = &decl.fields[j];
        if !field.optional && values[j].is_none() {
            let ghost earlier = errors@;
            errors.push(ToStructErrPart::OmittedKey(field.keys));
            proof {
                let part = PartView::OmittedKey(crate::text::views(fields[j as int].keys@));
                let gone = omitted(fields, read.values, j as int);
                assert(part_views(errors@) =~= part_views(earlier).push(part));
                assert((read.errors + gone).push(part) =~= read.errors + gone.push(part));
                assert(value_views(values@)[j as int] is None == values@[j as int] is None);
                assert(omitted(fields, read.values, j + 1) == omitted(
                    fields,
                    read.values,
                    j as int,
                ).push(PartView::OmittedKey(crate::text::views(fields[j as int].keys@))));
                assert(part_views(errors@) =~= read.errors + omitted(fields, read.values, j + 1));
            }
        } else {
            proof {
                assert(value_views(values@)[j as int] is None == values@[j as int] is None);
                assert(omitted(fields, read.values, j + 1) == omitted(fields, read.values, j as int));
            }
        }
        j += 1;
    }
    if errors.len() > 0 {
        let mut k: usize = 0;
        while k < n
            invariant
                n == values@.len(),
                k <= n,
                ctx.wf(),
                w.wf(),
                objects == w.objs.len(),
                ctx.entry == old(ctx).entry,
                ctx.perl@ == w.lending(view_ptrs(value_views(values@))),
                forall|i: int|
                    0 <= i < values@.len() && (#[trigger] value_views(values@)[i]) is Some
                        ==> value_views(values@)[i]->Some_0.of_kind(w),
                forall|i: int| 0 <= i < k ==> values@[i] is None,
            decreases n - k,
        {
            replace_value(ctx, &mut values, k, None, Ghost(w));
            k += 1;
        }
        proof {
            assert(view_ptrs(value_views(values@)) =~= holes(n as nat));
            assert forall|p: usize| occurrences(holes(n as nat), Some(p)) == 0 by {
                lemma_holes(n as nat, p);
            }
            assert(w.lending(holes(n as nat)).objs =~= w.objs);
        }
        return Err(ToStructErr { name: decl.name, errors });
    }
    proof {
        let fin = ctx.perl@;
        lemma_lending(w, view_ptrs(value_views(values@)));
        assert forall|i: int|
            0 <= i < values@.len() && (#[trigger] value_views(values@)[i]) is Some implies value_views(
            values@,
        )[i]->Some_0.of_kind(fin) by {
            let v = value_views(values@)[i]->Some_0;
            assert(v.of_kind(w));
            if v.ptr() is Some {
                assert(fin.objs[v.ptr()->Some_0 as int].thing == w.objs[v.ptr()->Some_0 as int].thing);
            }
        }
    }
    Ok(values)
}

} // verus!
