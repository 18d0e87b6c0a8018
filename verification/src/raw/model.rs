//! The mathematical picture of the interpreter, over which every contract
//! of this crate is stated.

use vstd::prelude::*;
use super::NV;

verus! {

/// What a scalar holds.
pub enum Value {
    /// Nothing: the undefined value.
    Undef,
    /// A signed integer.
    Int(i64),
    /// An unsigned integer.
    Uint(u64),
    /// A floating-point number.
    Num(NV),
    /// A string of bytes, marked as UTF-8 encoded text or not.
    Text { bytes: Seq<u8>, utf8: bool },
    /// One of the host's two truth values, which read as the integers 1
    /// and 0 and as the strings "1" and "".
    Bool(bool),
    /// A reference to the object at an address.
    Ref(usize),
}

/// What an object holds.
pub enum Thing {
    /// A scalar and its value.
    Scalar(Value),
    /// An array: its slots from index 0 up, `None` where a slot is unpopulated.
    Array(Seq<Option<usize>>),
    /// A hash: its keys in the order in which it is walked, the value
    /// under each key, and the place that the walk has reached.
    Hash { keys: Seq<Seq<u8>>, vals: Seq<usize>, cursor: nat },
}

/// One object of the heap.
pub struct Object {
    /// The reference count.
    pub refcnt: nat,
    /// How many units of the count are held by handles of native code.
    pub held: nat,
    /// The contents.
    pub thing: Thing,
    /// The package that the object is blessed into, if any.
    pub package: Option<Seq<char>>,
}

/// The interpreter: its heap, the stack frame of the current call, and
/// the exception that is pending, if any.
pub struct World {
    /// The heap; an object's address is its index.
    pub objs: Seq<Object>,
    /// The arguments of the current call.
    pub args: Seq<usize>,
    /// The results pushed by the current call.
    pub rets: Seq<usize>,
    /// How many results the host can see: the stack pointer that was last
    /// written back.
    pub sp: nat,
    /// How often the stack pointer was written back.
    pub putbacks: nat,
    /// The exception raised and not yet handled.
    pub raised: Option<usize>,
    /// The native subroutines that were registered: the name of each,
    /// and the number under which the loader knows its entry point.
    pub subs: Seq<(Seq<char>, usize)>,
    /// The subroutines that the host itself defines: the name of each,
    /// and the message that it dies with, if it dies.
    pub host_subs: Seq<(Seq<char>, Option<Seq<char>>)>,
    /// The names of the arrays that are known by name.
    pub names: Seq<Seq<char>>,
    /// The arrays that are known by name, each at the index of its name.
    pub named: Seq<usize>,
}

impl Value {
    /// Whether the value is defined.
    pub open spec fn ok(self) -> bool {
        !(self is Undef)
    }

    /// Whether the value reads as a signed integer without conversion.
    pub open spec fn iok(self) -> bool {
        self is Int || self is Bool
    }

    /// Whether the value is an unsigned integer.
    pub open spec fn uok(self) -> bool {
        self is Uint
    }

    /// Whether the value reads as a floating-point number without conversion.
    pub open spec fn nok(self) -> bool {
        self is Num || self is Bool
    }

    /// Whether the value reads as a string without conversion.
    pub open spec fn pok(self) -> bool {
        self is Text || self is Bool
    }

    /// Whether the value is a reference.
    pub open spec fn rok(self) -> bool {
        self is Ref
    }

    /// The signed integer that the value reads as; 0 where it does not
    /// read as one.
    pub open spec fn iv(self) -> i64 {
        match self {
            Value::Int(i) => i,
            Value::Bool(true) => 1,
            _ => 0,
        }
    }

    /// The unsigned integer that the value is; 0 where it is none.
    pub open spec fn uv(self) -> u64 {
        match self {
            Value::Uint(u) => u,
            _ => 0,
        }
    }

    /// The floating-point number that the value reads as; zero where it
    /// does not read as one.
    pub open spec fn nv(self) -> NV {
        match self {
            Value::Num(n) => n,
            Value::Bool(true) => NV { bits: 0x3ff0_0000_0000_0000 },
            _ => NV { bits: 0 },
        }
    }

    /// The bytes of the string that the value reads as; the empty string
    /// where it does not read as one.
    pub open spec fn pv(self) -> Seq<u8> {
        match self {
            Value::Text { bytes, utf8 } => bytes,
            Value::Bool(true) => seq![0x31u8],
            _ => Seq::empty(),
        }
    }

    /// Whether the value is a string marked as UTF-8 encoded text.
    pub open spec fn utf8(self) -> bool {
        match self {
            Value::Text { bytes, utf8 } => utf8,
            _ => false,
        }
    }

    /// The address that the value refers to.
    pub open spec fn rv(self) -> usize
        recommends
            self.rok(),
    {
        match self {
            Value::Ref(t) => t,
            _ => 0,
        }
    }

    /// Whether the value counts as true: a defined value that is neither
    /// zero, nor the empty string, nor the string "0".
    pub open spec fn truth(self) -> bool {
        match self {
            Value::Undef => false,
            Value::Int(i) => i != 0,
            Value::Uint(u) => u != 0,
            Value::Num(n) => n.bits != 0 && n.bits != 0x8000_0000_0000_0000,
            Value::Text { bytes, utf8 } => !(bytes.len() == 0 || (bytes.len() == 1 && bytes[0]
                == 0x30u8)),
            Value::Bool(b) => b,
            Value::Ref(t) => true,
        }
    }
}

impl Thing {
    /// The value of the scalar, or the undefined value for what is no scalar.
    pub open spec fn value(self) -> Value {
        match self {
            Thing::Scalar(v) => v,
            _ => Value::Undef,
        }
    }

    /// The host's number for the kind of the thing.
    pub open spec fn type_code(self) -> u32 {
        match self {
            Thing::Scalar(Value::Undef) => 0,
            Thing::Scalar(Value::Int(_)) => 1,
            Thing::Scalar(Value::Uint(_)) => 1,
            Thing::Scalar(Value::Ref(_)) => 1,
            Thing::Scalar(Value::Num(_)) => 2,
            Thing::Scalar(Value::Text { .. }) => 3,
            Thing::Scalar(Value::Bool(_)) => 6,
            Thing::Array(_) => 11,
            Thing::Hash { .. } => 12,
        }
    }
}

/// How often `x` occurs in `s`.
pub open spec fn occurrences<T>(s: Seq<T>, x: T) -> nat
    decreases s.len(),
{
    if s.len() == 0 {
        0
    } else {
        occurrences(s.drop_last(), x) + if s.last() == x {
            1nat
        } else {
            0nat
        }
    }
}

/// How many references to the object at `p` the thing `t` holds.
pub open spec fn thing_count(t: Thing, p: usize) -> nat {
    match t {
        Thing::Scalar(Value::Ref(target)) => if target == p {
            1
        } else {
            0
        },
        Thing::Scalar(_) => 0,
        Thing::Array(slots) => occurrences(slots, Some(p)),
        Thing::Hash { keys, vals, cursor } => occurrences(vals, p),
    }
}

/// How many references to the object at `p` the objects `objs` hold.
pub open spec fn heap_count(objs: Seq<Object>, p: usize) -> nat
    decreases objs.len(),
{
    if objs.len() == 0 {
        0
    } else {
        heap_count(objs.drop_last(), p) + thing_count(objs.last().thing, p)
    }
}

/// The highest index that an array can reach on this machine: the
/// greatest index but one, so that the number of slots is an index too.
pub const AV_MAX_INDEX: isize = isize::MAX - 1;

/// The slots `slots` after `sv` was put at index `k`: the slot is
/// replaced where there is one, else the array grows up to it.
pub open spec fn stored_slots(slots: Seq<Option<usize>>, k: int, sv: usize) -> Seq<Option<usize>> {
    if k < slots.len() {
        slots.update(k, Some(sv))
    } else {
        (slots + holes((k - slots.len()) as nat)).push(Some(sv))
    }
}

/// What the slot of `slots` at index `k` holds; nothing where there is no such slot.
pub open spec fn slot_at(slots: Seq<Option<usize>>, k: int) -> Option<usize> {
    if 0 <= k < slots.len() {
        slots[k]
    } else {
        None
    }
}

/// `slots` without the unpopulated slots at its end.
pub open spec fn trimmed(slots: Seq<Option<usize>>) -> Seq<Option<usize>>
    decreases slots.len(),
{
    if slots.len() > 0 && slots.last() is None {
        trimmed(slots.drop_last())
    } else {
        slots
    }
}

/// `n` unpopulated slots.
pub open spec fn holes(n: nat) -> Seq<Option<usize>> {
    Seq::new(n, |i: int| None::<usize>)
}

/// What a call of a subroutine that was not defined dies with.
pub open spec fn undefined_subroutine(name: Seq<char>) -> Seq<char> {
    "Undefined subroutine &"@ + name + " called"@
}

/// The index of the first of `names` that equals `name`.
pub open spec fn first_index(names: Seq<Seq<char>>, name: Seq<char>) -> Option<int>
    decreases names.len(),
{
    if names.len() == 0 {
        None
    } else if names[0] == name {
        Some(0)
    } else {
        match first_index(names.drop_first(), name) {
            Some(i) => Some(i + 1),
            None => None,
        }
    }
}

/// Whether no two keys of `keys` are equal.
pub open spec fn distinct(keys: Seq<Seq<u8>>) -> bool {
    forall|i: int, j: int| 0 <= i < j < keys.len() ==> keys[i] != keys[j]
}

/// Whether a thing is well formed in itself: an array stays within the
/// machine's limit and ends in a populated slot, and a hash has a value
/// for each key and no key twice.
pub open spec fn thing_wf(t: Thing) -> bool {
    match t {
        Thing::Array(slots) => {
            &&& slots.len() <= AV_MAX_INDEX + 1
            &&& slots.len() == 0 || slots.last() is Some
        },
        Thing::Hash { keys, vals, cursor } => {
            &&& keys.len() == vals.len()
            &&& cursor <= keys.len()
            &&& distinct(keys)
        },
        _ => true,
    }
}

impl World {
    /// The interpreter before anything was allocated.
    pub open spec fn empty() -> World {
        World {
            objs: Seq::empty(),
            args: Seq::empty(),
            rets: Seq::empty(),
            sp: 0,
            putbacks: 0,
            raised: None,
            subs: Seq::empty(),
            host_subs: Seq::empty(),
            names: Seq::empty(),
            named: Seq::empty(),
        }
    }

    /// How many references to the object at `p` the host keeps.
    pub open spec fn inbound(self, p: usize) -> nat {
        heap_count(self.objs, p) + occurrences(self.args, p) + occurrences(self.rets, p)
            + occurrences(self.named, p) + if self.raised == Some(p) {
            1nat
        } else {
            0nat
        }
    }

    /// Whether `p` is the address of an object.
    pub open spec fn valid(self, p: usize) -> bool {
        p < self.objs.len()
    }

    /// Whether `p` is the address of an object that the host has not been
    /// told to reclaim: its reference count is positive.
    pub open spec fn live(self, p: usize) -> bool {
        p < self.objs.len() && self.objs[p as int].refcnt > 0
    }

    /// The reference count of the object at `p`.
    pub open spec fn refcnt(self, p: usize) -> nat {
        self.objs[p as int].refcnt
    }

    /// How many units of the object at `p` are held by handles.
    pub open spec fn held(self, p: usize) -> nat {
        self.objs[p as int].held
    }

    /// The units of the object at `p` that neither a handle nor the host
    /// accounts for.
    pub open spec fn loose(self, p: usize) -> int {
        if p < self.objs.len() {
            self.objs[p as int].refcnt - self.objs[p as int].held - self.inbound(p)
        } else {
            0
        }
    }

    /// Every reference points at an object, every object's count covers
    /// the handles and the references to it, and every hash is well formed.
    pub open spec fn wf(self) -> bool {
        &&& forall|p: usize| p >= self.objs.len() ==> #[trigger] self.inbound(p) == 0
        &&& forall|p: usize| p < self.objs.len() ==> #[trigger] self.loose(p) >= 0
        &&& forall|p: int| 0 <= p < self.objs.len() ==> thing_wf(#[trigger] self.objs[p].thing)
        &&& self.sp <= self.rets.len()
        &&& self.args.len() <= isize::MAX
        &&& self.names.len() == self.named.len()
    }

    /// Whether the object at `p` is a scalar.
    pub open spec fn is_scalar(self, p: usize) -> bool {
        p < self.objs.len() && self.objs[p as int].thing is Scalar
    }

    /// Whether the object at `p` is an array.
    pub open spec fn is_array(self, p: usize) -> bool {
        p < self.objs.len() && self.objs[p as int].thing is Array
    }

    /// Whether the object at `p` is a hash.
    pub open spec fn is_hash(self, p: usize) -> bool {
        p < self.objs.len() && self.objs[p as int].thing is Hash
    }

    /// The value of the scalar at `p`; the undefined value where the object
    /// at `p` is no scalar.
    pub open spec fn value(self, p: usize) -> Value {
        self.objs[p as int].thing.value()
    }

    /// The slots of the array at `p`.
    pub open spec fn array(self, p: usize) -> Seq<Option<usize>>
        recommends
            self.is_array(p),
    {
        self.objs[p as int].thing->Array_0
    }

    /// The keys of the hash at `p`, in walking order.
    pub open spec fn keys(self, p: usize) -> Seq<Seq<u8>>
        recommends
            self.is_hash(p),
    {
        self.objs[p as int].thing->Hash_keys
    }

    /// The values of the hash at `p`, each at the index of its key.
    pub open spec fn vals(self, p: usize) -> Seq<usize>
        recommends
            self.is_hash(p),
    {
        self.objs[p as int].thing->Hash_vals
    }

    /// The place that the walk of the hash at `p` has reached.
    pub open spec fn cursor(self, p: usize) -> nat
        recommends
            self.is_hash(p),
    {
        self.objs[p as int].thing->Hash_cursor
    }

    /// The world with the object at `p` replaced by `o`.
    pub open spec fn with_object(self, p: usize, o: Object) -> World {
        World { objs: self.objs.update(p as int, o), ..self }
    }

    /// The world with the contents of the object at `p` replaced by `t`.
    pub open spec fn with_thing(self, p: usize, t: Thing) -> World {
        self.with_object(p, Object { thing: t, ..self.objs[p as int] })
    }

    /// The world with `d` added to the reference count of the object at `p`.
    pub open spec fn with_refcnt(self, p: usize, d: int) -> World {
        self.with_object(
            p,
            Object { refcnt: (self.objs[p as int].refcnt + d) as nat, ..self.objs[p as int] },
        )
    }

    /// The world with `d` added to the units held by handles of the object at `p`.
    pub open spec fn with_held(self, p: usize, d: int) -> World {
        self.with_object(
            p,
            Object { held: (self.objs[p as int].held + d) as nat, ..self.objs[p as int] },
        )
    }

    /// The world with one more object, which holds `t` and carries one
    /// unit; its address is the old length of the heap.
    pub open spec fn with_new(self, t: Thing) -> World {
        World {
            objs: self.objs.push(Object { refcnt: 1, held: 0, thing: t, package: None }),
            ..self
        }
    }

    /// The world with one unit taken from the count of the object that
    /// `slot` holds, if it holds one.
    pub open spec fn dec_opt(self, slot: Option<usize>) -> World {
        match slot {
            Some(p) => self.with_refcnt(p, -1),
            None => self,
        }
    }

    /// The world with one unit taken from the count of each object that
    /// `slots` holds, as often as `slots` holds it.
    pub open spec fn released(self, slots: Seq<Option<usize>>) -> World
        decreases slots.len(),
    {
        if slots.len() == 0 {
            self
        } else {
            self.released(slots.drop_last()).dec_opt(slots.last())
        }
    }

    /// The world after `sv` was stored at index `k` of the array at `av`:
    /// the array holds it, and what the slot held before lost its unit.
    pub open spec fn av_stored(self, av: usize, k: int, sv: usize) -> World {
        self.with_thing(av, Thing::Array(stored_slots(self.array(av), k, sv))).dec_opt(
            slot_at(self.array(av), k),
        )
    }

    /// The world after the slot at index `k` of the array at `av` was
    /// emptied: what it held keeps its unit, which nobody accounts for.
    pub open spec fn av_deleted(self, av: usize, k: int) -> World {
        if slot_at(self.array(av), k) is Some {
            self.with_thing(av, Thing::Array(trimmed(self.array(av).update(k, None))))
        } else {
            self
        }
    }

    /// The world after the last slot of the array at `av` was taken off.
    pub open spec fn av_popped(self, av: usize) -> World {
        if self.array(av).len() > 0 {
            self.with_thing(av, Thing::Array(trimmed(self.array(av).drop_last())))
        } else {
            self
        }
    }

    /// The world after the first slot of the array at `av` was taken off.
    pub open spec fn av_shifted(self, av: usize) -> World {
        if self.array(av).len() > 0 {
            self.with_thing(av, Thing::Array(self.array(av).drop_first()))
        } else {
            self
        }
    }

    /// The world after `sv` was appended to the array at `av`.
    pub open spec fn av_pushed(self, av: usize, sv: usize) -> World {
        self.with_thing(av, Thing::Array(self.array(av).push(Some(sv))))
    }

    /// The world after `n` unpopulated slots were put in front of the
    /// array at `av`. An array without a populated slot stays empty, and
    /// a number below one adds nothing.
    pub open spec fn av_unshifted(self, av: usize, n: int) -> World {
        if self.array(av).len() > 0 && n > 0 {
            self.with_thing(av, Thing::Array(holes(n as nat) + self.array(av)))
        } else {
            self
        }
    }

    /// The world after the array at `av` was cut down to the slots up to
    /// index `fill`: what the slots beyond held lost its units. An array
    /// that ends before `fill` stays as it is.
    pub open spec fn av_filled(self, av: usize, fill: int) -> World {
        if -1 <= fill && fill + 1 < self.array(av).len() {
            self.with_thing(av, Thing::Array(trimmed(self.array(av).take(fill + 1)))).released(
                self.array(av).skip(fill + 1),
            )
        } else {
            self
        }
    }

    /// The world after the array at `av` was emptied.
    pub open spec fn av_cleared(self, av: usize) -> World {
        self.av_filled(av, -1)
    }

    /// The value under `key` in the hash at `hv`, if the hash has the key.
    pub open spec fn hv_value(self, hv: usize, key: Seq<u8>) -> Option<usize> {
        if self.keys(hv).contains(key) {
            Some(self.vals(hv)[self.keys(hv).index_of(key)])
        } else {
            None
        }
    }

    /// The world after `sv` was stored under `key` in the hash at `hv`:
    /// under a key that the hash has, `sv` takes the place of the old
    /// value, which loses its unit; a new key goes behind the others.
    pub open spec fn hv_stored(self, hv: usize, key: Seq<u8>, sv: usize) -> World {
        if self.keys(hv).contains(key) {
            let i = self.keys(hv).index_of(key);
            self.with_thing(
                hv,
                Thing::Hash {
                    keys: self.keys(hv),
                    vals: self.vals(hv).update(i, sv),
                    cursor: self.cursor(hv),
                },
            ).with_refcnt(self.vals(hv)[i], -1)
        } else {
            self.with_thing(
                hv,
                Thing::Hash {
                    keys: self.keys(hv).push(key),
                    vals: self.vals(hv).push(sv),
                    cursor: self.cursor(hv),
                },
            )
        }
    }

    /// The world after `key` was taken out of the hash at `hv`: the
    /// value keeps its unit, which nobody accounts for. A walk that had
    /// passed the key goes on where it was.
    pub open spec fn hv_deleted(self, hv: usize, key: Seq<u8>) -> World {
        if self.keys(hv).contains(key) {
            let i = self.keys(hv).index_of(key);
            self.with_thing(
                hv,
                Thing::Hash {
                    keys: self.keys(hv).remove(i),
                    vals: self.vals(hv).remove(i),
                    cursor: if i < self.cursor(hv) {
                        (self.cursor(hv) - 1) as nat
                    } else {
                        self.cursor(hv)
                    },
                },
            )
        } else {
            self
        }
    }

    /// The world after the hash at `hv` was emptied: each value lost its unit.
    pub open spec fn hv_cleared(self, hv: usize) -> World {
        self.with_thing(
            hv,
            Thing::Hash { keys: Seq::empty(), vals: Seq::empty(), cursor: 0 },
        ).released(self.vals(hv).map_values(|v: usize| Some(v)))
    }

    /// The world with the walk of the hash at `hv` at place `cursor`.
    pub open spec fn hv_walked(self, hv: usize, cursor: nat) -> World {
        self.with_thing(
            hv,
            Thing::Hash { keys: self.keys(hv), vals: self.vals(hv), cursor },
        )
    }

    /// The world after the host put `sv` behind the arguments of the
    /// call that it is about to make.
    pub open spec fn arg_pushed(self, sv: usize) -> World {
        World { args: self.args.push(sv), ..self }
    }

    /// The world after `sv` was pushed behind the results of the call.
    pub open spec fn ret_pushed(self, sv: usize) -> World {
        World { rets: self.rets.push(sv), ..self }
    }

    /// The world after a stack pointer that stands behind `sp` results
    /// was written back.
    pub open spec fn put_back(self, sp: nat) -> World {
        World { sp, putbacks: self.putbacks + 1, ..self }
    }

    /// The world after `errsv` was raised as an exception: one that was
    /// pending before is given up and loses its unit.
    pub open spec fn croaked(self, errsv: usize) -> World {
        World { raised: Some(errsv), ..self }.dec_opt(self.raised)
    }

    /// The world after the native subroutine that the loader knows as
    /// `xsaddr` was registered under `name`.
    pub open spec fn sub_registered(self, name: Seq<char>, xsaddr: usize) -> World {
        World { subs: self.subs.push((name, xsaddr)), ..self }
    }

    /// The world after the host defined a subroutine `name` that dies
    /// with `dies`, or returns where `dies` is nothing.
    pub open spec fn sub_defined(self, name: Seq<char>, dies: Option<Seq<char>>) -> World {
        World { host_subs: self.host_subs.push((name, dies)), ..self }
    }

    /// What a call of the subroutine of the host that is known as `name`
    /// dies with; nothing where it returns. The subroutine that was
    /// defined as `name` first counts; a call of a subroutine that was
    /// not defined dies.
    pub open spec fn call_dies(self, name: Seq<char>) -> Option<Seq<char>> {
        match first_index(self.host_subs.map_values(|s: (Seq<char>, Option<Seq<char>>)| s.0), name) {
            Some(i) => self.host_subs[i].1,
            None => Some(undefined_subroutine(name)),
        }
    }

    /// The world after the subroutine of the host that is known as
    /// `name` was called: where the call died, a new scalar holds the
    /// message, with one unit that nobody accounts for.
    pub open spec fn called(self, name: Seq<char>) -> World {
        match self.call_dies(name) {
            Some(message) => self.with_new(
                Thing::Scalar(Value::Text { bytes: vstd::utf8::encode_utf8(message), utf8: true }),
            ),
            None => self,
        }
    }

    /// The world after the object at `av` was made known as `name`.
    pub open spec fn named_as(self, name: Seq<char>, av: usize) -> World {
        World { names: self.names.push(name), named: self.named.push(av), ..self }
    }

    /// The array that is known as `name`: the object that was made known
    /// as `name` first, if it is an array.
    pub open spec fn array_named(self, name: Seq<char>) -> Option<usize> {
        match first_index(self.names, name) {
            Some(i) => if self.is_array(self.named[i]) {
                Some(self.named[i])
            } else {
                None
            },
            None => None,
        }
    }

    /// The results that the host can see.
    pub open spec fn results(self) -> Seq<usize> {
        self.rets.take(self.sp as int)
    }

    /// Whether `other` has the stack frame and the pending exception of
    /// this world, and every object of this world with its contents, and
    /// with no fewer units and handles.
    pub open spec fn extended(self, other: World) -> bool {
        &&& other.objs.len() >= self.objs.len()
        &&& forall|p: int|
            0 <= p < self.objs.len() ==> {
                &&& (#[trigger] other.objs[p]).thing == self.objs[p].thing
                &&& other.objs[p].package == self.objs[p].package
                &&& other.objs[p].held >= self.objs[p].held
                &&& other.objs[p].refcnt >= self.objs[p].refcnt
            }
        &&& other.args == self.args
        &&& other.rets == self.rets
        &&& other.sp == self.sp
        &&& other.putbacks == self.putbacks
        &&& other.raised == self.raised
        &&& other.subs == self.subs
        &&& other.host_subs == self.host_subs
        &&& other.names == self.names
        &&& other.named == self.named
    }

    /// The units of the object at `p` that handles hold; none of what is
    /// no object.
    pub open spec fn handles(self, p: usize) -> nat {
        if p < self.objs.len() {
            self.objs[p as int].held
        } else {
            0
        }
    }

    /// The world after handles took a unit of their own of each object
    /// that `ptrs` names, as often as `ptrs` names it: count and handles
    /// are that much higher.
    pub open spec fn lending(self, ptrs: Seq<Option<usize>>) -> World {
        World {
            objs: Seq::new(
                self.objs.len(),
                |p: int|
                    Object {
                        refcnt: self.objs[p].refcnt + occurrences(ptrs, Some(p as usize)),
                        held: self.objs[p].held + occurrences(ptrs, Some(p as usize)),
                        ..self.objs[p]
                    },
            ),
            ..self
        }
    }

    /// The object at `p` once handles have let go of every unit of it
    /// that they hold beyond the `mark`: each such unit is taken from the
    /// count as well.
    pub open spec fn let_go(self, p: usize, mark: nat) -> Object {
        let o = self.objs[p as int];
        if o.held > mark {
            Object { held: mark, refcnt: (o.refcnt - (o.held - mark)) as nat, ..o }
        } else {
            o
        }
    }

    /// The world once handles have let go, of each of the first `n`
    /// objects, of every unit that they hold beyond what they held in
    /// `entry`.
    pub open spec fn given_back_upto(self, entry: World, n: nat) -> World {
        World {
            objs: Seq::new(
                self.objs.len(),
                |p: int|
                    if p < n {
                        self.let_go(p as usize, entry.handles(p as usize))
                    } else {
                        self.objs[p]
                    },
            ),
            ..self
        }
    }

    /// The world once handles have let go, of each object, of every unit
    /// that they hold beyond what they held in `entry`: the handles that
    /// were made since and are still on the books are dropped.
    pub open spec fn given_back(self, entry: World) -> World {
        self.given_back_upto(entry, self.objs.len())
    }

    /// Whether handles hold in `other` what they hold in this world: no
    /// handle was left behind, and none was dropped that was there.
    pub open spec fn same_handles(self, other: World) -> bool {
        forall|p: usize| #[trigger] other.handles(p) == self.handles(p)
    }

    /// Whether `other` is this world but for the loose units of the
    /// object at `p`, which are `d` more.
    pub open spec fn loose_moved(self, other: World, p: usize, d: int) -> bool {
        forall|q: usize| #[trigger]
            other.loose(q) == self.loose(q) + if q == p {
                d
            } else {
                0
            }
    }

    /// Whether `other` has the loose units of this world.
    pub open spec fn loose_kept(self, other: World) -> bool {
        forall|q: usize| #[trigger] other.loose(q) == self.loose(q)
    }
}

/// The empty world is well formed.
pub proof fn lemma_empty_wf()
    ensures
        World::empty().wf(),
{
    let w = World::empty();
    assert forall|p: usize| #[trigger] w.inbound(p) == 0 by {
        lemma_occurrences_empty::<usize>(p);
    }
}

/// Nothing occurs in the empty sequence.
pub proof fn lemma_occurrences_empty<T>(x: T)
    ensures
        occurrences(Seq::<T>::empty(), x) == 0,
{
}

/// Occurrences add up over concatenation.
pub proof fn lemma_occurrences_concat<T>(a: Seq<T>, b: Seq<T>, x: T)
    ensures
        occurrences(a + b, x) == occurrences(a, x) + occurrences(b, x),
    decreases b.len(),
{
    if b.len() == 0 {
        assert(a + b =~= a);
    } else {
        assert((a + b).drop_last() =~= a + b.drop_last());
        lemma_occurrences_concat(a, b.drop_last(), x);
    }
}

/// A sequence of one element holds that element once and nothing else.
pub proof fn lemma_occurrences_one<T>(y: T, x: T)
    ensures
        occurrences(seq![y], x) == if y == x {
            1nat
        } else {
            0nat
        },
{
    let one = seq![y];
    assert(one.drop_last() =~= Seq::<T>::empty());
    assert(one.last() == y);
    assert(occurrences(one.drop_last(), x) == 0);
}

/// Pushing an element adds one occurrence of it.
pub proof fn lemma_occurrences_push<T>(s: Seq<T>, y: T, x: T)
    ensures
        occurrences(s.push(y), x) == occurrences(s, x) + if y == x {
            1nat
        } else {
            0nat
        },
{
    assert(s.push(y).drop_last() =~= s);
}

/// Replacing an element removes one occurrence of the old and adds one
/// of the new.
pub proof fn lemma_occurrences_update<T>(s: Seq<T>, i: int, y: T, x: T)
    requires
        0 <= i < s.len(),
    ensures
        occurrences(s.update(i, y), x) + if s[i] == x {
            1nat
        } else {
            0nat
        } == occurrences(s, x) + if y == x {
            1nat
        } else {
            0nat
        },
{
    let head = s.take(i);
    let tail = s.skip(i + 1);
    assert(s =~= head + seq![s[i]] + tail);
    assert(s.update(i, y) =~= head + seq![y] + tail);
    lemma_occurrences_concat(head, seq![s[i]], x);
    lemma_occurrences_concat(head + seq![s[i]], tail, x);
    lemma_occurrences_concat(head, seq![y], x);
    lemma_occurrences_concat(head + seq![y], tail, x);
    lemma_occurrences_one(s[i], x);
    lemma_occurrences_one(y, x);
}

/// Removing an element removes one occurrence of it.
pub proof fn lemma_occurrences_remove<T>(s: Seq<T>, i: int, x: T)
    requires
        0 <= i < s.len(),
    ensures
        occurrences(s.remove(i), x) + if s[i] == x {
            1nat
        } else {
            0nat
        } == occurrences(s, x),
{
    let head = s.take(i);
    let tail = s.skip(i + 1);
    assert(s =~= head + seq![s[i]] + tail);
    assert(s.remove(i) =~= head + tail);
    lemma_occurrences_concat(head, seq![s[i]], x);
    lemma_occurrences_concat(head + seq![s[i]], tail, x);
    lemma_occurrences_concat(head, tail, x);
    lemma_occurrences_one(s[i], x);
}

/// Nothing occurs in a sequence more often than the sequence is long.
pub proof fn lemma_occurrences_bound<T>(s: Seq<T>, x: T)
    ensures
        occurrences(s, x) <= s.len(),
    decreases s.len(),
{
    if s.len() > 0 {
        lemma_occurrences_bound(s.drop_last(), x);
    }
}

/// An element of a sequence occurs in it.
pub proof fn lemma_occurrences_member<T>(s: Seq<T>, i: int)
    requires
        0 <= i < s.len(),
    ensures
        occurrences(s, s[i]) >= 1,
{
    lemma_occurrences_remove(s, i, s[i]);
}

/// A sequence that repeats one element holds nothing else.
pub proof fn lemma_occurrences_repeat<T>(n: nat, y: T, x: T)
    requires
        y != x,
    ensures
        occurrences(Seq::new(n, |i: int| y), x) == 0,
    decreases n,
{
    if n > 0 {
        assert(Seq::new(n, |i: int| y).drop_last() =~= Seq::new((n - 1) as nat, |i: int| y));
        lemma_occurrences_repeat((n - 1) as nat, y, x);
    }
}

/// Appending an object adds the references that it holds.
pub proof fn lemma_heap_count_push(objs: Seq<Object>, o: Object, p: usize)
    ensures
        heap_count(objs.push(o), p) == heap_count(objs, p) + thing_count(o.thing, p),
{
    assert(objs.push(o).drop_last() =~= objs);
}

/// Replacing an object removes the references that the old one held and
/// adds those that the new one holds.
pub proof fn lemma_heap_count_update(objs: Seq<Object>, i: int, o: Object, p: usize)
    requires
        0 <= i < objs.len(),
    ensures
        heap_count(objs.update(i, o), p) + thing_count(objs[i].thing, p) == heap_count(objs, p)
            + thing_count(o.thing, p),
    decreases objs.len(),
{
    if i == objs.len() - 1 {
        assert(objs.update(i, o).drop_last() =~= objs.drop_last());
    } else {
        assert(objs.update(i, o).drop_last() =~= objs.drop_last().update(i, o));
        lemma_heap_count_update(objs.drop_last(), i, o, p);
    }
}

/// The heap holds at least the references that one of its objects holds.
pub proof fn lemma_heap_count_member(objs: Seq<Object>, i: int, p: usize)
    requires
        0 <= i < objs.len(),
    ensures
        heap_count(objs, p) >= thing_count(objs[i].thing, p),
    decreases objs.len(),
{
    if i < objs.len() - 1 {
        lemma_heap_count_member(objs.drop_last(), i, p);
    }
}

/// Replacing an object changes the references that the host keeps by
/// what the old object held and the new one holds.
pub proof fn lemma_inbound_with_object(w: World, i: usize, o: Object, p: usize)
    requires
        i < w.objs.len(),
    ensures
        w.with_object(i, o).inbound(p) + thing_count(w.objs[i as int].thing, p) == w.inbound(p)
            + thing_count(o.thing, p),
{
    lemma_heap_count_update(w.objs, i as int, o, p);
}

/// A new object adds the references that it holds.
pub proof fn lemma_inbound_with_new(w: World, t: Thing, p: usize)
    ensures
        w.with_new(t).inbound(p) == w.inbound(p) + thing_count(t, p),
{
    lemma_heap_count_push(w.objs, Object { refcnt: 1, held: 0, thing: t, package: None }, p);
}

/// What an object refers to is the address of an object whose count is positive.
pub proof fn lemma_referenced_is_live(w: World, i: usize, p: usize)
    requires
        w.wf(),
        i < w.objs.len(),
        thing_count(w.objs[i as int].thing, p) >= 1,
    ensures
        w.live(p),
        w.inbound(p) >= 1,
{
    lemma_heap_count_member(w.objs, i as int, p);
    assert(w.inbound(p) >= 1);
    assert(w.loose(p) >= 0);
}

/// An argument of the call is the address of an object whose count is
/// positive.
pub proof fn lemma_arg_is_live(w: World, idx: int)
    requires
        w.wf(),
        0 <= idx < w.args.len(),
    ensures
        w.live(w.args[idx]),
{
    let sv = w.args[idx];
    lemma_occurrences_member(w.args, idx);
    assert(w.inbound(sv) >= 1);
    if sv >= w.objs.len() {
        assert(w.inbound(sv) == 0);
    }
    assert(w.loose(sv) >= 0);
}

/// An object that a handle holds has a positive count.
pub proof fn lemma_held_is_live(w: World, p: usize)
    requires
        w.wf(),
        p < w.objs.len(),
        w.held(p) >= 1,
    ensures
        w.live(p),
        w.refcnt(p) >= w.held(p),
{
    assert(w.loose(p) >= 0);
}

/// Replacing the contents of an object moves the loose units of what the
/// old and the new contents refer to, and keeps the world well formed
/// where no object ends up with fewer than zero.
pub proof fn lemma_swap_thing(w: World, p: usize, t: Thing)
    requires
        w.wf(),
        w.valid(p),
        thing_wf(t),
        forall|q: usize| q >= w.objs.len() ==> thing_count(t, q) == 0,
        forall|q: usize|
            q < w.objs.len() ==> w.loose(q) + thing_count(w.objs[p as int].thing, q) - thing_count(
                t,
                q,
            ) >= 0,
    ensures
        w.with_thing(p, t).wf(),
        forall|q: usize| #[trigger]
            w.with_thing(p, t).loose(q) == w.loose(q) + thing_count(w.objs[p as int].thing, q)
                - thing_count(t, q),
{
    let o = Object { thing: t, ..w.objs[p as int] };
    let n = w.with_thing(p, t);
    assert forall|q: usize| #[trigger]
        n.inbound(q) + thing_count(w.objs[p as int].thing, q) == w.inbound(q) + thing_count(
            t,
            q,
        ) by {
        lemma_inbound_with_object(w, p, o, q);
    }
    assert forall|q: usize| #[trigger]
        n.loose(q) == w.loose(q) + thing_count(w.objs[p as int].thing, q) - thing_count(
            t,
            q,
        ) by {
        assert(n.inbound(q) + thing_count(w.objs[p as int].thing, q) == w.inbound(q)
            + thing_count(t, q));
        if q >= w.objs.len() {
            assert(w.inbound(q) == 0);
            lemma_heap_count_member(w.objs, p as int, q);
        }
    }
    assert forall|q: usize| q >= n.objs.len() implies #[trigger] n.inbound(q) == 0 by {
        assert(w.inbound(q) == 0);
        lemma_heap_count_member(w.objs, p as int, q);
        assert(n.inbound(q) + thing_count(w.objs[p as int].thing, q) == w.inbound(q)
            + thing_count(t, q));
    }
    assert forall|q: usize| q < n.objs.len() implies #[trigger] n.loose(q) >= 0 by {
        assert(n.loose(q) == w.loose(q) + thing_count(w.objs[p as int].thing, q) - thing_count(
            t,
            q,
        ));
    }
    assert forall|i: int| 0 <= i < n.objs.len() implies thing_wf(#[trigger] n.objs[i].thing) by {
        if i != p {
            assert(thing_wf(w.objs[i].thing));
        }
    }
}

/// Replacing the slots of an array by slots that refer to nothing new
/// keeps the world well formed.
pub proof fn lemma_fewer_refs(w: World, av: usize, slots: Seq<Option<usize>>)
    requires
        w.wf(),
        w.is_array(av),
        thing_wf(Thing::Array(slots)),
        forall|q: usize| #[trigger]
            occurrences(slots, Some(q)) <= occurrences(w.array(av), Some(q)),
    ensures
        w.with_thing(av, Thing::Array(slots)).wf(),
        forall|q: usize| #[trigger]
            w.with_thing(av, Thing::Array(slots)).loose(q) == w.loose(q) + occurrences(
                w.array(av),
                Some(q),
            ) - occurrences(slots, Some(q)),
{
    let t = Thing::Array(slots);
    assert forall|q: usize| q >= w.objs.len() implies thing_count(t, q) == 0 by {
        lemma_invalid_unreferenced(w, av, q);
        assert(occurrences(slots, Some(q)) <= occurrences(w.array(av), Some(q)));
    }
    assert forall|q: usize| q < w.objs.len() implies w.loose(q) + thing_count(
        w.objs[av as int].thing,
        q,
    ) - thing_count(t, q) >= 0 by {
        assert(w.loose(q) >= 0);
        assert(occurrences(slots, Some(q)) <= occurrences(w.array(av), Some(q)));
    }
    lemma_swap_thing(w, av, t);
}

/// Trimming keeps what the slots refer to.
pub proof fn lemma_trimmed(slots: Seq<Option<usize>>, p: usize)
    ensures
        occurrences(trimmed(slots), Some(p)) == occurrences(slots, Some(p)),
        trimmed(slots).len() <= slots.len(),
        trimmed(slots).len() == 0 || trimmed(slots).last() is Some,
        trimmed(slots) == slots.take(trimmed(slots).len() as int),
    decreases slots.len(),
{
    if slots.len() > 0 && slots.last() is None {
        lemma_trimmed(slots.drop_last(), p);
        let t = trimmed(slots.drop_last());
        assert(slots.drop_last().take(t.len() as int) =~= slots.take(t.len() as int));
    } else {
        assert(slots.take(slots.len() as int) =~= slots);
    }
}

/// Unpopulated slots refer to nothing.
pub proof fn lemma_holes(n: nat, p: usize)
    ensures
        occurrences(holes(n), Some(p)) == 0,
{
    lemma_occurrences_repeat(n, None::<usize>, Some(p));
}

/// No object refers to what is not the address of an object.
pub proof fn lemma_invalid_unreferenced(w: World, i: usize, q: usize)
    requires
        w.wf(),
        i < w.objs.len(),
        q >= w.objs.len(),
    ensures
        thing_count(w.objs[i as int].thing, q) == 0,
{
    assert(w.inbound(q) == 0);
    lemma_heap_count_member(w.objs, i as int, q);
}

/// What a slot of an array holds is the address of an object whose
/// count is positive.
pub proof fn lemma_slot_is_live(w: World, av: usize, k: int)
    requires
        w.wf(),
        w.is_array(av),
        slot_at(w.array(av), k) is Some,
    ensures
        w.live(slot_at(w.array(av), k)->Some_0),
        w.inbound(slot_at(w.array(av), k)->Some_0) >= 1,
{
    lemma_occurrences_member(w.array(av), k);
    lemma_referenced_is_live(w, av, w.array(av)[k]->Some_0);
}

/// Storing adds a reference to what is stored and removes one to what
/// the slot held.
pub proof fn lemma_stored_slots(slots: Seq<Option<usize>>, k: int, sv: usize, q: usize)
    requires
        0 <= k,
        slots.len() == 0 || slots.last() is Some,
    ensures
        occurrences(stored_slots(slots, k, sv), Some(q)) + if slot_at(slots, k) == Some(q) {
            1nat
        } else {
            0nat
        } == occurrences(slots, Some(q)) + if sv == q {
            1nat
        } else {
            0nat
        },
        stored_slots(slots, k, sv).len() == if k < slots.len() {
            slots.len()
        } else {
            (k + 1) as nat
        },
        stored_slots(slots, k, sv).last() is Some,
{
    if k < slots.len() {
        lemma_occurrences_update(slots, k, Some(sv), Some(q));
    } else {
        let gap = holes((k - slots.len()) as nat);
        lemma_occurrences_concat(slots, gap, Some(q));
        lemma_holes((k - slots.len()) as nat, q);
        lemma_occurrences_push(slots + gap, Some(sv), Some(q));
    }
}

/// A sequence of addresses and the same sequence as populated slots
/// refer to the same objects.
pub proof fn lemma_occurrences_some(vals: Seq<usize>, p: usize)
    ensures
        occurrences(vals.map_values(|v: usize| Some(v)), Some(p)) == occurrences(vals, p),
    decreases vals.len(),
{
    let slots = vals.map_values(|v: usize| Some(v));
    if vals.len() > 0 {
        assert(slots.drop_last() =~= vals.drop_last().map_values(|v: usize| Some(v)));
        lemma_occurrences_some(vals.drop_last(), p);
    }
}

/// In a sequence without repetition an element is found at its index only.
pub proof fn lemma_distinct_index(keys: Seq<Seq<u8>>, i: int)
    requires
        distinct(keys),
        0 <= i < keys.len(),
    ensures
        keys.contains(keys[i]),
        keys.index_of(keys[i]) == i,
{
    let j = keys.index_of(keys[i]);
    assert(keys[j] == keys[i]);
    if j < i {
        assert(keys[j] != keys[i]);
    } else if i < j {
        assert(keys[i] != keys[j]);
    }
}

/// Making an object that refers to nothing keeps the world well formed,
/// and leaves one unit of the new object that nobody accounts for.
pub proof fn lemma_with_new(w: World, t: Thing)
    requires
        w.wf(),
        w.objs.len() <= usize::MAX,
        thing_wf(t),
        forall|q: usize| thing_count(t, q) == 0,
    ensures
        w.with_new(t).wf(),
        w.loose_moved(w.with_new(t), w.objs.len() as usize, 1),
{
    let n = w.with_new(t);
    let p = w.objs.len() as usize;
    assert forall|q: usize| #[trigger] n.inbound(q) == w.inbound(q) by {
        lemma_inbound_with_new(w, t, q);
    }
    assert forall|q: usize| #[trigger]
        n.loose(q) == w.loose(q) + if q == p {
            1int
        } else {
            0int
        } by {
        assert(n.inbound(q) == w.inbound(q));
        if q == w.objs.len() {
            assert(w.inbound(q) == 0);
        }
    }
    assert forall|q: usize| q < n.objs.len() implies #[trigger] n.loose(q) >= 0 by {
        if q < w.objs.len() {
            assert(w.loose(q) >= 0);
        }
    }
    assert forall|q: usize| q >= n.objs.len() implies #[trigger] n.inbound(q) == 0 by {
        assert(w.inbound(q) == 0);
    }
    assert forall|i: int| 0 <= i < n.objs.len() implies thing_wf(#[trigger] n.objs[i].thing) by {
        if i < w.objs.len() {
            assert(thing_wf(w.objs[i].thing));
        }
    }
}

} // verus!
