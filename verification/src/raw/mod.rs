//! The host interpreter as this crate sees it: a heap of reference-counted
//! objects, the argument stack of the current call, and the primitives
//! that the host offers on them.
//!
//! An object is known by its address. Every reference to an object that
//! the host keeps (an array slot, a hash entry, a reference scalar, a stack
//! slot, a pending exception, a name) and every handle that native code holds
//! accounts for one unit of the object's reference count; units that nobody
//! has accounted for yet are called loose. A primitive that hands an
//! object out of a container hands its unit out with it, loose; a
//! primitive that puts an object somewhere takes a loose unit with it.
//!
//! An object whose count has come down to zero is the host's to reclaim.
//! This interpreter reclaims nothing: such an object stays where it is,
//! with what it holds, and nothing may refer to it any more.

use vstd::prelude::*;

pub mod av;
pub mod hv;
pub mod model;
pub mod stack;
pub mod sv;

pub use model::{Object, Thing, Value, World};

verus! {

/// Signed integer of the host.
pub type IV = i64;

/// Unsigned integer of the host.
pub type UV = u64;

/// Index into an array of the host.
#[allow(non_camel_case_types)]
pub type SSize_t = isize;

/// Size of a host object.
#[allow(non_camel_case_types)]
pub type Size_t = usize;

/// Length of a string of the host.
pub type STRLEN = usize;

/// Floating-point number of the host, held as its IEEE 754 binary64 bit pattern.
#[derive(Clone, Copy, Debug, PartialEq, Eq, Structural)]
pub struct NV {
    /// The bit pattern.
    pub bits: u64,
}

impl NV {
    /// The number with the bit pattern `bits`.
    pub fn from_bits(bits: u64) -> (r: NV)
        ensures
            r.bits == bits,
    {
        NV { bits }
    }

    /// The bit pattern of the number.
    pub fn to_bits(self) -> (r: u64)
        ensures
            r == self.bits,
    {
        self.bits
    }
}

/// The host's number for the kind of an array.
#[allow(non_upper_case_globals)]
pub const SVt_PVAV: u32 = 11;

/// The host's number for the kind of a hash.
#[allow(non_upper_case_globals)]
pub const SVt_PVHV: u32 = 12;

/// The host's number for the kind of a subroutine.
#[allow(non_upper_case_globals)]
pub const SVt_PVCV: u32 = 13;

/// The host's number for the kind of a glob.
#[allow(non_upper_case_globals)]
pub const SVt_PVGV: u32 = 9;

/// Flag of a call: what the subroutine returns is discarded.
pub const G_DISCARD: u32 = 0x4;

/// Flag of a call: the subroutine is called for no value.
pub const G_VOID: u32 = 0x1;

/// Marks the address of a scalar.
#[derive(Debug)]
pub struct SV;

/// Marks the address of an array.
#[derive(Debug)]
pub struct AV;

/// Marks the address of a hash.
#[derive(Debug)]
pub struct HV;

/// What a scalar holds.
pub enum Scalar {
    Undef,
    Int(IV),
    Uint(UV),
    Num(NV),
    Text { bytes: Vec<u8>, utf8: bool },
    Bool(bool),
    Ref(usize),
}

/// What an object holds.
pub enum Body {
    Scalar(Scalar),
    Array(Vec<Option<usize>>),
    Hash { keys: Vec<Vec<u8>>, vals: Vec<usize>, cursor: usize },
}

/// One object of the heap.
pub struct Cell {
    refcnt: usize,
    held: usize,
    body: Body,
    package: Option<String>,
}

/// The local picture that a call keeps of its stack frame.
pub struct Stack {
    items: usize,
    sp: usize,
    cap: usize,
}

/// The interpreter.
pub struct Interpreter {
    heap: Vec<Cell>,
    args: Vec<usize>,
    rets: Vec<usize>,
    sp: usize,
    putbacks: usize,
    raised: Option<usize>,
    subs: Vec<(String, usize)>,
    host_subs: Vec<(String, Option<String>)>,
    names: Vec<String>,
    named: Vec<usize>,
}

impl View for Scalar {
    type V = Value;

    open spec fn view(&self) -> Value {
        match *self {
            Scalar::Undef => Value::Undef,
            Scalar::Int(i) => Value::Int(i),
            Scalar::Uint(u) => Value::Uint(u),
            Scalar::Num(n) => Value::Num(n),
            Scalar::Text { bytes, utf8 } => Value::Text { bytes: bytes@, utf8 },
            Scalar::Bool(b) => Value::Bool(b),
            Scalar::Ref(t) => Value::Ref(t),
        }
    }
}

impl View for Body {
    type V = Thing;

    open spec fn view(&self) -> Thing {
        match *self {
            Body::Scalar(s) => Thing::Scalar(s@),
            Body::Array(slots) => Thing::Array(slots@),
            Body::Hash { keys, vals, cursor } => Thing::Hash {
                keys: keys@.map_values(|k: Vec<u8>| k@),
                vals: vals@,
                cursor: cursor as nat,
            },
        }
    }
}

impl View for Cell {
    type V = Object;

    closed spec fn view(&self) -> Object {
        Object {
            refcnt: self.refcnt as nat,
            held: self.held as nat,
            thing: self.body@,
            package: match self.package {
                Some(p) => Some(p@),
                None => None,
            },
        }
    }
}

impl View for Stack {
    type V = (nat, nat, nat);

    closed spec fn view(&self) -> (nat, nat, nat) {
        (self.items as nat, self.sp as nat, self.cap as nat)
    }
}

impl Stack {
    /// The number of arguments that the frame was entered with.
    pub open spec fn items(self) -> nat {
        self@.0
    }

    /// The number of results pushed so far.
    pub open spec fn sp(self) -> nat {
        self@.1
    }

    /// The number of results that the frame has room for.
    pub open spec fn cap(self) -> nat {
        self@.2
    }
}

impl View for Interpreter {
    type V = World;

    closed spec fn view(&self) -> World {
        World {
            objs: self.heap@.map_values(|c: Cell| c@),
            args: self.args@,
            rets: self.rets@,
            sp: self.sp as nat,
            putbacks: self.putbacks as nat,
            raised: self.raised,
            subs: self.subs@.map_values(|s: (String, usize)| (s.0@, s.1)),
            host_subs: self.host_subs@.map_values(
                |s: (String, Option<String>)|
                    (
                        s.0@,
                        match s.1 {
                            Some(m) => Some(m@),
                            None => None,
                        },
                    ),
            ),
            names: self.names@.map_values(|n: String| n@),
            named: self.named@,
        }
    }
}

impl Interpreter {
    /// An interpreter with an empty heap and an empty stack.
    pub fn new() -> (perl: Interpreter)
        ensures
            perl@ == World::empty(),
            perl@.wf(),
    {
        let perl = Interpreter {
            heap: Vec::new(),
            args: Vec::new(),
            rets: Vec::new(),
            sp: 0,
            putbacks: 0,
            raised: None,
            subs: Vec::new(),
            host_subs: Vec::new(),
            names: Vec::new(),
            named: Vec::new(),
        };
        proof {
            assert(perl@.objs =~= Seq::<Object>::empty());
            assert(perl@.subs =~= Seq::<(Seq<char>, usize)>::empty());
            assert(perl@.names =~= Seq::<Seq<char>>::empty());
            assert(perl@.host_subs =~= Seq::<(Seq<char>, Option<Seq<char>>)>::empty());
            model::lemma_empty_wf();
        }
        perl
    }
}

} // verus!
