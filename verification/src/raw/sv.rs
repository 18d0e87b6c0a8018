//! The host's reference-count and scalar primitives.

use vstd::prelude::*;
use vstd::string::*;
use super::model::{
    lemma_inbound_with_new, lemma_inbound_with_object, thing_count, thing_wf, Object, Thing,
    Value, World,
};
use super::{Body, Cell, Interpreter, Scalar, IV, NV, UV};

verus! {

impl Interpreter {
    /// The reference count of the object at `p`.
    pub fn sv_refcnt(&self, p: usize) -> (n: usize)
        requires
            self@.valid(p),
        ensures
            n == self@.refcnt(p),
    {
        self.heap[p].refcnt
    }

    /// How many units of the count of the object at `p` handles hold.
    pub fn sv_held(&self, p: usize) -> (n: usize)
        requires
            self@.valid(p),
        ensures
            n == self@.held(p),
    {
        self.heap[p].held
    }

    /// The number of objects that were ever allocated.
    pub fn heap_len(&self) -> (n: usize)
        ensures
            n == self@.objs.len(),
    {
        self.heap.len()
    }

    /// Adds one unit, which nobody accounts for yet, to the count of the
    /// object at `p`.
    pub fn sv_refcnt_inc(&mut self, p: usize)
        requires
            old(self)@.wf(),
            old(self)@.live(p),
            old(self)@.refcnt(p) < usize::MAX,
        ensures
            final(self)@ == old(self)@.with_refcnt(p, 1),
            final(self)@.wf(),
            old(self)@.loose_moved(final(self)@, p, 1),
    {
        self.heap[p].refcnt = self.heap[p].refcnt + 1;
        proof {
            let w = old(self)@;
            let o = Object { refcnt: (w.objs[p as int].refcnt + 1) as nat, ..w.objs[p as int] };
            assert(self@.objs =~= w.objs.update(p as int, o));
            assert(w.loose(p) >= 0);
            lemma_same_thing(w, p, o);
        }
    }

    /// Takes one unit that nobody accounts for from the count of the
    /// object at `p`. At zero the object is the host's to reclaim.
    pub fn sv_refcnt_dec(&mut self, p: usize)
        requires
            old(self)@.wf(),
            old(self)@.valid(p),
            old(self)@.loose(p) >= 1,
        ensures
            final(self)@ == old(self)@.with_refcnt(p, -1),
            final(self)@.wf(),
            old(self)@.loose_moved(final(self)@, p, -1),
    {
        self.heap[p].refcnt = self.heap[p].refcnt - 1;
        proof {
            let w = old(self)@;
            let o = Object { refcnt: (w.objs[p as int].refcnt - 1) as nat, ..w.objs[p as int] };
            assert(self@.objs =~= w.objs.update(p as int, o));
            assert(w.loose(p) >= 0);
            lemma_same_thing(w, p, o);
        }
    }

    /// Records that a handle now accounts for one unit of the object at
    /// `p` that nobody accounted for.
    pub fn adopt(&mut self, p: usize)
        requires
            old(self)@.wf(),
            old(self)@.valid(p),
            old(self)@.loose(p) >= 1,
        ensures
            final(self)@ == old(self)@.with_held(p, 1),
            final(self)@.wf(),
            old(self)@.loose_moved(final(self)@, p, -1),
    {
        assert(old(self)@.loose(p) >= 1);
        self.heap[p].held = self.heap[p].held + 1;
        proof {
            let w = old(self)@;
            let o = Object { held: (w.objs[p as int].held + 1) as nat, ..w.objs[p as int] };
            assert(self@.objs =~= w.objs.update(p as int, o));
            assert(w.loose(p) >= 0);
            lemma_same_thing(w, p, o);
        }
    }

    /// Records that a handle no longer accounts for its unit of the
    /// object at `p`.
    pub fn disown(&mut self, p: usize)
        requires
            old(self)@.wf(),
            old(self)@.valid(p),
            old(self)@.held(p) >= 1,
        ensures
            final(self)@ == old(self)@.with_held(p, -1),
            final(self)@.wf(),
            old(self)@.loose_moved(final(self)@, p, 1),
    {
        self.heap[p].held = self.heap[p].held - 1;
        proof {
            let w = old(self)@;
            let o = Object { held: (w.objs[p as int].held - 1) as nat, ..w.objs[p as int] };
            assert(self@.objs =~= w.objs.update(p as int, o));
            assert(w.loose(p) >= 0);
            lemma_same_thing(w, p, o);
        }
    }

    /// Allocates an object that refers to nothing.
    pub(super) fn alloc_plain(&mut self, body: Body) -> (p: usize)
        requires
            old(self)@.wf(),
            old(self)@.objs.len() < usize::MAX,
            thing_wf(body@),
            forall|q: usize| thing_count(body@, q) == 0,
        ensures
            p == old(self)@.objs.len(),
            final(self)@ == old(self)@.with_new(body@),
            final(self)@.wf(),
            old(self)@.loose_moved(final(self)@, p, 1),
    {
        let p = self.heap.len();
        let cell = Cell { refcnt: 1, held: 0, body, package: None };
        self.heap.push(cell);
        proof {
            let w = old(self)@;
            assert(self@.objs =~= w.with_new(body@).objs);
            super::model::lemma_with_new(w, body@);
        }
        p
    }

    /// A new scalar that holds the signed integer `iv`.
    pub fn new_sv_iv(&mut self, iv: IV) -> (p: usize)
        requires
            old(self)@.wf(),
            old(self)@.objs.len() < usize::MAX,
        ensures
            p == old(self)@.objs.len(),
            final(self)@ == old(self)@.with_new(Thing::Scalar(Value::Int(iv))),
            final(self)@.wf(),
            old(self)@.loose_moved(final(self)@, p, 1),
    {
        self.alloc_plain(Body::Scalar(Scalar::Int(iv)))
    }

    /// A new scalar that holds the unsigned integer `uv`.
    pub fn new_sv_uv(&mut self, uv: UV) -> (p: usize)
        requires
            old(self)@.wf(),
            old(self)@.objs.len() < usize::MAX,
        ensures
            p == old(self)@.objs.len(),
            final(self)@ == old(self)@.with_new(Thing::Scalar(Value::Uint(uv))),
            final(self)@.wf(),
            old(self)@.loose_moved(final(self)@, p, 1),
    {
        self.alloc_plain(Body::Scalar(Scalar::Uint(uv)))
    }

    /// A new scalar that holds the floating-point number `nv`.
    pub fn new_sv_nv(&mut self, nv: NV) -> (p: usize)
        requires
            old(self)@.wf(),
            old(self)@.objs.len() < usize::MAX,
        ensures
            p == old(self)@.objs.len(),
            final(self)@ == old(self)@.with_new(Thing::Scalar(Value::Num(nv))),
            final(self)@.wf(),
            old(self)@.loose_moved(final(self)@, p, 1),
    {
        self.alloc_plain(Body::Scalar(Scalar::Num(nv)))
    }

    /// A new scalar that holds a copy of `bytes`, marked as UTF-8 encoded
    /// text if `utf8` is set.
    pub fn new_sv_pvn(&mut self, bytes: &[u8], utf8: bool) -> (p: usize)
        requires
            old(self)@.wf(),
            old(self)@.objs.len() < usize::MAX,
        ensures
            p == old(self)@.objs.len(),
            final(self)@ == old(self)@.with_new(Thing::Scalar(Value::Text { bytes: bytes@, utf8 })),
            final(self)@.wf(),
            old(self)@.loose_moved(final(self)@, p, 1),
    {
        let copy = vstd::slice::slice_to_vec(bytes);
        self.alloc_plain(Body::Scalar(Scalar::Text { bytes: copy, utf8 }))
    }

    /// A new scalar that holds the host's true value.
    pub fn sv_yes(&mut self) -> (p: usize)
        requires
            old(self)@.wf(),
            old(self)@.objs.len() < usize::MAX,
        ensures
            p == old(self)@.objs.len(),
            final(self)@ == old(self)@.with_new(Thing::Scalar(Value::Bool(true))),
            final(self)@.wf(),
            old(self)@.loose_moved(final(self)@, p, 1),
    {
        self.alloc_plain(Body::Scalar(Scalar::Bool(true)))
    }

    /// A new scalar that holds the host's false value.
    pub fn sv_no(&mut self) -> (p: usize)
        requires
            old(self)@.wf(),
            old(self)@.objs.len() < usize::MAX,
        ensures
            p == old(self)@.objs.len(),
            final(self)@ == old(self)@.with_new(Thing::Scalar(Value::Bool(false))),
            final(self)@.wf(),
            old(self)@.loose_moved(final(self)@, p, 1),
    {
        self.alloc_plain(Body::Scalar(Scalar::Bool(false)))
    }

    /// A new scalar that holds the undefined value.
    pub fn sv_undef(&mut self) -> (p: usize)
        requires
            old(self)@.wf(),
            old(self)@.objs.len() < usize::MAX,
        ensures
            p == old(self)@.objs.len(),
            final(self)@ == old(self)@.with_new(Thing::Scalar(Value::Undef)),
            final(self)@.wf(),
            old(self)@.loose_moved(final(self)@, p, 1),
    {
        self.alloc_plain(Body::Scalar(Scalar::Undef))
    }

    /// A new reference to the object at `target`. The reference takes
    /// over one unit of the target that nobody accounted for.
    pub fn new_rv_noinc(&mut self, target: usize) -> (p: usize)
        requires
            old(self)@.wf(),
            old(self)@.objs.len() < usize::MAX,
            old(self)@.valid(target),
            old(self)@.loose(target) >= 1,
        ensures
            p == old(self)@.objs.len(),
            final(self)@ == old(self)@.with_new(Thing::Scalar(Value::Ref(target))),
            final(self)@.wf(),
            forall|q: usize| #[trigger]
                final(self)@.loose(q) == old(self)@.loose(q) + if q == p {
                    1int
                } else if q == target {
                    -1int
                } else {
                    0int
                },
    {
        let p = self.heap.len();
        let cell = Cell {
            refcnt: 1,
            held: 0,
            body: Body::Scalar(Scalar::Ref(target)),
            package: None,
        };
        self.heap.push(cell);
        proof {
            let w = old(self)@;
            let t = Thing::Scalar(Value::Ref(target));
            let n = w.with_new(t);
            assert(self@.objs =~= n.objs);
            assert forall|q: usize| #[trigger] n.inbound(q) == w.inbound(q) + thing_count(t, q) by {
                lemma_inbound_with_new(w, t, q);
            }
            assert forall|q: usize| #[trigger]
                n.loose(q) == w.loose(q) + if q == p {
                    1int
                } else if q == target {
                    -1int
                } else {
                    0int
                } by {
                assert(n.inbound(q) == w.inbound(q) + thing_count(t, q));
                assert(w.inbound(p) == 0);
            }
            assert forall|q: usize| q < n.objs.len() implies #[trigger] n.loose(q) >= 0 by {
                if q < w.objs.len() {
                    assert(w.loose(q) >= 0);
                }
            }
            assert forall|q: usize| q >= n.objs.len() implies #[trigger] n.inbound(q) == 0 by {
                assert(w.inbound(q) == 0);
                assert(n.inbound(q) == w.inbound(q) + thing_count(t, q));
            }
        }
        p
    }

    /// The host's number for the kind of the object at `p`.
    pub fn sv_type(&self, p: usize) -> (code: u32)
        requires
            self@.valid(p),
        ensures
            code == self@.objs[p as int].thing.type_code(),
    {
        match &self.heap[p].body {
            Body::Scalar(Scalar::Undef) => 0,
            Body::Scalar(Scalar::Int(_)) => 1,
            Body::Scalar(Scalar::Uint(_)) => 1,
            Body::Scalar(Scalar::Ref(_)) => 1,
            Body::Scalar(Scalar::Num(_)) => 2,
            Body::Scalar(Scalar::Text { .. }) => 3,
            Body::Scalar(Scalar::Bool(_)) => 6,
            Body::Array(_) => 11,
            Body::Hash { .. } => 12,
        }
    }

    /// Whether the object at `p` is a defined scalar.
    pub fn sv_ok(&self, p: usize) -> (b: bool)
        requires
            self@.valid(p),
        ensures
            b == self@.value(p).ok(),
    {
        match &self.heap[p].body {
            Body::Scalar(Scalar::Undef) => false,
            Body::Scalar(_) => true,
            _ => false,
        }
    }

    /// Whether the object at `p` reads as a signed integer.
    pub fn sv_iok(&self, p: usize) -> (b: bool)
        requires
            self@.valid(p),
        ensures
            b == self@.value(p).iok(),
    {
        match &self.heap[p].body {
            Body::Scalar(Scalar::Int(_)) => true,
            Body::Scalar(Scalar::Bool(_)) => true,
            _ => false,
        }
    }

    /// Whether the object at `p` is an unsigned integer.
    pub fn sv_uok(&self, p: usize) -> (b: bool)
        requires
            self@.valid(p),
        ensures
            b == self@.value(p).uok(),
    {
        match &self.heap[p].body {
            Body::Scalar(Scalar::Uint(_)) => true,
            _ => false,
        }
    }

    /// Whether the object at `p` reads as a floating-point number.
    pub fn sv_nok(&self, p: usize) -> (b: bool)
        requires
            self@.valid(p),
        ensures
            b == self@.value(p).nok(),
    {
        match &self.heap[p].body {
            Body::Scalar(Scalar::Num(_)) => true,
            Body::Scalar(Scalar::Bool(_)) => true,
            _ => false,
        }
    }

    /// Whether the object at `p` reads as a string.
    pub fn sv_pok(&self, p: usize) -> (b: bool)
        requires
            self@.valid(p),
        ensures
            b == self@.value(p).pok(),
    {
        match &self.heap[p].body {
            Body::Scalar(Scalar::Text { .. }) => true,
            Body::Scalar(Scalar::Bool(_)) => true,
            _ => false,
        }
    }

    /// Whether the object at `p` is a reference.
    pub fn sv_rok(&self, p: usize) -> (b: bool)
        requires
            self@.valid(p),
        ensures
            b == self@.value(p).rok(),
    {
        match &self.heap[p].body {
            Body::Scalar(Scalar::Ref(_)) => true,
            _ => false,
        }
    }

    /// Whether the object at `p` is a string marked as UTF-8 encoded text.
    pub fn sv_utf8(&self, p: usize) -> (b: bool)
        requires
            self@.valid(p),
        ensures
            b == self@.value(p).utf8(),
    {
        match &self.heap[p].body {
            Body::Scalar(Scalar::Text { bytes: _, utf8 }) => *utf8,
            _ => false,
        }
    }

    /// The signed integer that the scalar at `p` reads as; 0 where it
    /// does not read as one.
    pub fn sv_iv(&self, p: usize) -> (iv: IV)
        requires
            self@.valid(p),
        ensures
            iv == self@.value(p).iv(),
    {
        match &self.heap[p].body {
            Body::Scalar(Scalar::Int(i)) => *i,
            Body::Scalar(Scalar::Bool(true)) => 1,
            _ => 0,
        }
    }

    /// The unsigned integer that the scalar at `p` is; 0 where it is none.
    pub fn sv_uv(&self, p: usize) -> (uv: UV)
        requires
            self@.valid(p),
        ensures
            uv == self@.value(p).uv(),
    {
        match &self.heap[p].body {
            Body::Scalar(Scalar::Uint(u)) => *u,
            _ => 0,
        }
    }

    /// The floating-point number that the scalar at `p` reads as; zero
    /// where it does not read as one.
    pub fn sv_nv(&self, p: usize) -> (nv: NV)
        requires
            self@.valid(p),
        ensures
            nv == self@.value(p).nv(),
    {
        match &self.heap[p].body {
            Body::Scalar(Scalar::Num(n)) => *n,
            Body::Scalar(Scalar::Bool(true)) => NV { bits: 0x3ff0_0000_0000_0000 },
            _ => NV { bits: 0 },
        }
    }

    /// A copy of the bytes of the string that the scalar at `p` reads as;
    /// the empty string where it does not read as one.
    pub fn sv_pv(&self, p: usize) -> (bytes: Vec<u8>)
        requires
            self@.valid(p),
        ensures
            bytes@ == self@.value(p).pv(),
    {
        match &self.heap[p].body {
            Body::Scalar(Scalar::Text { bytes, utf8: _ }) => bytes.clone(),
            Body::Scalar(Scalar::Bool(true)) => {
                let mut one: Vec<u8> = Vec::new();
                one.push(0x31u8);
                assert(one@ =~= seq![0x31u8]);
                one
            },
            _ => Vec::new(),
        }
    }

    /// The bytes of the string that the scalar at `p` reads as, where
    /// they lie; the empty string where it does not read as one.
    pub fn sv_pv_slice(&self, p: usize) -> (bytes: &[u8])
        requires
            self@.valid(p),
        ensures
            bytes@ == self@.value(p).pv(),
    {
        match &self.heap[p].body {
            Body::Scalar(Scalar::Text { bytes, utf8: _ }) => bytes.as_slice(),
            Body::Scalar(Scalar::Bool(true)) => {
                let one: &[u8; 1] = &[0x31u8];
                assert(one@ =~= seq![0x31u8]);
                one
            },
            _ => {
                let none: &[u8; 0] = &[];
                assert(none@ =~= Seq::<u8>::empty());
                none
            },
        }
    }

    /// The address that the reference at `p` refers to.
    pub fn sv_rv(&self, p: usize) -> (target: usize)
        requires
            self@.valid(p),
            self@.value(p).rok(),
        ensures
            target == self@.value(p).rv(),
    {
        match &self.heap[p].body {
            Body::Scalar(Scalar::Ref(t)) => *t,
            _ => 0,
        }
    }

    /// Whether the object at `p` counts as true.
    pub fn sv_true(&self, p: usize) -> (b: bool)
        requires
            self@.valid(p),
        ensures
            b == self@.value(p).truth(),
    {
        match &self.heap[p].body {
            Body::Scalar(Scalar::Undef) => false,
            Body::Scalar(Scalar::Int(i)) => *i != 0,
            Body::Scalar(Scalar::Uint(u)) => *u != 0,
            Body::Scalar(Scalar::Num(n)) => n.bits != 0 && n.bits != 0x8000_0000_0000_0000,
            Body::Scalar(Scalar::Text { bytes, utf8: _ }) => !(bytes.len() == 0 || (bytes.len()
                == 1 && bytes[0] == 0x30u8)),
            Body::Scalar(Scalar::Bool(b)) => *b,
            Body::Scalar(Scalar::Ref(_)) => true,
            _ => false,
        }
    }

    /// Blesses the object that the reference at `rv` refers to into `package`.
    pub fn sv_bless(&mut self, rv: usize, package: &str)
        requires
            old(self)@.wf(),
            old(self)@.valid(rv),
            old(self)@.value(rv).rok(),
        ensures
            final(self)@ == old(self)@.with_object(
                old(self)@.value(rv).rv(),
                Object {
                    package: Some(package@),
                    ..old(self)@.objs[old(self)@.value(rv).rv() as int]
                },
            ),
            final(self)@.wf(),
            old(self)@.loose_kept(final(self)@),
    {
        let target = self.sv_rv(rv);
        proof {
            super::model::lemma_referenced_is_live(self@, rv, target);
        }
        self.heap[target].package = Some(String::from_str(package));
        proof {
            let w = old(self)@;
            let o = Object { package: Some(package@), ..w.objs[target as int] };
            assert(self@.objs =~= w.objs.update(target as int, o));
            assert(w.loose(target) >= 0);
            lemma_same_thing(w, target, o);
        }
    }

    /// The package that the object at `p` is blessed into, if any.
    pub fn sv_package(&self, p: usize) -> (package: Option<String>)
        requires
            self@.valid(p),
        ensures
            package is Some == self@.objs[p as int].package is Some,
            package is Some ==> package->Some_0@ == self@.objs[p as int].package->Some_0,
    {
        match &self.heap[p].package {
            Some(name) => Some(name.clone()),
            None => None,
        }
    }
}

/// Replacing an object by one with the same contents keeps what the host
/// refers to, and keeps the world well formed if the loose units of the
/// object stay at zero or above.
pub proof fn lemma_same_thing(w: World, p: usize, o: Object)
    requires
        w.wf(),
        p < w.objs.len(),
        o.thing == w.objs[p as int].thing,
        o.refcnt - o.held - w.inbound(p) >= 0,
    ensures
        w.with_object(p, o).wf(),
        w.loose_moved(
            w.with_object(p, o),
            p,
            (o.refcnt - o.held) - (w.objs[p as int].refcnt - w.objs[p as int].held),
        ),
{
    let n = w.with_object(p, o);
    assert forall|q: usize| #[trigger] n.inbound(q) == w.inbound(q) by {
        lemma_inbound_with_object(w, p, o, q);
    }
    assert forall|q: usize| #[trigger]
        n.loose(q) == w.loose(q) + if q == p {
            (o.refcnt - o.held) - (w.objs[p as int].refcnt - w.objs[p as int].held)
        } else {
            0
        } by {
        assert(n.inbound(q) == w.inbound(q));
    }
    assert forall|q: usize| q < n.objs.len() implies #[trigger] n.loose(q) >= 0 by {
        assert(w.loose(q) >= 0);
    }
    assert forall|q: usize| q >= n.objs.len() implies #[trigger] n.inbound(q) == 0 by {
        assert(w.inbound(q) == 0);
    }
    assert forall|i: int| 0 <= i < n.objs.len() implies thing_wf(#[trigger] n.objs[i].thing) by {
        assert(thing_wf(w.objs[i].thing));
    }
}

} // verus!
