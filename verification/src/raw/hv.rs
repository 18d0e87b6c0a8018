//! The host's hash primitives.

use vstd::prelude::*;
use super::model::{
    distinct, lemma_distinct_index, lemma_invalid_unreferenced, lemma_occurrences_member,
    lemma_occurrences_push, lemma_occurrences_remove, lemma_occurrences_some,
    lemma_occurrences_update, lemma_referenced_is_live, lemma_swap_thing, occurrences,
    thing_count, thing_wf, Thing,
};
use super::{Body, Interpreter};

verus! {

/// Whether two byte strings are equal.
pub fn bytes_eq(a: &[u8], b: &[u8]) -> (r: bool)
    ensures
        r == (a@ == b@),
{
    if a.len() != b.len() {
        return false;
    }
    let n = a.len();
    let mut i: usize = 0;
    while i < n
        invariant
            n == a@.len(),
            n == b@.len(),
            i <= n,
            a@.take(i as int) == b@.take(i as int),
        decreases n - i,
    {
        if a[i] != b[i] {
            assert(a@[i as int] != b@[i as int]);
            return false;
        }
        assert(a@.take(i + 1) =~= a@.take(i as int).push(a@[i as int]));
        assert(b@.take(i + 1) =~= b@.take(i as int).push(b@[i as int]));
        i += 1;
    }
    assert(a@ =~= a@.take(n as int));
    assert(b@ =~= b@.take(n as int));
    true
}

/// The views of the keys of a hash.
pub open spec fn key_views(keys: Seq<Vec<u8>>) -> Seq<Seq<u8>> {
    keys.map_values(|k: Vec<u8>| k@)
}

fn find_key(keys: &Vec<Vec<u8>>, key: &[u8]) -> (at: Option<usize>)
    requires
        distinct(key_views(keys@)),
    ensures
        at is Some == key_views(keys@).contains(key@),
        at is Some ==> at->Some_0 == key_views(keys@).index_of(key@),
        at is Some ==> at->Some_0 < keys@.len(),
{
    let n = keys.len();
    let mut i: usize = 0;
    while i < n
        invariant
            n == keys@.len(),
            i <= n,
            distinct(key_views(keys@)),
            forall|j: int| 0 <= j < i ==> key_views(keys@)[j] != key@,
        decreases n - i,
    {
        if bytes_eq(keys[i].as_slice(), key) {
            proof {
                assert(key_views(keys@)[i as int] == key@);
                lemma_distinct_index(key_views(keys@), i as int);
            }
            return Some(i);
        }
        i += 1;
    }
    None
}

impl Interpreter {
    /// A new, empty hash.
    pub fn new_hv(&mut self) -> (p: usize)
        requires
            old(self)@.wf(),
            old(self)@.objs.len() < usize::MAX,
        ensures
            p == old(self)@.objs.len(),
            final(self)@ == old(self)@.with_new(
                Thing::Hash { keys: Seq::empty(), vals: Seq::empty(), cursor: 0 },
            ),
            final(self)@.wf(),
            old(self)@.loose_moved(final(self)@, p, 1),
    {
        let keys: Vec<Vec<u8>> = Vec::new();
        let vals: Vec<usize> = Vec::new();
        let body = Body::Hash { keys, vals, cursor: 0 };
        proof {
            assert(key_views(keys@) =~= Seq::<Seq<u8>>::empty());
            assert(body@ == Thing::Hash { keys: Seq::empty(), vals: Seq::empty(), cursor: 0 });
            assert forall|q: usize| thing_count(body@, q) == 0 by {}
        }
        self.alloc_plain(body)
    }

    /// The number of keys of the hash at `hv`.
    pub fn hv_keys(&self, hv: usize) -> (n: usize)
        requires
            self@.wf(),
            self@.is_hash(hv),
        ensures
            n == self@.keys(hv).len(),
    {
        match &self.heap[hv].body {
            Body::Hash { keys, vals: _, cursor: _ } => keys.len(),
            _ => 0,
        }
    }

    /// The value under `key` in the hash at `hv`.
    pub fn hv_fetch(&self, hv: usize, key: &[u8]) -> (val: Option<usize>)
        requires
            self@.wf(),
            self@.is_hash(hv),
        ensures
            val == self@.hv_value(hv, key@),
            val is Some ==> self@.live(val->Some_0),
    {
        assert(thing_wf(self@.objs[hv as int].thing));
        match &self.heap[hv].body {
            Body::Hash { keys, vals, cursor: _ } => {
                match find_key(keys, key) {
                    Some(i) => {
                        proof {
                            lemma_occurrences_member(vals@, i as int);
                            lemma_referenced_is_live(self@, hv, vals@[i as int]);
                        }
                        Some(vals[i])
                    },
                    None => None,
                }
            },
            _ => None,
        }
    }

    /// Whether the hash at `hv` has `key`.
    pub fn hv_exists(&self, hv: usize, key: &[u8]) -> (b: bool)
        requires
            self@.wf(),
            self@.is_hash(hv),
        ensures
            b == self@.keys(hv).contains(key@),
    {
        self.hv_fetch(hv, key).is_some()
    }

    /// Stores `sv` under `key` in the hash at `hv`, which takes over one
    /// unit of `sv` that nobody accounted for; the value that stood under
    /// the key, if any, loses its unit. This host never refuses.
    pub fn hv_store(&mut self, hv: usize, key: &[u8], sv: usize) -> (stored: bool)
        requires
            old(self)@.wf(),
            old(self)@.is_hash(hv),
            old(self)@.valid(sv),
            old(self)@.loose(sv) >= 1,
        ensures
            stored,
            final(self)@ == old(self)@.hv_stored(hv, key@, sv),
            final(self)@.wf(),
            old(self)@.loose_moved(final(self)@, sv, -1),
    {
        assert(thing_wf(old(self)@.objs[hv as int].thing));
        let ghost w = old(self)@;
        let ghost ks = w.keys(hv);
        let ghost vs = w.vals(hv);
        let ghost cur = w.cursor(hv);
        let was: Option<usize> = match &mut self.heap[hv].body {
            Body::Hash { keys, vals, cursor: _ } => {
                match find_key(keys, key) {
                    Some(i) => {
                        let was = vals[i];
                        vals[i] = sv;
                        Some(was)
                    },
                    None => {
                        keys.push(vstd::slice::slice_to_vec(key));
                        vals.push(sv);
                        assert(key_views(keys@) =~= ks.push(key@));
                        None
                    },
                }
            },
            _ => None,
        };
        proof {
            let (ks2, vs2) = if ks.contains(key@) {
                (ks, vs.update(ks.index_of(key@), sv))
            } else {
                (ks.push(key@), vs.push(sv))
            };
            let t = Thing::Hash { keys: ks2, vals: vs2, cursor: cur };
            let w1 = w.with_thing(hv, t);
            assert(self@.objs =~= w1.objs);
            if ks.contains(key@) {
                let i = ks.index_of(key@);
                assert forall|q: usize|
                    #![trigger occurrences(vs2, q)]
                    occurrences(vs2, q) + if vs[i] == q {
                        1nat
                    } else {
                        0nat
                    } == occurrences(vs, q) + if sv == q {
                        1nat
                    } else {
                        0nat
                    } by {
                    lemma_occurrences_update(vs, i, sv, q);
                }
                lemma_occurrences_member(vs, i);
                lemma_referenced_is_live(w, hv, vs[i]);
            } else {
                assert forall|q: usize|
                    #![trigger occurrences(vs2, q)]
                    occurrences(vs2, q) == occurrences(vs, q) + if sv == q {
                        1nat
                    } else {
                        0nat
                    } by {
                    lemma_occurrences_push(vs, sv, q);
                }
                assert forall|i: int, j: int| 0 <= i < j < ks2.len() implies ks2[i] != ks2[j] by {
                    if j == ks.len() {
                        assert(ks[i] != key@);
                    }
                }
            }
            assert forall|q: usize| q >= w.objs.len() implies thing_count(t, q) == 0 by {
                lemma_invalid_unreferenced(w, hv, q);
            }
            assert forall|q: usize| q < w.objs.len() implies w.loose(q) + thing_count(
                w.objs[hv as int].thing,
                q,
            ) - thing_count(t, q) >= 0 by {
                assert(w.loose(q) >= 0);
            }
            lemma_swap_thing(w, hv, t);
        }
        match was {
            Some(e) => {
                proof {
                    assert(self@.loose(e) >= 1);
                }
                self.sv_refcnt_dec(e);
            },
            None => {},
        }
        true
    }

    /// Takes `key` out of the hash at `hv` and hands out the value that
    /// stood under it, together with its unit, which nobody accounts for
    /// from then on.
    pub fn hv_delete(&mut self, hv: usize, key: &[u8]) -> (was: Option<usize>)
        requires
            old(self)@.wf(),
            old(self)@.is_hash(hv),
        ensures
            was == old(self)@.hv_value(hv, key@),
            final(self)@ == old(self)@.hv_deleted(hv, key@),
            final(self)@.wf(),
            was is Some ==> old(self)@.loose_moved(final(self)@, was->Some_0, 1),
            was is None ==> old(self)@.loose_kept(final(self)@),
            was is Some ==> old(self)@.live(was->Some_0),
    {
        assert(thing_wf(old(self)@.objs[hv as int].thing));
        let ghost w = old(self)@;
        let ghost ks = w.keys(hv);
        let ghost vs = w.vals(hv);
        let ghost cur = w.cursor(hv);
        let was: Option<usize> = match &mut self.heap[hv].body {
            Body::Hash { keys, vals, cursor } => {
                match find_key(keys, key) {
                    Some(i) => {
                        keys.remove(i);
                        let was = vals.remove(i);
                        if i < *cursor {
                            *cursor = *cursor - 1;
                        }
                        assert(key_views(keys@) =~= ks.remove(i as int));
                        Some(was)
                    },
                    None => None,
                }
            },
            _ => None,
        };
        proof {
            if ks.contains(key@) {
                let i = ks.index_of(key@);
                let ks2 = ks.remove(i);
                let vs2 = vs.remove(i);
                let cur2 = if i < cur {
                    (cur - 1) as nat
                } else {
                    cur
                };
                let t = Thing::Hash { keys: ks2, vals: vs2, cursor: cur2 };
                let w1 = w.with_thing(hv, t);
                assert(self@.objs =~= w1.objs);
                assert forall|q: usize|
                    #![trigger occurrences(vs2, q)]
                    occurrences(vs2, q) + if vs[i] == q {
                        1nat
                    } else {
                        0nat
                    } == occurrences(vs, q) by {
                    lemma_occurrences_remove(vs, i, q);
                }
                assert forall|a: int, b: int| 0 <= a < b < ks2.len() implies ks2[a] != ks2[b] by {
                    let a0 = if a < i {
                        a
                    } else {
                        a + 1
                    };
                    let b0 = if b < i {
                        b
                    } else {
                        b + 1
                    };
                    assert(ks[a0] != ks[b0]);
                }
                assert forall|q: usize| q >= w.objs.len() implies thing_count(t, q) == 0 by {
                    lemma_invalid_unreferenced(w, hv, q);
                }
                assert forall|q: usize| q < w.objs.len() implies w.loose(q) + thing_count(
                    w.objs[hv as int].thing,
                    q,
                ) - thing_count(t, q) >= 0 by {
                    assert(w.loose(q) >= 0);
                }
                lemma_swap_thing(w, hv, t);
                lemma_occurrences_member(vs, i);
                lemma_referenced_is_live(w, hv, vs[i]);
            } else {
                assert(self@.objs =~= w.objs);
            }
        }
        was
    }

    /// Empties the hash at `hv`; each value loses its unit.
    pub fn hv_clear(&mut self, hv: usize)
        requires
            old(self)@.wf(),
            old(self)@.is_hash(hv),
        ensures
            final(self)@ == old(self)@.hv_cleared(hv),
            final(self)@.wf(),
            old(self)@.loose_kept(final(self)@),
    {
        assert(thing_wf(old(self)@.objs[hv as int].thing));
        let ghost w = old(self)@;
        let ghost vs = w.vals(hv);
        let mut taken: Vec<usize> = Vec::new();
        match &mut self.heap[hv].body {
            Body::Hash { keys, vals, cursor } => {
                keys.clear();
                std::mem::swap(vals, &mut taken);
                *cursor = 0;
                assert(key_views(keys@) =~= Seq::<Seq<u8>>::empty());
            },
            _ => {},
        }
        let mut slots: Vec<Option<usize>> = Vec::new();
        let n = taken.len();
        let mut i: usize = 0;
        while i < n
            invariant
                n == taken@.len(),
                i <= n,
                slots@ == taken@.take(i as int).map_values(|v: usize| Some(v)),
            decreases n - i,
        {
            slots.push(Some(taken[i]));
            assert(slots@ =~= taken@.take(i + 1).map_values(|v: usize| Some(v)));
            i += 1;
        }
        proof {
            assert(taken@.take(n as int) =~= taken@);
            assert(taken@ == vs);
            let t = Thing::Hash { keys: Seq::empty(), vals: Seq::empty(), cursor: 0 };
            let w1 = w.with_thing(hv, t);
            assert(self@.objs =~= w1.objs);
            assert forall|q: usize| thing_count(t, q) == 0 by {}
            assert forall|q: usize| q >= w.objs.len() implies occurrences(vs, q) == 0 by {
                lemma_invalid_unreferenced(w, hv, q);
            }
            assert forall|q: usize| q < w.objs.len() implies w.loose(q) + thing_count(
                w.objs[hv as int].thing,
                q,
            ) - thing_count(t, q) >= 0 by {
                assert(w.loose(q) >= 0);
            }
            lemma_swap_thing(w, hv, t);
            assert forall|q: usize|
                #![trigger occurrences(slots@, Some(q))]
                occurrences(slots@, Some(q)) == occurrences(vs, q) by {
                lemma_occurrences_some(vs, q);
            }
            assert forall|q: usize| #[trigger] self@.loose(q) == w.loose(q) + occurrences(vs, q) by {}
        }
        self.release(&slots);
    }

    /// Starts a walk of the hash at `hv` at its first key, and says how
    /// many keys there are. A walk that was under way is lost.
    pub fn hv_iterinit(&mut self, hv: usize) -> (n: usize)
        requires
            old(self)@.wf(),
            old(self)@.is_hash(hv),
        ensures
            n == old(self)@.keys(hv).len(),
            final(self)@ == old(self)@.hv_walked(hv, 0),
            final(self)@.wf(),
            old(self)@.loose_kept(final(self)@),
    {
        self.set_cursor(hv, 0);
        self.hv_keys(hv)
    }

    /// The place of the next key in the walk of the hash at `hv`, which
    /// the walk then has passed; nothing where every key was passed.
    pub fn hv_iternext(&mut self, hv: usize) -> (he: Option<usize>)
        requires
            old(self)@.wf(),
            old(self)@.is_hash(hv),
        ensures
            he is Some == (old(self)@.cursor(hv) < old(self)@.keys(hv).len()),
            he is Some ==> he->Some_0 == old(self)@.cursor(hv),
            final(self)@ == if he is Some {
                old(self)@.hv_walked(hv, old(self)@.cursor(hv) + 1)
            } else {
                old(self)@
            },
            final(self)@.wf(),
            old(self)@.loose_kept(final(self)@),
    {
        assert(thing_wf(old(self)@.objs[hv as int].thing));
        let at = match &self.heap[hv].body {
            Body::Hash { keys, vals: _, cursor } => {
                if *cursor < keys.len() {
                    Some(*cursor)
                } else {
                    None
                }
            },
            _ => None,
        };
        match at {
            Some(c) => {
                self.set_cursor(hv, c + 1);
                Some(c)
            },
            None => {
                proof {
                    assert(old(self)@.loose_kept(self@));
                }
                None
            },
        }
    }

    /// A copy of the key at place `he` of the hash at `hv`.
    pub fn hv_iterkey(&self, hv: usize, he: usize) -> (key: Vec<u8>)
        requires
            self@.wf(),
            self@.is_hash(hv),
            he < self@.keys(hv).len(),
        ensures
            key@ == self@.keys(hv)[he as int],
    {
        match &self.heap[hv].body {
            Body::Hash { keys, vals: _, cursor: _ } => keys[he].clone(),
            _ => Vec::new(),
        }
    }

    /// The value at place `he` of the hash at `hv`.
    pub fn hv_iterval(&self, hv: usize, he: usize) -> (val: usize)
        requires
            self@.wf(),
            self@.is_hash(hv),
            he < self@.keys(hv).len(),
        ensures
            val == self@.vals(hv)[he as int],
            self@.live(val),
    {
        assert(thing_wf(self@.objs[hv as int].thing));
        match &self.heap[hv].body {
            Body::Hash { keys: _, vals, cursor: _ } => {
                proof {
                    lemma_occurrences_member(vals@, he as int);
                    lemma_referenced_is_live(self@, hv, vals@[he as int]);
                }
                vals[he]
            },
            _ => 0,
        }
    }

    fn set_cursor(&mut self, hv: usize, c: usize)
        requires
            old(self)@.wf(),
            old(self)@.is_hash(hv),
            c <= old(self)@.keys(hv).len(),
        ensures
            final(self)@ == old(self)@.hv_walked(hv, c as nat),
            final(self)@.wf(),
            old(self)@.loose_kept(final(self)@),
    {
        assert(thing_wf(old(self)@.objs[hv as int].thing));
        match &mut self.heap[hv].body {
            Body::Hash { keys: _, vals: _, cursor } => {
                *cursor = c;
            },
            _ => {},
        }
        proof {
            let w = old(self)@;
            let t = Thing::Hash { keys: w.keys(hv), vals: w.vals(hv), cursor: c as nat };
            let w1 = w.with_thing(hv, t);
            assert(self@.objs =~= w1.objs);
            assert forall|q: usize| q >= w.objs.len() implies thing_count(t, q) == 0 by {
                lemma_invalid_unreferenced(w, hv, q);
            }
            assert forall|q: usize| q < w.objs.len() implies w.loose(q) + thing_count(
                w.objs[hv as int].thing,
                q,
            ) - thing_count(t, q) >= 0 by {
                assert(w.loose(q) >= 0);
            }
            lemma_swap_thing(w, hv, t);
        }
    }
}

} // verus!
