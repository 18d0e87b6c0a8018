//! The host's stack primitives; how it raises an exception; and what it
//! knows by name: the native subroutines that were registered with it,
//! the subroutines of its own, and arrays.

use vstd::prelude::*;
use vstd::string::*;
use super::model::{first_index, lemma_arg_is_live, lemma_occurrences_push, thing_wf, World};
use super::{Interpreter, Stack};

verus! {

impl Stack {
    /// The number of arguments that the frame was entered with.
    pub fn len(&self) -> (n: usize)
        ensures
            n == self.items(),
    {
        self.items
    }

    /// The number of results that stand in the frame.
    pub fn pushed(&self) -> (n: usize)
        ensures
            n == self.sp(),
    {
        self.sp
    }
}

impl Interpreter {
    /// The host puts `sv` behind the arguments of the call that it is
    /// about to make; the stack takes over one unit of `sv` that nobody
    /// accounted for.
    pub fn push_arg(&mut self, sv: usize)
        requires
            old(self)@.wf(),
            old(self)@.valid(sv),
            old(self)@.loose(sv) >= 1,
            old(self)@.args.len() < isize::MAX,
        ensures
            final(self)@ == old(self)@.arg_pushed(sv),
            final(self)@.wf(),
            old(self)@.loose_moved(final(self)@, sv, -1),
    {
        self.args.push(sv);
        proof {
            let w = old(self)@;
            let n = self@;
            assert(n.objs =~= w.objs);
            assert forall|q: usize| #[trigger]
                n.inbound(q) == w.inbound(q) + if q == sv {
                    1nat
                } else {
                    0nat
                } by {
                lemma_occurrences_push(w.args, sv, q);
            }
            lemma_roots_moved(w, n, sv, 1);
        }
    }

    /// The local picture of the frame of the current call.
    pub fn stack_init(&self) -> (stack: Stack)
        ensures
            stack.items() == self@.args.len(),
            stack.sp() == self@.rets.len(),
            stack.cap() == stack.sp(),
    {
        Stack { items: self.args.len(), sp: self.rets.len(), cap: self.rets.len() }
    }

    /// The number of arguments on the stack.
    pub fn stack_items(&self, stack: &Stack) -> (n: isize)
        requires
            stack.items() <= isize::MAX,
        ensures
            n == stack.items(),
    {
        stack.items as isize
    }

    /// The argument at index `idx`; nothing where there is none.
    pub fn stack_fetch(&self, stack: &Stack, idx: isize) -> (sv: Option<usize>)
        requires
            self@.wf(),
            stack.items() == self@.args.len(),
        ensures
            sv == if 0 <= idx < self@.args.len() {
                Some(self@.args[idx as int])
            } else {
                None
            },
            sv is Some ==> self@.live(sv->Some_0),
    {
        if 0 <= idx && (idx as usize) < stack.items {
            let sv = self.args[idx as usize];
            proof {
                lemma_arg_is_live(self@, idx as int);
            }
            Some(sv)
        } else {
            None
        }
    }

    /// Makes room in the frame for `n` more results.
    pub fn stack_extend(&self, stack: &mut Stack, n: usize)
        requires
            old(stack).sp() + n <= usize::MAX,
        ensures
            final(stack).items() == old(stack).items(),
            final(stack).sp() == old(stack).sp(),
            final(stack).cap() == if old(stack).cap() >= old(stack).sp() + n {
                old(stack).cap() as int
            } else {
                old(stack).sp() + n
            },
    {
        if stack.cap < stack.sp + n {
            stack.cap = stack.sp + n;
        }
    }

    /// Pushes `sv` behind the results of the call, after making room
    /// for it; the stack takes over one unit of `sv` that nobody
    /// accounted for.
    pub fn stack_xpush_sv_mortal(&mut self, stack: &mut Stack, sv: usize)
        requires
            old(self)@.wf(),
            old(self)@.valid(sv),
            old(self)@.loose(sv) >= 1,
            old(stack).sp() == old(self)@.rets.len(),
            old(stack).sp() < usize::MAX,
        ensures
            final(self)@ == old(self)@.ret_pushed(sv),
            final(self)@.wf(),
            old(self)@.loose_moved(final(self)@, sv, -1),
            final(stack).items() == old(stack).items(),
            final(stack).sp() == old(stack).sp() + 1,
            final(stack).cap() >= final(stack).sp(),
    {
        self.stack_extend(stack, 1);
        self.stack_push_sv_mortal(stack, sv);
    }

    /// Pushes `sv` behind the results of the call, into room that the
    /// frame already has; the stack takes over one unit of `sv` that
    /// nobody accounted for.
    pub fn stack_push_sv_mortal(&mut self, stack: &mut Stack, sv: usize)
        requires
            old(self)@.wf(),
            old(self)@.valid(sv),
            old(self)@.loose(sv) >= 1,
            old(stack).sp() == old(self)@.rets.len(),
            old(stack).sp() < old(stack).cap(),
        ensures
            final(self)@ == old(self)@.ret_pushed(sv),
            final(self)@.wf(),
            old(self)@.loose_moved(final(self)@, sv, -1),
            final(stack).items() == old(stack).items(),
            final(stack).sp() == old(stack).sp() + 1,
            final(stack).cap() == old(stack).cap(),
    {
        self.rets.push(sv);
        stack.sp = stack.sp + 1;
        proof {
            let w = old(self)@;
            let n = self@;
            assert(n.objs =~= w.objs);
            assert forall|q: usize| #[trigger]
                n.inbound(q) == w.inbound(q) + if q == sv {
                    1nat
                } else {
                    0nat
                } by {
                lemma_occurrences_push(w.rets, sv, q);
            }
            lemma_roots_moved(w, n, sv, 1);
        }
    }

    /// Writes the local stack pointer back: the host sees the results
    /// that were pushed up to now.
    pub fn stack_putback(&mut self, stack: &Stack)
        requires
            old(self)@.wf(),
            stack.sp() <= old(self)@.rets.len(),
            old(self)@.putbacks < usize::MAX,
        ensures
            final(self)@ == old(self)@.put_back(stack.sp()),
            final(self)@.wf(),
            old(self)@.loose_kept(final(self)@),
    {
        self.sp = stack.sp;
        self.putbacks = self.putbacks + 1;
        proof {
            let w = old(self)@;
            let n = self@;
            assert(n.objs =~= w.objs);
            assert forall|q: usize| #[trigger] n.inbound(q) == w.inbound(q) by {}
            lemma_roots_moved(w, n, 0, 0);
        }
    }

    /// How often the stack pointer was written back.
    pub fn putbacks(&self) -> (n: usize)
        ensures
            n == self@.putbacks,
    {
        self.putbacks
    }

    /// The results that the host can see.
    pub fn results(&self) -> (r: Vec<usize>)
        requires
            self@.wf(),
        ensures
            r@ == self@.results(),
    {
        let mut r: Vec<usize> = Vec::new();
        let mut i: usize = 0;
        while i < self.sp
            invariant
                i <= self.sp,
                self.sp <= self.rets@.len(),
                r@ == self.rets@.take(i as int),
            decreases self.sp - i,
        {
            r.push(self.rets[i]);
            assert(r@ =~= self.rets@.take(i + 1));
            i += 1;
        }
        r
    }

    /// Raises `errsv` as an exception; the host takes over one unit of
    /// `errsv` that nobody accounted for, and gives up an exception that
    /// was pending.
    pub fn croak_sv(&mut self, errsv: usize)
        requires
            old(self)@.wf(),
            old(self)@.valid(errsv),
            old(self)@.loose(errsv) >= 1,
        ensures
            final(self)@ == old(self)@.croaked(errsv),
            final(self)@.wf(),
            old(self)@.loose_moved(final(self)@, errsv, -1),
    {
        let was = self.raised;
        self.raised = Some(errsv);
        proof {
            let w = old(self)@;
            let n = self@;
            assert(n.objs =~= w.objs);
            assert(n == World { raised: Some(errsv), ..w });
            assert forall|q: usize| #[trigger]
                n.inbound(q) + if was == Some(q) {
                    1nat
                } else {
                    0nat
                } == w.inbound(q) + if q == errsv {
                    1nat
                } else {
                    0nat
                } by {}
            assert forall|q: usize| #[trigger]
                n.loose(q) == w.loose(q) + if was == Some(q) {
                    1int
                } else {
                    0int
                } - if q == errsv {
                    1int
                } else {
                    0int
                } by {
                assert(n.inbound(q) + if was == Some(q) {
                    1nat
                } else {
                    0nat
                } == w.inbound(q) + if q == errsv {
                    1nat
                } else {
                    0nat
                });
                if q >= w.objs.len() {
                    assert(w.inbound(q) == 0);
                }
            }
            assert forall|q: usize| q < n.objs.len() implies #[trigger] n.loose(q) >= 0 by {
                assert(w.loose(q) >= 0);
            }
            assert forall|q: usize| q >= n.objs.len() implies #[trigger] n.inbound(q) == 0 by {
                assert(w.inbound(q) == 0);
                assert(n.inbound(q) + if was == Some(q) {
                    1nat
                } else {
                    0nat
                } == w.inbound(q) + if q == errsv {
                    1nat
                } else {
                    0nat
                });
            }
            assert forall|i: int| 0 <= i < n.objs.len() implies thing_wf(
                #[trigger] n.objs[i].thing,
            ) by {
                assert(thing_wf(w.objs[i].thing));
            }
            assert(n.wf());
            if was is Some {
                assert(w.inbound(was->Some_0) >= 1);
                assert(n.loose(was->Some_0) >= 1);
            }
        }
        match was {
            Some(e) => {
                self.sv_refcnt_dec(e);
            },
            None => {},
        }
    }

    /// Registers the native subroutine that the loader knows as `xsaddr`
    /// under `name`.
    pub fn new_xs(&mut self, name: &str, xsaddr: usize)
        requires
            old(self)@.wf(),
        ensures
            final(self)@ == old(self)@.sub_registered(name@, xsaddr),
            final(self)@.wf(),
            old(self)@.loose_kept(final(self)@),
    {
        self.subs.push((String::from_str(name), xsaddr));
        proof {
            let w = old(self)@;
            let n = self@;
            assert(n.objs =~= w.objs);
            assert(n.subs =~= w.subs.push((name@, xsaddr)));
            assert forall|q: usize| #[trigger] n.inbound(q) == w.inbound(q) by {}
            lemma_roots_moved(w, n, 0, 0);
        }
    }

    /// The names under which native subroutines were registered, with
    /// the number under which the loader knows each, in the order of
    /// their registration.
    pub fn subs(&self) -> (r: Vec<(String, usize)>)
        ensures
            r@.len() == self@.subs.len(),
            forall|i: int|
                0 <= i < r@.len() ==> (#[trigger] r@[i]).0@ == self@.subs[i].0 && r@[i].1
                    == self@.subs[i].1,
    {
        let mut r: Vec<(String, usize)> = Vec::new();
        let n = self.subs.len();
        let mut i: usize = 0;
        while i < n
            invariant
                n == self.subs@.len(),
                i <= n,
                r@.len() == i,
                forall|j: int|
                    0 <= j < i ==> (#[trigger] r@[j]).0@ == self.subs@[j].0@ && r@[j].1
                        == self.subs@[j].1,
            decreases n - i,
        {
            r.push((self.subs[i].0.clone(), self.subs[i].1));
            i += 1;
        }
        r
    }

    /// The host defines a subroutine `name` of its own that dies with
    /// `dies`, or returns where `dies` is nothing.
    pub fn define_sub(&mut self, name: &str, dies: Option<&str>)
        requires
            old(self)@.wf(),
        ensures
            final(self)@ == old(self)@.sub_defined(
                name@,
                match dies {
                    Some(m) => Some(m@),
                    None => None,
                },
            ),
            final(self)@.wf(),
            old(self)@.loose_kept(final(self)@),
    {
        let message = match dies {
            Some(m) => Some(String::from_str(m)),
            None => None,
        };
        self.host_subs.push((String::from_str(name), message));
        proof {
            let w = old(self)@;
            let n = self@;
            assert(n.objs =~= w.objs);
            assert(n.host_subs =~= w.host_subs.push(
                (
                    name@,
                    match dies {
                        Some(m) => Some(m@),
                        None => None,
                    },
                ),
            ));
            assert forall|q: usize| #[trigger] n.inbound(q) == w.inbound(q) by {}
            lemma_roots_moved(w, n, 0, 0);
        }
    }

    /// Calls the subroutine of the host that is known as `name`. Where
    /// the call dies, the result is a new scalar that holds the message;
    /// it carries one unit that nobody accounts for.
    pub fn call_pv(&mut self, name: &str, flags: u32) -> (died: Option<usize>)
        requires
            old(self)@.wf(),
            old(self)@.objs.len() < usize::MAX,
        ensures
            died is Some == old(self)@.call_dies(name@) is Some,
            died is Some ==> died->Some_0 == old(self)@.objs.len(),
            final(self)@ == old(self)@.called(name@),
            final(self)@.wf(),
            died is Some ==> old(self)@.loose_moved(final(self)@, died->Some_0, 1),
            died is None ==> old(self)@.loose_kept(final(self)@),
    {
        let n = self.host_subs.len();
        let ghost all = self@.host_subs.map_values(|s: (Seq<char>, Option<Seq<char>>)| s.0);
        let mut i: usize = 0;
        assert(all.skip(0) =~= all);
        while i < n
            invariant
                self@ == old(self)@,
                self@.wf(),
                self@.objs.len() < usize::MAX,
                all == self@.host_subs.map_values(|s: (Seq<char>, Option<Seq<char>>)| s.0),
                n == self.host_subs@.len(),
                i <= n,
                first_index(all, name@) == match first_index(all.skip(i as int), name@) {
                    Some(j) => Some(j + i),
                    None => None,
                },
            decreases n - i,
        {
            proof {
                assert(all.skip(i as int)[0] == all[i as int]);
                assert(all.skip(i as int).drop_first() =~= all.skip(i + 1));
                assert(all[i as int] == self.host_subs@[i as int].0@);
            }
            if self.host_subs[i].0 == String::from_str(name) {
                let message = match &self.host_subs[i].1 {
                    Some(m) => Some(m.clone()),
                    None => None,
                };
                return match message {
                    Some(m) => Some(self.new_sv_pvn(m.as_str().as_bytes(), true)),
                    None => None,
                };
            }
            i += 1;
        }
        let mut message = String::from_str("Undefined subroutine &");
        message.append(name);
        message.append(" called");
        assert(message@ =~= super::model::undefined_subroutine(name@));
        Some(self.new_sv_pvn(message.as_str().as_bytes(), true))
    }

    /// Makes the object at `av` known as `name`; the host takes over one
    /// unit of the object that nobody accounted for.
    pub fn name_av(&mut self, name: &str, av: usize)
        requires
            old(self)@.wf(),
            old(self)@.valid(av),
            old(self)@.loose(av) >= 1,
        ensures
            final(self)@ == old(self)@.named_as(name@, av),
            final(self)@.wf(),
            old(self)@.loose_moved(final(self)@, av, -1),
    {
        self.names.push(String::from_str(name));
        self.named.push(av);
        proof {
            let w = old(self)@;
            let n = self@;
            assert(n.objs =~= w.objs);
            assert(n.names =~= w.names.push(name@));
            assert forall|q: usize| #[trigger]
                n.inbound(q) == w.inbound(q) + if q == av {
                    1nat
                } else {
                    0nat
                } by {
                lemma_occurrences_push(w.named, av, q);
            }
            lemma_roots_moved(w, n, av, 1);
        }
    }

    /// The array that is known as `name`, if there is one.
    pub fn get_av(&self, name: &str) -> (av: Option<usize>)
        requires
            self@.wf(),
        ensures
            av == self@.array_named(name@),
            av is Some ==> self@.live(av->Some_0),
    {
        let n = self.names.len();
        let ghost names = self@.names;
        let mut i: usize = 0;
        assert(names.skip(0) =~= names);
        while i < n
            invariant
                self@.wf(),
                names == self@.names,
                n == names.len(),
                n == self.named@.len(),
                i <= n,
                first_index(names, name@) == match first_index(names.skip(i as int), name@) {
                    Some(j) => Some(j + i),
                    None => None,
                },
            decreases n - i,
        {
            proof {
                assert(names.skip(i as int)[0] == names[i as int]);
                assert(names.skip(i as int).drop_first() =~= names.skip(i + 1));
            }
            if self.names[i] == String::from_str(name) {
                let p = self.named[i];
                proof {
                    let w = self@;
                    super::model::lemma_occurrences_member(w.named, i as int);
                    assert(w.inbound(p) >= 1);
                    if p >= w.objs.len() {
                        assert(w.inbound(p) == 0);
                    }
                    assert(w.loose(p) >= 0);
                }
                if self.sv_type(p) == super::SVt_PVAV {
                    return Some(p);
                }
                return None;
            }
            i += 1;
        }
        None
    }

    /// The exception that is pending, if any.
    pub fn raised(&self) -> (e: Option<usize>)
        ensures
            e == self@.raised,
    {
        self.raised
    }
}

/// A world that differs from a well-formed one only outside the heap,
/// and refers `d` times more to one object with that many loose units,
/// is well formed.
proof fn lemma_roots_moved(w: World, n: World, sv: usize, d: nat)
    requires
        w.wf(),
        n.objs == w.objs,
        n.sp <= n.rets.len(),
        n.args.len() <= isize::MAX,
        n.names.len() == n.named.len(),
        d > 0 ==> w.valid(sv) && w.loose(sv) >= d,
        forall|q: usize| #[trigger]
            n.inbound(q) == w.inbound(q) + if q == sv {
                d
            } else {
                0nat
            },
    ensures
        n.wf(),
        w.loose_moved(n, sv, -(d as int)),
{
    assert forall|q: usize| #[trigger]
        n.loose(q) == w.loose(q) + if q == sv {
            -(d as int)
        } else {
            0
        } by {
        assert(n.inbound(q) == w.inbound(q) + if q == sv {
            d
        } else {
            0nat
        });
    }
    assert forall|q: usize| q < n.objs.len() implies #[trigger] n.loose(q) >= 0 by {
        assert(w.loose(q) >= 0);
    }
    assert forall|q: usize| q >= n.objs.len() implies #[trigger] n.inbound(q) == 0 by {
        assert(w.inbound(q) == 0);
    }
    assert forall|i: int| 0 <= i < n.objs.len() implies thing_wf(#[trigger] n.objs[i].thing) by {
        assert(thing_wf(w.objs[i].thing));
    }
}

} // verus!
