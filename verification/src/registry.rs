//! An append-only list to which many submitters publish at once, and
//! which is walked once everything was published.
//!
//! Publishing is made of the steps that a lock-free list takes, and each
//! step is a function of its own: a submitter allocates a node and reads
//! the head ([`Registry::prepare`]), tries to swing the head to its node
//! ([`Registry::compare_and_swap`], as often as other submitters get in
//! its way), and then writes the old head into its node
//! ([`Registry::link`]). The steps of different submitters may be taken
//! in any order. [`Registry::submit`] takes the steps of one submitter
//! in one go.

use vstd::prelude::*;

verus! {

/// One entry of the list.
pub struct Node<T> {
    item: T,
    next: Option<usize>,
}

/// The list.
pub struct Registry<T> {
    nodes: Vec<Node<T>>,
    head: Option<usize>,
    order: Ghost<Seq<usize>>,
    linked: Ghost<Seq<bool>>,
}

/// A submitter that has a node and has not linked it yet.
pub struct Ticket {
    node: usize,
    expected: Option<usize>,
}

/// The list as mathematics sees it.
pub struct RegistryView<T> {
    /// The items of the nodes that were ever allocated, by node.
    pub items: Seq<T>,
    /// The successor that was written into each node, by node.
    pub nexts: Seq<Option<usize>>,
    /// The node that the list starts at.
    pub head: Option<usize>,
    /// The nodes that were published, oldest first.
    pub order: Seq<usize>,
    /// Which of the published nodes had their successor written.
    pub linked: Seq<bool>,
}

impl<T> RegistryView<T> {
    /// The node that the `k`-th published node has to be linked to.
    pub open spec fn pred(self, k: int) -> Option<usize> {
        if k <= 0 {
            None
        } else {
            Some(self.order[k - 1])
        }
    }

    /// Whether node `n` was published.
    pub open spec fn published(self, n: usize) -> bool {
        self.order.contains(n)
    }

    /// The head points at the node that was published last; a node that
    /// was linked points at the node that was published before it, and
    /// any other node at nothing; and no node was published twice.
    pub open spec fn wf(self) -> bool {
        &&& self.items.len() == self.nexts.len()
        &&& self.order.len() == self.linked.len()
        &&& self.order.no_duplicates()
        &&& forall|k: int| 0 <= k < self.order.len() ==> #[trigger] self.order[k] < self.items.len()
        &&& self.head == self.pred(self.order.len() as int)
        &&& forall|k: int|
            0 <= k < self.order.len() ==> #[trigger] self.nexts[self.order[k] as int] == if self.linked[k] {
                self.pred(k)
            } else {
                None
            }
        &&& forall|n: usize|
            n < self.items.len() && !self.published(n) ==> #[trigger] self.nexts[n as int] is None
    }

    /// Whether every node that was published was linked.
    pub open spec fn quiescent(self) -> bool {
        forall|k: int| 0 <= k < self.linked.len() ==> self.linked[k]
    }

    /// The nodes that a walk passes which starts at the `k`-th published
    /// node: that node, and, if it was linked, those that a walk from the
    /// node before it passes.
    pub open spec fn walk(self, k: int) -> Seq<usize>
        decreases k + 1,
    {
        if k < 0 {
            Seq::empty()
        } else if self.linked[k] {
            seq![self.order[k]] + self.walk(k - 1)
        } else {
            seq![self.order[k]]
        }
    }

    /// The nodes that a walk from the head passes.
    pub open spec fn visible(self) -> Seq<usize> {
        self.walk(self.order.len() - 1)
    }

    /// The list after a node with `item` was allocated.
    pub open spec fn prepared(self, item: T) -> RegistryView<T> {
        RegistryView { items: self.items.push(item), nexts: self.nexts.push(None), ..self }
    }

    /// The list after node `n` was published.
    pub open spec fn swapped(self, n: usize) -> RegistryView<T> {
        RegistryView {
            head: Some(n),
            order: self.order.push(n),
            linked: self.linked.push(false),
            ..self
        }
    }

    /// The list after the node that was published as the `k`-th was linked.
    pub open spec fn linked_at(self, k: int) -> RegistryView<T> {
        RegistryView {
            nexts: self.nexts.update(self.order[k] as int, self.pred(k)),
            linked: self.linked.update(k, true),
            ..self
        }
    }
}

impl<T> View for Registry<T> {
    type V = RegistryView<T>;

    closed spec fn view(&self) -> RegistryView<T> {
        RegistryView {
            items: self.nodes@.map_values(|n: Node<T>| n.item),
            nexts: self.nodes@.map_values(|n: Node<T>| n.next),
            head: self.head,
            order: self.order@,
            linked: self.linked@,
        }
    }
}

impl Ticket {
    /// The node of the submitter.
    pub closed spec fn node(self) -> usize {
        self.node
    }

    /// The head that the submitter saw last.
    pub closed spec fn expected(self) -> Option<usize> {
        self.expected
    }

    /// Whether the submitter has yet to publish its node.
    pub open spec fn waiting<T>(self, r: RegistryView<T>) -> bool {
        self.node() < r.items.len() && !r.published(self.node())
    }

    /// Whether the submitter has published its node and has yet to link it.
    pub open spec fn pending<T>(self, r: RegistryView<T>) -> bool {
        &&& r.published(self.node())
        &&& !r.linked[r.order.index_of(self.node())]
        &&& self.expected() == r.pred(r.order.index_of(self.node()))
    }
}

impl<T> Registry<T> {
    /// An empty list.
    pub fn new() -> (r: Self)
        ensures
            r@ == empty::<T>(),
            r@.wf(),
    {
        let r = Registry { nodes: Vec::new(), head: None, order: Ghost(Seq::empty()), linked: Ghost(Seq::empty()) };
        assert(r@.items =~= Seq::<T>::empty());
        assert(r@.nexts =~= Seq::<Option<usize>>::empty());
        assert(r@.order =~= Seq::<usize>::empty());
        assert(r@.linked =~= Seq::<bool>::empty());
        r
    }

    /// The first step of a submitter: allocates a node for `item` and
    /// reads the head.
    pub fn prepare(&mut self, item: T) -> (ticket: Ticket)
        requires
            old(self)@.wf(),
        ensures
            final(self)@ == old(self)@.prepared(item),
            final(self)@.wf(),
            ticket.node() == old(self)@.items.len(),
            ticket.expected() == old(self)@.head,
            ticket.waiting(final(self)@),
    {
        let node = self.nodes.len();
        self.nodes.push(Node { item, next: None });
        proof {
            assert(self@.items =~= old(self)@.items.push(item));
            assert(self@.nexts =~= old(self)@.nexts.push(None));
            lemma_prepared(old(self)@, item);
            assert forall|k: int| 0 <= k < self@.order.len() implies self@.order[k] != node by {
                assert(old(self)@.order[k] < old(self)@.items.len());
            }
        }
        Ticket { node, expected: self.head }
    }

    /// One attempt of a submitter to publish its node: where the head is
    /// still what the submitter saw last, the head becomes the
    /// submitter's node; else the submitter sees the head of now, and
    /// the list stays as it is.
    pub fn compare_and_swap(&mut self, ticket: &mut Ticket) -> (done: bool)
        requires
            old(self)@.wf(),
            old(ticket).waiting(old(self)@),
        ensures
            done == (old(self)@.head == old(ticket).expected()),
            final(ticket).node() == old(ticket).node(),
            done ==> final(self)@ == old(self)@.swapped(old(ticket).node()) && final(ticket).pending(
                final(self)@,
            ),
            !done ==> final(self)@ == old(self)@ && final(ticket).expected() == old(self)@.head
                && final(ticket).waiting(final(self)@),
            final(self)@.wf(),
    {
        let same = match (self.head, ticket.expected) {
            (None, None) => true,
            (Some(a), Some(b)) => a == b,
            _ => false,
        };
        if same {
            self.head = Some(ticket.node);
            proof {
                let r = old(self)@;
                let n = ticket.node;
                self.order@ = r.order.push(n);
                self.linked@ = r.linked.push(false);
                assert(self@.items =~= r.items);
                assert(self@.nexts =~= r.nexts);
                assert(self@ == r.swapped(n));
                lemma_swapped(r, n);
                assert(self@.order[r.order.len() as int] == n);
                assert(self@.order.index_of(n) == r.order.len());
            }
            true
        } else {
            ticket.expected = self.head;
            false
        }
    }

    /// The last step of a submitter: writes the head that its node took
    /// the place of into its node.
    pub fn link(&mut self, ticket: Ticket)
        requires
            old(self)@.wf(),
            ticket.pending(old(self)@),
        ensures
            final(self)@ == old(self)@.linked_at(old(self)@.order.index_of(ticket.node())),
            final(self)@.wf(),
    {
        proof {
            let r = self@;
            let k = r.order.index_of(ticket.node);
            assert(r.order[k] == ticket.node);
            assert(r.order[k] < r.items.len());
        }
        self.nodes[ticket.node].next = ticket.expected;
        proof {
            let r = old(self)@;
            let k = r.order.index_of(ticket.node);
            self.linked@ = r.linked.update(k, true);
            assert(self@.items =~= r.items);
            assert(self@.nexts =~= r.nexts.update(ticket.node as int, ticket.expected));
            lemma_linked(r, k);
        }
    }

    /// Publishes `item`: the steps of one submitter, with nobody in its way.
    pub fn submit(&mut self, item: T)
        requires
            old(self)@.wf(),
        ensures
            final(self)@ == old(self)@.prepared(item).swapped(
                old(self)@.items.len() as usize,
            ).linked_at(old(self)@.order.len() as int),
            final(self)@.wf(),
            old(self)@.quiescent() ==> final(self)@.quiescent(),
            final(self)@.order == old(self)@.order.push(old(self)@.items.len() as usize),
    {
        let mut ticket = self.prepare(item);
        let done = self.compare_and_swap(&mut ticket);
        assert(done);
        assert(self@.order.index_of(ticket.node()) == old(self)@.order.len()) by {
            assert(self@.order[old(self)@.order.len() as int] == ticket.node());
        }
        self.link(ticket);
    }

    /// The number of nodes that were ever allocated.
    pub fn len(&self) -> (n: usize)
        ensures
            n == self@.items.len(),
    {
        self.nodes.len()
    }

    /// A walk of the list from the head.
    pub fn iter<'a>(&'a self) -> (it: Iter<'a, T>)
        requires
            self@.wf(),
        ensures
            it.registry() == self@,
            it.at() == self@.head,
    {
        Iter { registry: self, node: self.head }
    }

    /// The items of the nodes that a walk from the head passes, in the
    /// order of the walk: newest first.
    pub fn collect<'a>(&'a self) -> (items: Vec<&'a T>)
        requires
            self@.wf(),
        ensures
            items@.len() == self@.visible().len(),
            forall|i: int|
                0 <= i < items@.len() ==> *#[trigger] items@[i] == self@.items[self@.visible()[i] as int],
    {
        let mut it = self.iter();
        let mut items: Vec<&'a T> = Vec::new();
        let ghost r = self@;
        let ghost mut k: int = r.order.len() - 1;
        proof {
            assert(r.visible().take(0) + r.walk(k) =~= r.visible());
        }
        loop
            invariant
                r.wf(),
                it.registry() == r,
                -1 <= k < r.order.len(),
                it.at() == (if k < 0 || (k + 1 < r.order.len() && !r.linked[k + 1]) {
                    None
                } else {
                    Some(r.order[k])
                }),
                items@.len() <= r.visible().len(),
                r.visible() == r.visible().take(items@.len() as int) + (if it.at() is Some {
                    r.walk(k)
                } else {
                    Seq::empty()
                }),
                forall|i: int|
                    0 <= i < items@.len() ==> *#[trigger] items@[i] == r.items[r.visible()[i] as int],
            ensures
                items@.len() == r.visible().len(),
                forall|i: int|
                    0 <= i < items@.len() ==> *#[trigger] items@[i] == r.items[r.visible()[i] as int],
            decreases k + 1 + (if it.at() is Some { 1int } else { 0int }),
        {
            let ghost seen = r.visible().take(items@.len() as int);
            match it.next() {
                Some(item) => {
                    items.push(item);
                    proof {
                        let now = r.visible().take(items@.len() as int);
                        assert(r.visible() == seen + r.walk(k));
                        assert(r.walk(k)[0] == r.order[k]);
                        assert(r.visible()[seen.len() as int] == r.order[k]);
                        assert(now =~= seen + seq![r.order[k]]);
                        assert(r.nexts[r.order[k] as int] == if r.linked[k] {
                            r.pred(k)
                        } else {
                            None
                        });
                        if r.linked[k] {
                            assert(r.walk(k) =~= seq![r.order[k]] + r.walk(k - 1));
                            assert(r.visible() =~= now + r.walk(k - 1));
                            if k - 1 < 0 {
                                assert(r.walk(k - 1) =~= Seq::<usize>::empty());
                            }
                        } else {
                            assert(r.walk(k) =~= seq![r.order[k]]);
                        }
                        assert(r.visible() =~= now + (if it.at() is Some {
                            r.walk(k - 1)
                        } else {
                            Seq::empty()
                        }));
                        k = k - 1;
                    }
                },
                None => {
                    proof {
                        assert(r.visible() =~= seen);
                    }
                    break ;
                },
            }
        }
        items
    }
}

/// A walk of a list.
pub struct Iter<'a, T> {
    registry: &'a Registry<T>,
    node: Option<usize>,
}

impl<'a, T> Iter<'a, T> {
    /// The list that is walked.
    pub closed spec fn registry(self) -> RegistryView<T> {
        self.registry@
    }

    /// The node that the walk comes to next.
    pub closed spec fn at(self) -> Option<usize> {
        self.node
    }

    /// The item of the node that the walk comes to next; the walk then
    /// moves to the successor that was written into the node.
    pub fn next(&mut self) -> (item: Option<&'a T>)
        requires
            old(self).registry().wf(),
            old(self).at() is Some ==> old(self).registry().published(old(self).at()->Some_0),
        ensures
            final(self).registry() == old(self).registry(),
            item is Some == old(self).at() is Some,
            item is Some ==> {
                &&& *item->Some_0 == old(self).registry().items[old(self).at()->Some_0 as int]
                &&& final(self).at() == old(self).registry().nexts[old(self).at()->Some_0 as int]
            },
            item is None ==> final(self).at() is None,
    {
        match self.node {
            None => None,
            Some(n) => {
                proof {
                    let r = self.registry@;
                    let k = r.order.index_of(n);
                    assert(r.order[k] == n);
                    assert(r.order[k] < r.items.len());
                }
                let node = &self.registry.nodes[n];
                self.node = node.next;
                Some(&node.item)
            },
        }
    }
}

/// Publishing a node that was not published keeps the list well formed.
pub proof fn lemma_swapped<T>(r: RegistryView<T>, n: usize)
    requires
        r.wf(),
        n < r.items.len(),
        !r.published(n),
        r.nexts[n as int] is None,
    ensures
        r.swapped(n).wf(),
{
    let s = r.swapped(n);
    assert forall|i: int, j: int| 0 <= i < s.order.len() && 0 <= j < s.order.len() && i != j implies s.order[i]
        != s.order[j] by {
        if i == r.order.len() {
            assert(r.order.contains(r.order[j]));
        } else if j == r.order.len() {
            assert(r.order.contains(r.order[i]));
        }
    }
    assert forall|k: int| 0 <= k < s.order.len() implies #[trigger] s.order[k] < s.items.len() by {
        if k < r.order.len() {
            assert(r.order[k] < r.items.len());
        }
    }
    assert forall|m: usize| m < s.items.len() && !s.published(m) implies #[trigger] s.nexts[m as int] is None by {
        if r.published(m) {
            let k = r.order.index_of(m);
            assert(s.order[k] == m);
        }
    }
    assert forall|k: int| 0 <= k < s.order.len() implies #[trigger] s.nexts[s.order[k] as int]
        == if s.linked[k] {
        s.pred(k)
    } else {
        None
    } by {
        if k < r.order.len() {
            assert(r.nexts[r.order[k] as int] == if r.linked[k] {
                r.pred(k)
            } else {
                None
            });
        }
    }
}

/// Linking a node that was published keeps the list well formed.
pub proof fn lemma_linked<T>(r: RegistryView<T>, k: int)
    requires
        r.wf(),
        0 <= k < r.order.len(),
    ensures
        r.linked_at(k).wf(),
{
    let s = r.linked_at(k);
    assert(r.order[k] < r.items.len());
    assert forall|j: int| 0 <= j < s.order.len() implies #[trigger] s.nexts[s.order[j] as int]
        == if s.linked[j] {
        s.pred(j)
    } else {
        None
    } by {
        assert(r.order[j] < r.items.len());
        assert(r.nexts[r.order[j] as int] == if r.linked[j] {
            r.pred(j)
        } else {
            None
        });
        if j != k {
            assert(r.order[j] != r.order[k]);
        }
    }
}

/// Allocating a node keeps the list well formed.
pub proof fn lemma_prepared<T>(r: RegistryView<T>, item: T)
    requires
        r.wf(),
    ensures
        r.prepared(item).wf(),
{
    let s = r.prepared(item);
    assert forall|k: int| 0 <= k < s.order.len() implies #[trigger] s.order[k] < s.items.len() by {
        assert(r.order[k] < r.items.len());
    }
    assert forall|k: int| 0 <= k < s.order.len() implies #[trigger] s.nexts[s.order[k] as int]
        == if s.linked[k] {
        s.pred(k)
    } else {
        None
    } by {
        assert(r.order[k] < r.items.len());
        assert(r.nexts[r.order[k] as int] == if r.linked[k] {
            r.pred(k)
        } else {
            None
        });
    }
    assert forall|n: usize| n < s.items.len() && !s.published(n) implies #[trigger] s.nexts[n as int] is None by {
        if n < r.items.len() {
            assert(r.nexts[n as int] is None);
        }
    }
}

/// One step of one submitter.
pub enum Step<T> {
    /// A node is allocated for an item.
    Prepare(T),
    /// The head is swung to a node.
    Swap(usize),
    /// The head that a node took the place of is written into the node.
    Link(usize),
}

impl<T> Step<T> {
    /// Whether the step can be taken on the list `r`: a node is
    /// published once, and linked once, after it was published.
    pub open spec fn permitted(self, r: RegistryView<T>) -> bool {
        match self {
            Step::Prepare(item) => true,
            Step::Swap(n) => n < r.items.len() && !r.published(n),
            Step::Link(n) => r.published(n) && !r.linked[r.order.index_of(n)],
        }
    }

    /// The list after the step was taken on the list `r`.
    pub open spec fn apply(self, r: RegistryView<T>) -> RegistryView<T> {
        match self {
            Step::Prepare(item) => r.prepared(item),
            Step::Swap(n) => r.swapped(n),
            Step::Link(n) => r.linked_at(r.order.index_of(n)),
        }
    }
}

/// The list before anything was submitted.
pub open spec fn empty<T>() -> RegistryView<T> {
    RegistryView {
        items: Seq::empty(),
        nexts: Seq::empty(),
        head: None,
        order: Seq::empty(),
        linked: Seq::empty(),
    }
}

/// The list after `steps` were taken, in order, on the list `r`.
pub open spec fn run<T>(r: RegistryView<T>, steps: Seq<Step<T>>) -> RegistryView<T>
    decreases steps.len(),
{
    if steps.len() == 0 {
        r
    } else {
        steps.last().apply(run(r, steps.drop_last()))
    }
}

/// Whether each of `steps` can be taken on the list that those before
/// it leave.
pub open spec fn permitted<T>(r: RegistryView<T>, steps: Seq<Step<T>>) -> bool
    decreases steps.len(),
{
    if steps.len() == 0 {
        true
    } else {
        permitted(r, steps.drop_last()) && steps.last().permitted(run(r, steps.drop_last()))
    }
}

/// How many of `steps` allocate a node: how many items were submitted.
pub open spec fn submitted<T>(steps: Seq<Step<T>>) -> nat
    decreases steps.len(),
{
    if steps.len() == 0 {
        0
    } else {
        submitted(steps.drop_last()) + if steps.last() is Prepare {
            1nat
        } else {
            0nat
        }
    }
}

/// In whatever order the steps of the submitters are taken, the list
/// stays well formed, and holds a node for each item that was submitted.
pub proof fn lemma_interleaving<T>(steps: Seq<Step<T>>)
    requires
        permitted(empty::<T>(), steps),
    ensures
        run(empty::<T>(), steps).wf(),
        run(empty::<T>(), steps).items.len() == submitted(steps),
    decreases steps.len(),
{
    if steps.len() > 0 {
        lemma_interleaving(steps.drop_last());
        let r = run(empty::<T>(), steps.drop_last());
        match steps.last() {
            Step::Prepare(item) => {
                lemma_prepared(r, item);
            },
            Step::Swap(n) => {
                lemma_swapped(r, n);
            },
            Step::Link(n) => {
                let k = r.order.index_of(n);
                assert(r.order[k] == n);
                lemma_linked(r, k);
            },
        }
    }
}

/// In whatever order the steps of the submitters were taken: once each
/// submitter has published its node and linked it, a walk from the head
/// yields as many entries as were submitted, and no entry twice.
pub proof fn lemma_every_interleaving_drains<T>(steps: Seq<Step<T>>)
    requires
        permitted(empty::<T>(), steps),
        run(empty::<T>(), steps).order.len() == run(empty::<T>(), steps).items.len(),
        run(empty::<T>(), steps).quiescent(),
    ensures
        run(empty::<T>(), steps).visible().len() == submitted(steps),
        run(empty::<T>(), steps).visible().no_duplicates(),
        forall|i: int|
            0 <= i < submitted(steps) ==> #[trigger] run(empty::<T>(), steps).visible()[i]
                < submitted(steps),
{
    lemma_interleaving(steps);
    let r = run(empty::<T>(), steps);
    lemma_drain(r);
    assert forall|i: int| 0 <= i < submitted(steps) implies #[trigger] r.visible()[i] < submitted(
        steps,
    ) by {
        assert(r.visible()[i] == r.order[r.order.len() - 1 - i]);
        assert(r.order[r.order.len() - 1 - i] < r.items.len());
    }
}

/// Once every node that was published was linked, a walk from the
/// `k`-th published node passes that node and every node that was
/// published before it, newest first, each once.
pub proof fn lemma_walk<T>(r: RegistryView<T>, k: int)
    requires
        r.wf(),
        r.quiescent(),
        -1 <= k < r.order.len(),
    ensures
        r.walk(k).len() == k + 1,
        forall|i: int| 0 <= i <= k ==> #[trigger] r.walk(k)[i] == r.order[k - i],
    decreases k + 1,
{
    if k >= 0 {
        lemma_walk(r, k - 1);
        assert(r.linked[k]);
    }
}

/// Once every submitter has linked the node that it published, a walk
/// from the head passes every published node, newest first, and each
/// node once: as many distinct entries as were submitted, in whatever
/// order the steps of the submitters were taken.
pub proof fn lemma_drain<T>(r: RegistryView<T>)
    requires
        r.wf(),
        r.quiescent(),
    ensures
        r.visible().len() == r.order.len(),
        r.visible() == r.order.reverse(),
        r.visible().no_duplicates(),
{
    let n = r.order.len() as int;
    lemma_walk(r, n - 1);
    assert(r.visible() =~= r.order.reverse());
    assert forall|i: int, j: int| 0 <= i < n && 0 <= j < n && i != j implies r.visible()[i]
        != r.visible()[j] by {
        assert(r.visible()[i] == r.order[n - 1 - i]);
        assert(r.visible()[j] == r.order[n - 1 - j]);
    }
}

} // verus!
