use vstd::prelude::*;

verus! {

/// A handle naming one node of a [`Tree`]. The tree counts the strong
/// handles to each node: [`Tree::create_node`] and [`Tree::clone_handle`]
/// hand one out, [`Tree::drop_handle`] gives one up, and a node destroyed
/// stays destroyed, its slot never reused.
#[derive(Clone, Copy, Debug, PartialEq, Eq, Structural)]
pub struct NodeId {
    pub index: usize,
}

/// Abstract state of one node slot.
pub ghost struct NodeModel {
    pub value: i32,
    pub children: Seq<usize>,
    pub parent: Option<usize>,
    pub strong: nat,
}

struct Slot {
    value: i32,
    children: Vec<usize>,
    parent: Option<usize>,
    strong: usize,
}

/// An arena of nodes. Each node owns its children through strong counts;
/// the link to a parent is an observer that never keeps the parent alive.
pub struct Tree {
    slots: Vec<Slot>,
}

impl Slot {
    spec fn model(&self) -> NodeModel {
        NodeModel {
            value: self.value,
            children: self.children@,
            parent: self.parent,
            strong: self.strong as nat,
        }
    }
}

/// The back-reference of `n` resolved: the parent while it is alive, else nothing.
pub open spec fn resolve_parent(s: Seq<NodeModel>, n: NodeId) -> Option<NodeId> {
    match s[n.index as int].parent {
        Some(p) => if s[p as int].strong > 0 {
            Some(NodeId { index: p })
        } else {
            None
        },
        None => None,
    }
}

/// The children of `n` as handles, in attachment order.
pub open spec fn child_ids(s: Seq<NodeModel>, n: NodeId) -> Seq<NodeId> {
    s[n.index as int].children.map_values(|c: usize| NodeId { index: c })
}

/// A node that has just been created.
pub open spec fn fresh_node(value: i32) -> NodeModel {
    NodeModel { value, children: Seq::empty(), parent: None, strong: 1 }
}

/// The state after `child` is appended beneath `parent`.
pub open spec fn attached(before: Seq<NodeModel>, parent: NodeId, child: NodeId) -> Seq<NodeModel> {
    let p = parent.index as int;
    let c = child.index as int;
    let mid = before.update(
        p,
        NodeModel { children: before[p].children.push(child.index), ..before[p] },
    );
    mid.update(c, NodeModel { parent: Some(parent.index), strong: mid[c].strong + 1, ..mid[c] })
}

/// `order` lists node `d`.
pub open spec fn lists(order: Seq<usize>, d: int) -> bool {
    order.contains(d as usize)
}

/// How often `x` occurs in `s`.
pub open spec fn occurrences(s: Seq<usize>, x: usize) -> nat
    decreases s.len(),
{
    if s.len() == 0 {
        0
    } else {
        occurrences(s.drop_last(), x) + if s.last() == x {
            1nat
        } else {
            0nat
        }
    }
}

/// How many strong references to `x` the nodes of `order` held between them.
pub open spec fn held_by(before: Seq<NodeModel>, order: Seq<usize>, x: usize) -> nat
    decreases order.len(),
{
    if order.len() == 0 {
        0
    } else {
        held_by(before, order.drop_last(), x) + occurrences(before[order.last() as int].children, x)
    }
}

/// `a - k`, or zero where `k` exceeds `a`.
pub open spec fn saturating_sub(a: nat, k: int) -> nat {
    if a >= k {
        (a - k) as nat
    } else {
        0
    }
}

/// `order` lists, each once, the nodes destroyed between `before` and
/// `after` when one strong handle to `n` is given up; and each node has
/// lost one strong count for that handle (if it is `n`) and one for each
/// reference to it that a destroyed node held, down to zero.
pub open spec fn destruction_order(
    before: Seq<NodeModel>,
    after: Seq<NodeModel>,
    n: NodeId,
    order: Seq<usize>,
) -> bool {
    &&& order.no_duplicates()
    &&& forall|j: int| 0 <= j < order.len() ==> #[trigger] order[j] < before.len()
    &&& forall|d: int|
        0 <= d < before.len() ==> (lists(order, d) <==> (before[d].strong > 0
            && #[trigger] after[d].strong == 0))
    &&& forall|i: int|
        0 <= i < before.len() ==> #[trigger] after[i].strong == saturating_sub(
            before[i].strong,
            (if i == n.index {
                1int
            } else {
                0int
            }) + held_by(before, order, i as usize),
        )
}

/// What giving up one strong handle to `n` leaves: only strong counts
/// change, and they change as some order of destruction accounts for; in
/// particular `n` is destroyed when that was its last handle.
pub open spec fn dropped(before: Seq<NodeModel>, after: Seq<NodeModel>, n: NodeId) -> bool {
    &&& same_shape(before, after)
    &&& exists|order: Seq<usize>| destruction_order(before, after, n, order)
    &&& before[n.index as int].strong == 1 ==> after[n.index as int].strong == 0
}

/// The strong counts owed by `x` once the nodes of `log` are destroyed.
spec fn owed(before: Seq<NodeModel>, n: NodeId, log: Seq<usize>, x: int) -> int {
    (if x == n.index {
        1int
    } else {
        0int
    }) + held_by(before, log, x as usize)
}

/// Node `i` has lost exactly the strong counts owed so far, but for the
/// releases still waiting in `pending`.
spec fn accounted(
    before: Seq<NodeModel>,
    n: NodeId,
    log: Seq<usize>,
    pending: Seq<usize>,
    now: Seq<NodeModel>,
    i: int,
) -> bool {
    &&& occurrences(pending, i as usize) <= owed(before, n, log, i)
    &&& now[i].strong == saturating_sub(
        before[i].strong,
        owed(before, n, log, i) - occurrences(pending, i as usize),
    )
}

proof fn lemma_occurrences_concat(a: Seq<usize>, b: Seq<usize>, x: usize)
    ensures
        occurrences(a + b, x) == occurrences(a, x) + occurrences(b, x),
    decreases b.len(),
{
    if b.len() > 0 {
        assert((a + b).drop_last() =~= a + b.drop_last());
        lemma_occurrences_concat(a, b.drop_last(), x);
    } else {
        assert(a + b =~= a);
    }
}

/// Two arena states that differ in strong counts at most.
pub open spec fn same_shape(a: Seq<NodeModel>, b: Seq<NodeModel>) -> bool {
    &&& a.len() == b.len()
    &&& forall|i: int|
        #![trigger b[i]]
        0 <= i < a.len() ==> {
            &&& b[i].value == a[i].value
            &&& b[i].children == a[i].children
            &&& b[i].parent == a[i].parent
        }
}

/// The sum of all strong counts.
pub open spec fn total_strong(s: Seq<NodeModel>) -> nat
    decreases s.len(),
{
    if s.len() == 0 {
        0
    } else {
        total_strong(s.drop_last()) + s.last().strong
    }
}

proof fn lemma_total_strong_update(s: Seq<NodeModel>, i: int, v: nat)
    requires
        0 <= i < s.len(),
    ensures
        total_strong(s.update(i, NodeModel { strong: v, ..s[i] })) + s[i].strong == total_strong(s) + v,
    decreases s.len(),
{
    let u = s.update(i, NodeModel { strong: v, ..s[i] });
    if i == s.len() - 1 {
        assert(u.drop_last() =~= s.drop_last());
    } else {
        assert(u.drop_last() =~= s.drop_last().update(i, NodeModel { strong: v, ..s[i] }));
        lemma_total_strong_update(s.drop_last(), i, v);
    }
}

/// Every link of every node names a node of the arena.
pub open spec fn links_in_bounds(s: Seq<NodeModel>) -> bool {
    &&& forall|i: int, j: int|
        0 <= i < s.len() && 0 <= j < s[i].children.len() ==> #[trigger] s[i].children[j] < s.len()
    &&& forall|i: int| 0 <= i < s.len() ==> (#[trigger] s[i].parent matches Some(p) ==> p < s.len())
}

proof fn lemma_same_shape_wf(a: Seq<NodeModel>, b: Seq<NodeModel>)
    requires
        links_in_bounds(a),
        same_shape(a, b),
    ensures
        links_in_bounds(b),
{
    assert forall|i: int, j: int| 0 <= i < b.len() && 0 <= j < b[i].children.len() implies #[trigger] b[i].children[j] < b.len() by {
        assert(b[i].value == a[i].value);
    }
    assert forall|i: int| 0 <= i < b.len() implies (#[trigger] b[i].parent matches Some(p) ==> p < b.len()) by {
        assert(b[i].value == a[i].value);
    }
}

impl View for Tree {
    type V = Seq<NodeModel>;

    closed spec fn view(&self) -> Seq<NodeModel> {
        self.slots@.map_values(|s: Slot| s.model())
    }
}

impl Tree {
    /// Every link of every slot names a slot of the arena.
    pub open spec fn wf(&self) -> bool {
        links_in_bounds(self@)
    }

    /// A node is alive while some strong handle to it exists.
    pub open spec fn alive(&self, n: NodeId) -> bool {
        n.index < self@.len() && self@[n.index as int].strong > 0
    }

    /// What `get_parent` resolves the back-reference of `n` to.
    pub open spec fn parent_of(&self, n: NodeId) -> Option<NodeId> {
        resolve_parent(self@, n)
    }

    /// The children of `n`, in attachment order.
    pub open spec fn children_of(&self, n: NodeId) -> Seq<NodeId> {
        child_ids(self@, n)
    }

    /// The payload of `n`.
    pub open spec fn value_of(&self, n: NodeId) -> i32 {
        self@[n.index as int].value
    }

    pub fn new() -> (t: Tree)
        ensures
            t.wf(),
            t@.len() == 0,
    {
        Tree { slots: Vec::new() }
    }

    /// Allocates a standalone node: no parent, no children, one strong handle.
    pub fn create_node(&mut self, value: i32) -> (n: NodeId)
        requires
            old(self).wf(),
        ensures
            final(self).wf(),
            n.index == old(self)@.len(),
            final(self)@ == old(self)@.push(fresh_node(value)),
    {
        let n = NodeId { index: self.slots.len() };
        self.slots.push(Slot { value, children: Vec::new(), parent: None, strong: 1 });
        proof {
            assert(final(self)@ =~= old(self)@.push(fresh_node(value)));
        }
        n
    }
    /// Appends a strong reference to `child` to the children of `parent`, and
    /// points the back-reference of `child` at `parent`. A back-reference set
    /// earlier is overwritten.
    pub fn attach_child(&mut self, parent: NodeId, child: NodeId)
        requires
            old(self).wf(),
            old(self).alive(parent),
            old(self).alive(child),
            old(self)@[child.index as int].strong < usize::MAX,
        ensures
            final(self).wf(),
            final(self)@ == attached(old(self)@, parent, child),
    {
        self.slots[parent.index].children.push(child.index);
        self.slots[child.index].parent = Some(parent.index);
        self.slots[child.index].strong = self.slots[child.index].strong + 1;
        proof {
            assert(final(self)@ =~= attached(old(self)@, parent, child));
        }
    }

    /// Resolves the back-reference of `n`: absent for a root, and absent once
    /// the parent has been destroyed. The handle returned is not counted; a
    /// caller that wants to keep the parent alive takes one with
    /// [`Tree::clone_handle`].
    pub fn get_parent(&self, n: NodeId) -> (r: Option<NodeId>)
        requires
            self.wf(),
            n.index < self@.len(),
        ensures
            r == self.parent_of(n),
    {
        match self.slots[n.index].parent {
            Some(p) => if self.slots[p].strong > 0 {
                Some(NodeId { index: p })
            } else {
                None
            },
            None => None,
        }
    }

    /// The children of `n`, in the order they were attached. As with
    /// [`Tree::get_parent`], the handles returned are not counted.
    pub fn get_children(&self, n: NodeId) -> (r: Vec<NodeId>)
        requires
            self.wf(),
            n.index < self@.len(),
        ensures
            r@ == self.children_of(n),
    {
        let cs = &self.slots[n.index].children;
        let mut r: Vec<NodeId> = Vec::new();
        let mut i: usize = 0;
        while i < cs.len()
            invariant
                0 <= i <= cs@.len(),
                cs@ == self@[n.index as int].children,
                r@ == cs@.subrange(0, i as int).map_values(|c: usize| NodeId { index: c }),
            decreases cs@.len() - i,
        {
            r.push(NodeId { index: cs[i] });
            i = i + 1;
            proof {
                assert(r@ =~= cs@.subrange(0, i as int).map_values(|c: usize| NodeId { index: c }));
            }
        }
        proof {
            assert(cs@.subrange(0, cs@.len() as int) =~= cs@);
        }
        r
    }

    /// The payload of `n`.
    pub fn value(&self, n: NodeId) -> (r: i32)
        requires
            n.index < self@.len(),
        ensures
            r == self.value_of(n),
    {
        self.slots[n.index].value
    }

    /// Takes another strong handle to `n`, as cloning an owning pointer does.
    pub fn clone_handle(&mut self, n: NodeId) -> (r: NodeId)
        requires
            old(self).wf(),
            old(self).alive(n),
            old(self)@[n.index as int].strong < usize::MAX,
        ensures
            final(self).wf(),
            r == n,
            final(self)@ == old(self)@.update(
                n.index as int,
                NodeModel { strong: old(self)@[n.index as int].strong + 1, ..old(self)@[n.index as int] },
            ),
    {
        self.slots[n.index].strong = self.slots[n.index].strong + 1;
        proof {
            assert(final(self)@ =~= old(self)@.update(
                n.index as int,
                NodeModel { strong: old(self)@[n.index as int].strong + 1, ..old(self)@[n.index as int] },
            ));
        }
        n
    }

    /// Gives up one strong handle to `n`. When the last one goes, `n` is
    /// destroyed, and so, in turn, is every node that only its destroyed
    /// ancestors held.
    pub fn drop_handle(&mut self, n: NodeId)
        requires
            old(self).wf(),
            old(self).alive(n),
        ensures
            final(self).wf(),
            dropped(old(self)@, final(self)@, n),
    {
        let ghost before = self@;
        let ni = n.index;
        let slot_count = self.slots.len();
        assert(before.len() == slot_count);
        let s = self.slots[ni].strong - 1;
        self.slots[ni].strong = s;
        if s > 0 {
            proof {
                assert(self@ =~= before.update(
                    ni as int,
                    NodeModel { strong: (before[ni as int].strong - 1) as nat, ..before[ni as int] },
                ));
                lemma_same_shape_wf(before, self@);
                assert(destruction_order(before, self@, n, Seq::empty()));
            }
            return;
        }
        proof {
            assert(self@ =~= before.update(ni as int, NodeModel { strong: 0, ..before[ni as int] }));
            lemma_same_shape_wf(before, self@);
        }
        let mut pending: Vec<usize> = Vec::new();
        self.enqueue_children(ni, &mut pending);
        let ghost mut log: Seq<usize> = seq![ni];
        proof {
            assert(pending@ =~= Seq::<usize>::empty() + self@[ni as int].children);
            assert(log.drop_last() =~= Seq::<usize>::empty());
            assert forall|i: int| 0 <= i < before.len() implies #[trigger] accounted(before, n, log, pending@, self@, i) by {
                assert(held_by(before, Seq::<usize>::empty(), i as usize) == 0);
                assert(log.last() == ni);
                assert(held_by(before, log, i as usize) == occurrences(before[ni as int].children, i as usize));
            }
            assert forall|d: int| 0 <= d < before.len() implies (lists(log, d) <==> (
            before[d].strong > 0 && #[trigger] self@[d].strong == 0)) by {
                if d != ni {
                    assert(self@[d] == before[d]);
                    assert(log.len() == 1 && log[0] == ni);
                    assert(!log.contains(d as usize));
                } else {
                    assert(log[0] == ni);
                }
            }
            lemma_total_strong_update(before, ni as int, 0);
        }
        while pending.len() > 0
            invariant
                self.wf(),
                links_in_bounds(before),
                before.len() <= usize::MAX,
                ni < self@.len(),
                same_shape(before, self@),
                log.no_duplicates(),
                forall|j: int| 0 <= j < log.len() ==> #[trigger] log[j] < before.len(),
                forall|j: int| 0 <= j < pending@.len() ==> #[trigger] pending@[j] < self@.len(),
                forall|j: int| 0 <= j < log.len() ==> before[#[trigger] log[j] as int].strong > 0,
                forall|d: int| 0 <= d < before.len() && lists(log, d) ==> #[trigger] self@[d].strong == 0,
                forall|d: int|
                    0 <= d < before.len() && before[d].strong > 0 && #[trigger] self@[d].strong == 0
                        ==> lists(log, d),
                forall|i: int|
                    0 <= i < before.len() ==> #[trigger] accounted(before, n, log, pending@, self@, i),
            decreases total_strong(self@), pending@.len(),
        {
            let ghost queued = pending@;
            let ghost cur = self@;
            let c = pending.pop().unwrap();
            proof {
                assert(queued.drop_last() =~= pending@);
                assert(c == queued.last());
                assert forall|j: int| 0 <= j < pending@.len() implies #[trigger] pending@[j] < self@.len() by {
                    assert(pending@[j] == queued[j]);
                }
            }
            if self.slots[c].strong > 0 {
                let t = self.slots[c].strong - 1;
                self.slots[c].strong = t;
                proof {
                    assert(self@ =~= cur.update(c as int, NodeModel { strong: t as nat, ..cur[c as int] }));
                    lemma_same_shape_wf(before, self@);
                    lemma_total_strong_update(cur, c as int, t as nat);
                }
                if t == 0 {
                    let ghost popped = pending@;
                    let ghost old_log = log;
                    self.enqueue_children(c, &mut pending);
                    proof {
                        log = log.push(c);
                        assert(log.drop_last() =~= old_log);
                        assert(log.last() == c);
                        assert(cur[c as int].strong > 0);
                        assert(accounted(before, n, old_log, queued, cur, c as int));
                        assert(before[c as int].strong > 0);
                        assert(!lists(old_log, c as int));
                        assert(self@[c as int].children == before[c as int].children);
                        assert(pending@ == popped + before[c as int].children);
                        assert forall|i: int| 0 <= i < before.len() implies #[trigger] accounted(before, n, log, pending@, self@, i) by {
                            lemma_occurrences_concat(popped, before[c as int].children, i as usize);
                            assert(held_by(before, log, i as usize) == held_by(before, old_log, i as usize)
                                + occurrences(before[c as int].children, i as usize));
                            assert(occurrences(queued, i as usize) == occurrences(popped, i as usize) + if c == i as usize { 1nat } else { 0nat });
                            if i != c {
                                assert(self@[i] == cur[i]);
                                assert(accounted(before, n, old_log, queued, cur, i));
                            }
                        }
                        assert forall|d: int| 0 <= d < before.len() implies (lists(log, d) <==> (
                        before[d].strong > 0 && #[trigger] self@[d].strong == 0)) by {
                            if d != c {
                                assert(self@[d] == cur[d]);
                                assert(lists(old_log, d) <==> (before[d].strong > 0 && cur[d].strong == 0));
                                assert(lists(log, d) <==> lists(old_log, d)) by {
                                    if log.contains(d as usize) {
                                        let j = choose|j: int| 0 <= j < log.len() && log[j] == d as usize;
                                        assert(j != log.len() - 1);
                                        assert(log[j] == old_log[j]);
                                    }
                                    if old_log.contains(d as usize) {
                                        let j = choose|j: int| 0 <= j < old_log.len() && old_log[j] == d as usize;
                                        assert(log[j] == d as usize);
                                    }
                                }
                            } else {
                                assert(log[log.len() - 1] == c);
                            }
                        }
                        assert forall|j: int| 0 <= j < log.len() implies #[trigger] log[j] < before.len() by {
                            if j < old_log.len() {
                                assert(log[j] == old_log[j]);
                            }
                        }
                    }
                } else {
                    proof {
                        assert forall|i: int| 0 <= i < before.len() implies #[trigger] accounted(before, n, log, pending@, self@, i) by {
                            assert(occurrences(queued, i as usize) == occurrences(pending@, i as usize) + if c == i as usize { 1nat } else { 0nat });
                            assert(accounted(before, n, log, queued, cur, i));
                            if i != c {
                                assert(self@[i] == cur[i]);
                            }
                        }
                    }
                }
            } else {
                proof {
                    assert forall|i: int| 0 <= i < before.len() implies #[trigger] accounted(before, n, log, pending@, self@, i) by {
                        assert(occurrences(queued, i as usize) == occurrences(pending@, i as usize) + if c == i as usize { 1nat } else { 0nat });
                        assert(accounted(before, n, log, queued, cur, i));
                    }
                }
            }
        }
        proof {
            assert forall|i: int| 0 <= i < before.len() implies #[trigger] self@[i].strong == saturating_sub(
                before[i].strong,
                (if i == n.index {
                    1int
                } else {
                    0int
                }) + held_by(before, log, i as usize),
            ) by {
                assert(accounted(before, n, log, pending@, self@, i));
                assert(occurrences(pending@, i as usize) == 0);
            }
            assert(destruction_order(before, self@, n, log));
        }
    }

    /// Appends the children of `c` to `pending`.
    fn enqueue_children(&self, c: usize, pending: &mut Vec<usize>)
        requires
            self.wf(),
            c < self@.len(),
        ensures
            final(pending)@ == old(pending)@ + self@[c as int].children,
            forall|j: int| 0 <= j < final(pending)@.len() && old(pending)@.len() <= j ==> #[trigger] final(pending)@[j] < self@.len(),
    {
        let cs = &self.slots[c].children;
        let ghost start = pending@;
        let mut m: usize = 0;
        while m < cs.len()
            invariant
                0 <= m <= cs@.len(),
                cs@ == self@[c as int].children,
                self.wf(),
                c < self@.len(),
                pending@ == start + cs@.subrange(0, m as int),
            decreases cs@.len() - m,
        {
            pending.push(cs[m]);
            m = m + 1;
            proof {
                assert(pending@ =~= start + cs@.subrange(0, m as int));
            }
        }
        proof {
            assert(cs@.subrange(0, cs@.len() as int) =~= cs@);
            assert forall|j: int| 0 <= j < pending@.len() && start.len() <= j implies #[trigger] pending@[j] < self@.len() by {
                assert(pending@[j] == self@[c as int].children[j - start.len()]);
            }
        }
    }
}

} // verus!
