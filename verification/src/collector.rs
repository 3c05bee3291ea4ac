use crate::environment::{values_in, Environments, Scope};
use crate::heap::{
    address_of, below, header_marked, index_of, lemma_below_bounds, lemma_below_prefix,
    lemma_header_fields, swept, Heap, HeapObject, MARK_BIT,
};
use crate::value::Value;
use vstd::prelude::*;

verus! {

/// The keys and values of a table, each key followed by its value.
pub open spec fn flat_entries(m: Seq<(Value, Value)>) -> Seq<Value> {
    Seq::new(2 * m.len(), |k: int| if k % 2 == 0 { m[k / 2].0 } else { m[k / 2].1 })
}

/// The values that an object refers to: the two fields of a pair, the
/// elements of a vector, the keys and values of a table, the constants of a
/// closure and what the scopes that it captured bind.
pub open spec fn children(obj: HeapObject, scopes: Seq<Scope>) -> Seq<Value> {
    match obj {
        HeapObject::Pair(p) => seq![p.car, p.cdr],
        HeapObject::Vec(v) => v.vec@,
        HeapObject::HashMap(m) => flat_entries(m.map@),
        HeapObject::Lambda(l) => l.consts@ + values_in(scopes, l.env.id as int),
        _ => Seq::empty(),
    }
}

/// How many of the first `n` cells hold a live object that is not marked.
pub open spec fn unmarked_below(cells: Seq<HeapObject>, n: int) -> nat
    decreases n,
{
    if n <= 0 || n > cells.len() {
        0
    } else if cells[n - 1].live() && !cells[n - 1].marked() {
        1 + unmarked_below(cells, n - 1)
    } else {
        unmarked_below(cells, n - 1)
    }
}

/// How marking changes one cell: the payload stays, and a mark that was set
/// stays set.
pub open spec fn mark_kept(before: HeapObject, after: HeapObject) -> bool {
    after.same_payload(before) && (before.marked() ==> after.marked())
}

impl Heap {
    /// A chain of held values from `path[0]` on, each a child of the one
    /// before it.
    pub open spec fn is_path(&self, scopes: Seq<Scope>, path: Seq<Value>) -> bool {
        &&& path.len() > 0
        &&& forall|k: int| 0 <= k < path.len() ==> self.holds(#[trigger] path[k])
        &&& forall|k: int|
            0 <= k < path.len() - 1 ==> children(self.object_of(#[trigger] path[k]), scopes).contains(
                path[k + 1],
            )
    }

    /// Whether the object at `addr` can be reached from `root` through
    /// children.
    pub open spec fn reachable(&self, scopes: Seq<Scope>, root: Value, addr: u64) -> bool {
        exists|path: Seq<Value>|
            #[trigger] self.is_path(scopes, path) && path[0] == root && path.last().address()
                == addr
    }

    /// Whether every held child of every marked object is marked.
    pub open spec fn closed(&self, scopes: Seq<Scope>) -> bool {
        forall|i: int, k: int|
            0 <= i < self.cells@.len() && self.cells@[i].live() && self.cells@[i].marked() && 0 <= k
                < children(self.cells@[i], scopes).len() && self.holds(
                #[trigger] children(self.cells@[i], scopes)[k],
            ) ==> self.marked_at(children(self.cells@[i], scopes)[k].address())
    }

    /// The values that the object in cell `i` refers to.
    pub fn children_of(&self, arena: &Environments, i: usize) -> (out: Vec<Value>)
        requires
            i < self.cells@.len(),
            arena.wf(),
        ensures
            out@ == children(self.cells@[i as int], arena.scopes()),
    {
        let mut out: Vec<Value> = Vec::new();
        match &self.cells[i] {
            HeapObject::Pair(p) => {
                out.push(p.car);
                out.push(p.cdr);
                assert(out@ =~= seq![p.car, p.cdr]);
            },
            HeapObject::Vec(v) => {
                push_values(&mut out, &v.vec);
                assert(out@ =~= v.vec@);
            },
            HeapObject::HashMap(m) => {
                let mut k: usize = 0;
                while k < m.map.len()
                    invariant
                        k <= m.map@.len(),
                        out@ == flat_entries(m.map@.subrange(0, k as int)),
                    decreases m.map@.len() - k,
                {
                    out.push(m.map[k].0);
                    out.push(m.map[k].1);
                    k += 1;
                    assert(out@ =~= flat_entries(m.map@.subrange(0, k as int)));
                }
                assert(m.map@.subrange(0, k as int) =~= m.map@);
            },
            HeapObject::Lambda(l) => {
                push_values(&mut out, &l.consts);
                let bound = arena.values(l.env);
                push_values(&mut out, &bound);
                assert(out@ =~= l.consts@ + bound@);
            },
            _ => {},
        }
        out
    }

    /// Marks every object that can be reached from `root`. Only mark bits
    /// change. Each object marked here can be reached from `root`; and where
    /// the marked objects were closed under children before, they are so
    /// afterwards.
    pub fn mark(&mut self, arena: &Environments, root: Value)
        requires
            old(self).wf(),
            arena.wf(),
        ensures
            final(self).wf(),
            final(self).head == old(self).head,
            final(self).cells@.len() == old(self).cells@.len(),
            forall|i: int|
                0 <= i < old(self).cells@.len() ==> mark_kept(
                    #[trigger] old(self).cells@[i],
                    final(self).cells@[i],
                ),
            old(self).holds(root) ==> final(self).marked_at(root.address()),
            old(self).closed(arena.scopes()) ==> final(self).closed(arena.scopes()),
            forall|i: int|
                0 <= i < old(self).cells@.len() && (#[trigger] final(self).cells@[i]).marked()
                    && !old(self).cells@[i].marked() ==> old(self).reachable(
                    arena.scopes(),
                    root,
                    address_of(i),
                ),
    {
        let ghost before = *self;
        let ghost scopes = arena.scopes();
        let mut list: Vec<Value> = Vec::new();
        list.push(root);
        proof {
            assert(list@[0] == root);
            if before.holds(root) {
                lemma_reach_self(before, scopes, root);
            }
        }
        while list.len() > 0
            invariant
                self.wf(),
                arena.wf(),
                before.wf(),
                scopes == arena.scopes(),
                self.head == before.head,
                self.cells@.len() == before.cells@.len(),
                forall|i: int|
                    0 <= i < before.cells@.len() ==> mark_kept(
                        #[trigger] before.cells@[i],
                        self.cells@[i],
                    ),
                before.holds(root) ==> self.marked_at(root.address()) || list@.contains(root),
                before.closed(scopes) ==> forall|i: int, k: int|
                    0 <= i < self.cells@.len() && self.cells@[i].live() && self.cells@[i].marked()
                        && 0 <= k < children(self.cells@[i], scopes).len() && self.holds(
                        #[trigger] children(self.cells@[i], scopes)[k],
                    ) ==> self.marked_at(children(self.cells@[i], scopes)[k].address())
                        || list@.contains(children(self.cells@[i], scopes)[k]),
                forall|i: int|
                    0 <= i < before.cells@.len() && (#[trigger] self.cells@[i]).marked()
                        && !before.cells@[i].marked() ==> before.reachable(
                        scopes,
                        root,
                        address_of(i),
                    ),
                forall|j: int|
                    0 <= j < list@.len() && before.holds(#[trigger] list@[j]) ==> before.reachable(
                        scopes,
                        root,
                        list@[j].address(),
                    ),
            decreases unmarked_below(self.cells@, self.cells@.len() as int), list@.len(),
        {
            let ghost cells0 = self.cells@;
            let ghost list0 = list@;
            let cur: Value = list.pop().unwrap();
            assert(forall|x: Value| list0.contains(x) ==> x == cur || list@.contains(x)) by {
                assert forall|x: Value| list0.contains(x) implies x == cur || list@.contains(
                    x,
                ) by {
                    let j = choose|j: int| 0 <= j < list0.len() && list0[j] == x;
                    if j < list0.len() - 1 {
                        assert(list@[j] == x);
                    }
                }
            }
            if self.contains(cur) {
                let i: usize = self.cell_index(cur);
                let gc: u64 = self.header(i);
                assert(before.holds(cur));
                if gc & MARK_BIT != MARK_BIT {
                    let kids: Vec<Value> = self.children_of(arena, i);
                    proof {
                        let g = before.cells@[i as int].gc();
                        assert((g | 1) & 1 == 1) by (bit_vector);
                        lemma_below_bounds(cells0, i as int);
                        lemma_header_fields(cells0[i as int].kind(), below(cells0, i as int), false);
                        lemma_header_fields(cells0[i as int].kind(), below(cells0, i as int), true);
                    }
                    self.set_gc(cur.to_pointer(), gc | MARK_BIT);
                    let ghost rest = list@;
                    push_values(&mut list, &kids);
                    proof {
                        assert forall|j: int| 0 <= j <= self.cells@.len() implies below(
                            self.cells@,
                            j,
                        ) == below(cells0, j) by {
                            lemma_below_prefix(self.cells@, cells0, j);
                        }
                        lemma_unmarked_after_mark(cells0, i as int, self.cells@.len() as int);
                        assert forall|x: Value| rest.contains(x) implies list@.contains(x) by {
                            let j = choose|j: int| 0 <= j < rest.len() && rest[j] == x;
                            assert(list@[j] == x);
                        }
                        assert forall|k: int| 0 <= k < kids@.len() implies list@.contains(
                            #[trigger] kids@[k],
                        ) by {
                            assert(list@[rest.len() + k] == kids@[k]);
                        }
                        assert forall|m: int| 0 <= m < self.cells@.len() implies children(
                            #[trigger] self.cells@[m],
                            scopes,
                        ) == children(before.cells@[m], scopes) by {
                            lemma_same_payload(self.cells@[m], before.cells@[m], scopes);
                        }
                        assert forall|m: int| 0 <= m < self.cells@.len() implies children(
                            #[trigger] cells0[m],
                            scopes,
                        ) == children(before.cells@[m], scopes) by {
                            lemma_same_payload(cells0[m], before.cells@[m], scopes);
                        }
                        lemma_same_payload(cells0[i as int], before.cells@[i as int], scopes);
                        assert forall|j: int|
                            0 <= j < list@.len() && before.holds(
                                #[trigger] list@[j],
                            ) implies before.reachable(scopes, root, list@[j].address()) by {
                            if j >= rest.len() {
                                let k = j - rest.len();
                                assert(list@[j] == kids@[k]);
                                assert(children(before.object_at(cur.address()), scopes).contains(
                                    kids@[k],
                                ));
                                lemma_reach_step(before, scopes, root, cur.address(), kids@[k]);
                            } else {
                                assert(list@[j] == rest[j]);
                                assert(list0[j] == rest[j]);
                            }
                        }
                    }
                }
            }
        }
    }

    /// Whether the object at `addr` can be reached from one of `roots`.
    pub open spec fn reachable_any(&self, scopes: Seq<Scope>, roots: Seq<Value>, addr: u64) -> bool {
        exists|j: int| 0 <= j < roots.len() && #[trigger] self.reachable(scopes, roots[j], addr)
    }

    /// Whether no object is marked.
    pub open spec fn unmarked(&self) -> bool {
        forall|i: int| 0 <= i < self.cells@.len() ==> !(#[trigger] self.cells@[i]).marked()
    }

    /// Marks every object that can be reached from one of `roots`.
    pub fn mark_all(&mut self, arena: &Environments, roots: &Vec<Value>)
        requires
            old(self).wf(),
            arena.wf(),
        ensures
            final(self).wf(),
            final(self).head == old(self).head,
            final(self).cells@.len() == old(self).cells@.len(),
            forall|i: int|
                0 <= i < old(self).cells@.len() ==> mark_kept(
                    #[trigger] old(self).cells@[i],
                    final(self).cells@[i],
                ),
            forall|j: int|
                0 <= j < roots@.len() && old(self).holds(#[trigger] roots@[j])
                    ==> final(self).marked_at(roots@[j].address()),
            old(self).closed(arena.scopes()) ==> final(self).closed(arena.scopes()),
            forall|i: int|
                0 <= i < old(self).cells@.len() && (#[trigger] final(self).cells@[i]).marked()
                    && !old(self).cells@[i].marked() ==> old(self).reachable_any(
                    arena.scopes(),
                    roots@,
                    address_of(i),
                ),
    {
        let ghost before = *self;
        let ghost scopes = arena.scopes();
        let mut n: usize = 0;
        while n < roots.len()
            invariant
                n <= roots@.len(),
                self.wf(),
                arena.wf(),
                scopes == arena.scopes(),
                self.head == before.head,
                self.cells@.len() == before.cells@.len(),
                forall|i: int|
                    0 <= i < before.cells@.len() ==> mark_kept(
                        #[trigger] before.cells@[i],
                        self.cells@[i],
                    ),
                forall|j: int|
                    0 <= j < n && before.holds(#[trigger] roots@[j]) ==> self.marked_at(
                        roots@[j].address(),
                    ),
                before.closed(scopes) ==> self.closed(scopes),
                forall|i: int|
                    0 <= i < before.cells@.len() && (#[trigger] self.cells@[i]).marked()
                        && !before.cells@[i].marked() ==> before.reachable_any(
                        scopes,
                        roots@,
                        address_of(i),
                    ),
            decreases roots@.len() - n,
        {
            let ghost mid = *self;
            self.mark(arena, roots[n]);
            proof {
                assert forall|v: Value| mid.holds(v) == before.holds(v) by {
                    if v.spec_is_heap() && mid.live_at(v.address()) {
                        lemma_same_payload(
                            mid.object_at(v.address()),
                            before.object_at(v.address()),
                            scopes,
                        );
                    }
                    if v.spec_is_heap() && before.live_at(v.address()) {
                        lemma_same_payload(
                            mid.object_at(v.address()),
                            before.object_at(v.address()),
                            scopes,
                        );
                    }
                }
                assert forall|i: int|
                    0 <= i < before.cells@.len() && (#[trigger] self.cells@[i]).marked()
                        && !before.cells@[i].marked() implies before.reachable_any(
                    scopes,
                    roots@,
                    address_of(i),
                ) by {
                    if !mid.cells@[i].marked() {
                        lemma_reach_same(mid, before, scopes, roots@[n as int], address_of(i));
                        assert(before.reachable(scopes, roots@[n as int], address_of(i)));
                    }
                }
            }
            n += 1;
        }
    }

    /// One collection: marks what can be reached from `roots`, then sweeps.
    /// An object survives, with its payload and unmarked, exactly if it can
    /// be reached from one of the roots; every other cell is free afterwards.
    pub fn collect(&mut self, arena: &Environments, roots: &Vec<Value>)
        requires
            old(self).wf(),
            old(self).unmarked(),
            arena.wf(),
        ensures
            final(self).wf(),
            final(self).unmarked(),
            final(self).cells@.len() == old(self).cells@.len(),
            forall|i: int|
                0 <= i < old(self).cells@.len() ==> (if (#[trigger] old(self).cells@[i]).live()
                    && old(self).reachable_any(arena.scopes(), roots@, address_of(i)) {
                    final(self).cells@[i].live() && final(self).cells@[i].same_payload(
                        old(self).cells@[i],
                    )
                } else {
                    final(self).cells@[i] is Free
                }),
    {
        let ghost before = *self;
        let ghost scopes = arena.scopes();
        self.mark_all(arena, roots);
        let ghost mid = *self;
        self.sweep();
        proof {
            assert forall|i: int| 0 <= i < before.cells@.len() implies (if (
            #[trigger] before.cells@[i]).live() && before.reachable_any(
                scopes,
                roots@,
                address_of(i),
            ) {
                self.cells@[i].live() && self.cells@[i].same_payload(before.cells@[i])
            } else {
                self.cells@[i] is Free
            }) by {
                lemma_same_payload(mid.cells@[i], before.cells@[i], scopes);
                assert(swept(mid.cells@[i], self.cells@[i]));
                assert(index_of(address_of(i)) == i);
                if before.cells@[i].live() && before.reachable_any(scopes, roots@, address_of(i)) {
                    let j = choose|j: int|
                        0 <= j < roots@.len() && #[trigger] before.reachable(
                            scopes,
                            roots@[j],
                            address_of(i),
                        );
                    lemma_reach_same(before, mid, scopes, roots@[j], address_of(i));
                    let path = choose|path: Seq<Value>|
                        #[trigger] mid.is_path(scopes, path) && path[0] == roots@[j]
                            && path.last().address() == address_of(i);
                    assert(mid.holds(path[0]));
                    lemma_same_payload(
                        mid.object_at(path[0].address()),
                        before.object_at(path[0].address()),
                        scopes,
                    );
                    assert(before.holds(roots@[j]));
                    lemma_closed_path(mid, scopes, path);
                }
            }
        }
    }
}

/// Appends `items` to `list`.
pub fn push_values(list: &mut Vec<Value>, items: &Vec<Value>)
    ensures
        final(list)@ == old(list)@ + items@,
{
    let mut k: usize = 0;
    while k < items.len()
        invariant
            k <= items@.len(),
            list@ == old(list)@ + items@.subrange(0, k as int),
        decreases items@.len() - k,
    {
        list.push(items[k]);
        k += 1;
    }
    assert(items@.subrange(0, k as int) == items@);
}

/// Objects with the same payload are of one kind and have the same children.
pub proof fn lemma_same_payload(a: HeapObject, b: HeapObject, scopes: Seq<Scope>)
    requires
        a.same_payload(b),
    ensures
        a.live() == b.live(),
        a.kind() == b.kind(),
        children(a, scopes) == children(b, scopes),
{
    match a {
        HeapObject::Lambda(x) => {
            assert(a.with_gc(0)->Lambda_0.consts == x.consts);
        },
        HeapObject::Pair(x) => {
            assert(a.with_gc(0)->Pair_0.car == x.car);
        },
        HeapObject::Vec(x) => {
            assert(a.with_gc(0)->Vec_0.vec == x.vec);
        },
        HeapObject::HashMap(x) => {
            assert(a.with_gc(0)->HashMap_0.map == x.map);
        },
        _ => {},
    }
}

/// A held value is reachable from itself.
pub proof fn lemma_reach_self(h: Heap, scopes: Seq<Scope>, root: Value)
    requires
        h.holds(root),
    ensures
        h.reachable(scopes, root, root.address()),
{
    let path = seq![root];
    assert(h.is_path(scopes, path));
    assert(path[0] == root && path.last().address() == root.address());
}

/// A held child of a reachable object is reachable.
pub proof fn lemma_reach_step(h: Heap, scopes: Seq<Scope>, root: Value, addr: u64, child: Value)
    requires
        h.reachable(scopes, root, addr),
        children(h.object_at(addr), scopes).contains(child),
        h.holds(child),
    ensures
        h.reachable(scopes, root, child.address()),
{
    let path = choose|path: Seq<Value>|
        #[trigger] h.is_path(scopes, path) && path[0] == root && path.last().address() == addr;
    let longer = path.push(child);
    assert forall|k: int| 0 <= k < longer.len() - 1 implies children(
        h.object_of(#[trigger] longer[k]),
        scopes,
    ).contains(longer[k + 1]) by {
        if k < path.len() - 1 {
            assert(longer[k] == path[k]);
            assert(longer[k + 1] == path[k + 1]);
        }
    }
    assert(h.is_path(scopes, longer));
    assert(longer[0] == root && longer.last().address() == child.address());
}

/// Reachability depends on the payloads only, not on the headers.
pub proof fn lemma_reach_same(h1: Heap, h2: Heap, scopes: Seq<Scope>, root: Value, addr: u64)
    requires
        h1.cells@.len() == h2.cells@.len(),
        forall|i: int| 0 <= i < h1.cells@.len() ==> (#[trigger] h1.cells@[i]).same_payload(h2.cells@[i]),
        h1.reachable(scopes, root, addr),
    ensures
        h2.reachable(scopes, root, addr),
{
    let path = choose|path: Seq<Value>|
        #[trigger] h1.is_path(scopes, path) && path[0] == root && path.last().address() == addr;
    assert forall|k: int| 0 <= k < path.len() implies h2.holds(#[trigger] path[k]) && children(
        h2.object_of(path[k]),
        scopes,
    ) == children(h1.object_of(path[k]), scopes) by {
        assert(h1.holds(path[k]));
        lemma_same_payload(h1.object_of(path[k]), h2.object_of(path[k]), scopes);
    }
    assert(h2.is_path(scopes, path));
}

/// Where the marked objects are closed under children, a path that starts at
/// a marked object ends at a marked object.
pub proof fn lemma_closed_path(h: Heap, scopes: Seq<Scope>, path: Seq<Value>)
    requires
        h.closed(scopes),
        h.is_path(scopes, path),
        h.marked_at(path[0].address()),
    ensures
        h.marked_at(path.last().address()),
    decreases path.len(),
{
    if path.len() > 1 {
        let shorter = path.drop_last();
        assert(h.is_path(scopes, shorter)) by {
            assert forall|k: int| 0 <= k < shorter.len() implies h.holds(
                #[trigger] shorter[k],
            ) by {
                assert(shorter[k] == path[k]);
            }
            assert forall|k: int| 0 <= k < shorter.len() - 1 implies children(
                h.object_of(#[trigger] shorter[k]),
                scopes,
            ).contains(shorter[k + 1]) by {
                assert(shorter[k] == path[k]);
                assert(shorter[k + 1] == path[k + 1]);
            }
        }
        assert(shorter[0] == path[0]);
        lemma_closed_path(h, scopes, shorter);
        let m = path.len() - 2;
        assert(shorter.last() == path[m]);
        let parent = path[m];
        assert(h.holds(parent));
        let kids = children(h.object_of(parent), scopes);
        assert(kids.contains(path[m + 1]));
        let k = choose|k: int| 0 <= k < kids.len() && kids[k] == path[m + 1];
        let i = index_of(parent.address());
        assert(h.cells@[i] == h.object_of(parent));
        assert(h.holds(children(h.cells@[i], scopes)[k]));
    }
}

/// Where the marked objects are closed under children and a held root is
/// marked, every object that can be reached from the root is marked.
pub proof fn lemma_reachable_is_marked(h: Heap, scopes: Seq<Scope>, root: Value, addr: u64)
    requires
        h.closed(scopes),
        h.marked_at(root.address()),
        h.reachable(scopes, root, addr),
    ensures
        h.marked_at(addr),
{
    let path = choose|path: Seq<Value>|
        #[trigger] h.is_path(scopes, path) && path[0] == root && path.last().address() == addr;
    lemma_closed_path(h, scopes, path);
}

/// Marking one unmarked live object lowers the number of unmarked objects.
pub proof fn lemma_unmarked_after_mark(cells: Seq<HeapObject>, i: int, n: int)
    requires
        0 <= i < cells.len(),
        0 <= n <= cells.len(),
        cells[i].live(),
        !cells[i].marked(),
        header_marked(cells[i].gc() | MARK_BIT),
    ensures
        unmarked_below(cells.update(i, cells[i].with_gc(cells[i].gc() | MARK_BIT)), n) + (if i < n {
            1nat
        } else {
            0nat
        }) == unmarked_below(cells, n),
    decreases n,
{
    if n > 0 {
        lemma_unmarked_after_mark(cells, i, n - 1);
    }
}

} // verus!
