use crate::environment::Environment;
use crate::value::{VType, Value};
use num::BigInt;
use vstd::prelude::*;

verus! {

/// The lowest bit of a header: set while the object is marked.
pub const MARK_BIT: u64 = 1;

/// The bits of a header that hold the address of the next object.
pub const NEXT_MASK: u64 = 0x0000_7FFF_FFFF_FFF8;

/// Addresses stay below this bound, so that a pointer keeps them unchanged.
pub const ADDRESS_LIMIT: u64 = 0x0000_7FFF_FFFF_FFF0;

/// A closure: its captured scope, its code (opaque here) and its constants.
pub struct Lambda {
    pub gc: u64,
    pub env: Environment,
    pub code: Vec<u8>,
    pub consts: Vec<Value>,
}

pub struct Pair {
    pub gc: u64,
    pub car: Value,
    pub cdr: Value,
}

pub struct SString {
    pub gc: u64,
    pub str: String,
}

pub struct SVec {
    pub gc: u64,
    pub vec: Vec<Value>,
}

/// A table from values to values, as the list of its entries.
pub struct SHashMap {
    pub gc: u64,
    pub map: Vec<(Value, Value)>,
}

pub struct SBigInt {
    pub gc: u64,
    pub num: BigInt,
}

impl Lambda {
    pub fn new(gc: u64, env: Environment, code: Vec<u8>, consts: Vec<Value>) -> (r: Self)
        ensures
            r.gc == gc,
            r.env == env,
            r.code == code,
            r.consts == consts,
    {
        Lambda { gc, env, code, consts }
    }
}

impl Pair {
    pub fn new(gc: u64, car: Value, cdr: Value) -> (r: Self)
        ensures
            r.gc == gc,
            r.car == car,
            r.cdr == cdr,
    {
        Pair { gc, car, cdr }
    }
}

impl SString {
    pub fn new(gc: u64, s: String) -> (r: Self)
        ensures
            r.gc == gc,
            r.str == s,
    {
        SString { gc, str: s }
    }
}

impl SVec {
    pub fn new(gc: u64, v: Vec<Value>) -> (r: Self)
        ensures
            r.gc == gc,
            r.vec == v,
    {
        SVec { gc, vec: v }
    }
}

/// The value of the first entry whose key is `key`.
pub open spec fn entry_of(map: Seq<(Value, Value)>, key: Value) -> Option<Value>
    decreases map.len(),
{
    if map.len() == 0 {
        None
    } else if map[0].0 == key {
        Some(map[0].1)
    } else {
        entry_of(map.skip(1), key)
    }
}

impl SHashMap {
    pub fn new(gc: u64, m: Vec<(Value, Value)>) -> (r: Self)
        ensures
            r.gc == gc,
            r.map == m,
    {
        SHashMap { gc, map: m }
    }

    /// The table as a mapping: a key is compared as a word, and of two
    /// entries with one key the first counts.
    pub open spec fn view(&self) -> Map<Value, Value> {
        Map::new(
            |k: Value| entry_of(self.map@, k) is Some,
            |k: Value| entry_of(self.map@, k).unwrap(),
        )
    }

    /// The value that the table holds for `key`.
    pub fn get(&self, key: Value) -> (r: Option<Value>)
        ensures
            r == entry_of(self.map@, key),
            r is Some <==> self@.contains_key(key),
            r is Some ==> r.unwrap() == self@[key],
    {
        let mut i: usize = 0;
        assert(self.map@.skip(0) =~= self.map@);
        while i < self.map.len()
            invariant
                i <= self.map@.len(),
                entry_of(self.map@, key) == entry_of(self.map@.skip(i as int), key),
            decreases self.map@.len() - i,
        {
            let entry = self.map[i];
            assert(self.map@.skip(i as int)[0] == self.map@[i as int]);
            assert(self.map@.skip(i as int).skip(1) =~= self.map@.skip(i + 1));
            if entry.0 == key {
                return Some(entry.1);
            }
            i += 1;
        }
        None
    }
}

/// What one cell of the heap holds.
pub enum HeapObject {
    Free,
    Lambda(Lambda),
    Pair(Pair),
    Vec(SVec),
    String(SString),
    HashMap(SHashMap),
    BigInt(SBigInt),
}

/// The number that stands for a kind in the top byte of a header.
pub open spec fn type_code(t: VType) -> u64 {
    match t {
        VType::Void => 0,
        VType::Nil => 1,
        VType::Bool => 2,
        VType::Integer => 3,
        VType::Float => 4,
        VType::Symbol => 5,
        VType::Lambda => 6,
        VType::Pair => 7,
        VType::Vec => 8,
        VType::String => 9,
        VType::HashMap => 10,
        VType::BigInt => 11,
    }
}

impl VType {
    /// The number that stands for this kind in a header.
    pub fn code(self) -> (c: u64)
        ensures
            c == type_code(self),
    {
        match self {
            VType::Void => 0,
            VType::Nil => 1,
            VType::Bool => 2,
            VType::Integer => 3,
            VType::Float => 4,
            VType::Symbol => 5,
            VType::Lambda => 6,
            VType::Pair => 7,
            VType::Vec => 8,
            VType::String => 9,
            VType::HashMap => 10,
            VType::BigInt => 11,
        }
    }

    /// The kind that a number stands for in a header, if it stands for one.
    pub fn from_code(p: u64) -> (t: Option<VType>)
        ensures
            p <= 11 <==> t is Some,
            t is Some ==> type_code(t.unwrap()) == p,
    {
        if p == 0 {
            Some(VType::Void)
        } else if p == 1 {
            Some(VType::Nil)
        } else if p == 2 {
            Some(VType::Bool)
        } else if p == 3 {
            Some(VType::Integer)
        } else if p == 4 {
            Some(VType::Float)
        } else if p == 5 {
            Some(VType::Symbol)
        } else if p == 6 {
            Some(VType::Lambda)
        } else if p == 7 {
            Some(VType::Pair)
        } else if p == 8 {
            Some(VType::Vec)
        } else if p == 9 {
            Some(VType::String)
        } else if p == 10 {
            Some(VType::HashMap)
        } else if p == 11 {
            Some(VType::BigInt)
        } else {
            None
        }
    }
}

/// The header of an object of kind `t` whose successor in the object list is at
/// `next` (0 for none).
pub open spec fn header_word(t: VType, next: u64, marked: bool) -> u64 {
    (type_code(t) << 56) | (next & NEXT_MASK) | (if marked { 1u64 } else { 0u64 })
}

pub open spec fn header_next(gc: u64) -> u64 {
    gc & NEXT_MASK
}

pub open spec fn header_marked(gc: u64) -> bool {
    gc & MARK_BIT == MARK_BIT
}

pub open spec fn header_code(gc: u64) -> u64 {
    gc >> 56
}

/// The address of the cell with index `i`.
pub open spec fn address_of(i: int) -> u64 {
    (8 * (i + 1)) as u64
}

/// The index of the cell at address `a`.
pub open spec fn index_of(a: u64) -> int {
    a as int / 8 - 1
}

impl HeapObject {
    pub open spec fn live(self) -> bool {
        !(self is Free)
    }

    pub open spec fn gc(self) -> u64 {
        match self {
            HeapObject::Free => 0,
            HeapObject::Lambda(o) => o.gc,
            HeapObject::Pair(o) => o.gc,
            HeapObject::Vec(o) => o.gc,
            HeapObject::String(o) => o.gc,
            HeapObject::HashMap(o) => o.gc,
            HeapObject::BigInt(o) => o.gc,
        }
    }

    pub open spec fn kind(self) -> VType {
        match self {
            HeapObject::Free => VType::Void,
            HeapObject::Lambda(_) => VType::Lambda,
            HeapObject::Pair(_) => VType::Pair,
            HeapObject::Vec(_) => VType::Vec,
            HeapObject::String(_) => VType::String,
            HeapObject::HashMap(_) => VType::HashMap,
            HeapObject::BigInt(_) => VType::BigInt,
        }
    }

    /// The object with another header and the same payload.
    pub open spec fn with_gc(self, gc: u64) -> HeapObject {
        match self {
            HeapObject::Free => HeapObject::Free,
            HeapObject::Lambda(o) => HeapObject::Lambda(Lambda { gc, ..o }),
            HeapObject::Pair(o) => HeapObject::Pair(Pair { gc, ..o }),
            HeapObject::Vec(o) => HeapObject::Vec(SVec { gc, ..o }),
            HeapObject::String(o) => HeapObject::String(SString { gc, ..o }),
            HeapObject::HashMap(o) => HeapObject::HashMap(SHashMap { gc, ..o }),
            HeapObject::BigInt(o) => HeapObject::BigInt(SBigInt { gc, ..o }),
        }
    }

    pub open spec fn marked(self) -> bool {
        header_marked(self.gc())
    }

    /// Two objects with the same payload, whatever their headers.
    pub open spec fn same_payload(self, other: HeapObject) -> bool {
        self.with_gc(0) == other.with_gc(0)
    }
}

/// The address of the nearest live cell below index `i`, or 0.
pub open spec fn below(cells: Seq<HeapObject>, i: int) -> u64
    decreases i,
{
    if i <= 0 || i > cells.len() {
        0
    } else if cells[i - 1].live() {
        address_of(i - 1)
    } else {
        below(cells, i - 1)
    }
}

/// The addresses of the live cells below index `i`, highest first.
pub open spec fn live_below(cells: Seq<HeapObject>, i: int) -> Seq<u64>
    decreases i,
{
    if i <= 0 || i > cells.len() {
        Seq::empty()
    } else if cells[i - 1].live() {
        seq![address_of(i - 1)] + live_below(cells, i - 1)
    } else {
        live_below(cells, i - 1)
    }
}

/// The addresses met by following the headers' links from `addr`, as long as
/// they lead to live cells at ever lower addresses.
pub open spec fn chain_from(cells: Seq<HeapObject>, addr: u64) -> Seq<u64>
    decreases addr,
{
    if addr < 8 || addr % 8 != 0 || index_of(addr) >= cells.len() || !cells[index_of(addr)].live() {
        Seq::empty()
    } else {
        let next = header_next(cells[index_of(addr)].gc());
        if next < addr {
            seq![addr] + chain_from(cells, next)
        } else {
            seq![addr]
        }
    }
}

/// How sweeping changes one cell: a marked object stays, unmarked and with its
/// payload; every other cell is free afterwards.
pub open spec fn swept(before: HeapObject, after: HeapObject) -> bool {
    if before.live() && before.marked() {
        after.live() && !after.marked() && after.same_payload(before)
    } else {
        after is Free
    }
}

/// The heap: every object ever allocated sits in a cell of its own and never
/// moves; the live ones are threaded into one list through their headers.
pub struct Heap {
    pub cells: Vec<HeapObject>,
    pub head: u64,
}

impl Heap {
    /// The well-formedness of the heap: addresses fit into a pointer, the head
    /// is the most recent live object, and each live object's header holds
    /// its own kind and the address of the nearest older live object.
    pub open spec fn wf(self) -> bool {
        &&& 8 * (self.cells@.len() + 1) <= ADDRESS_LIMIT
        &&& self.head == below(self.cells@, self.cells@.len() as int)
        &&& forall|i: int|
            0 <= i < self.cells@.len() && (#[trigger] self.cells@[i]).live() ==> self.cells@[i].gc()
                == header_word(
                self.cells@[i].kind(),
                below(self.cells@, i),
                self.cells@[i].marked(),
            )
    }

    /// Whether `addr` is the address of a live object.
    pub open spec fn live_at(self, addr: u64) -> bool {
        addr >= 8 && addr % 8 == 0 && index_of(addr) < self.cells@.len()
            && self.cells@[index_of(addr)].live()
    }

    /// The object at a live address.
    pub open spec fn object_at(self, addr: u64) -> HeapObject {
        self.cells@[index_of(addr)]
    }

    /// Whether `v` refers to a live object of its own kind.
    pub open spec fn holds(self, v: Value) -> bool {
        v.spec_is_heap() && self.live_at(v.address()) && self.object_at(v.address()).kind()
            == v.kind().unwrap()
    }

    /// The object that `v` refers to.
    pub open spec fn object_of(self, v: Value) -> HeapObject {
        self.object_at(v.address())
    }

    /// The global object list: the addresses of the objects met from the head
    /// on, most recent first.
    pub open spec fn object_list(self) -> Seq<u64> {
        chain_from(self.cells@, self.head)
    }

    /// Whether the object at `addr` is marked.
    pub open spec fn marked_at(self, addr: u64) -> bool {
        self.live_at(addr) && self.object_at(addr).marked()
    }

    pub open spec fn spec_has_room(&self) -> bool {
        8 * (self.cells@.len() + 2) <= ADDRESS_LIMIT
    }

    /// Whether `n` more objects can be allocated.
    pub open spec fn room_for(&self, n: int) -> bool {
        8 * (self.cells@.len() + n + 1) <= ADDRESS_LIMIT
    }

    /// Whether `n` more objects can be allocated.
    pub fn has_room_for(&self, n: u64) -> (r: bool)
        ensures
            r == self.room_for(n as int),
    {
        let limit: u64 = 0x0000_0FFF_FFFF_FFFD;
        let used: u64 = self.cells.len() as u64;
        used <= limit && n <= limit - used
    }

    pub fn new() -> (h: Heap)
        ensures
            h.wf(),
            h.cells@.len() == 0,
            h.head == 0,
            h.object_list() == Seq::<u64>::empty(),
    {
        Heap { cells: Vec::new(), head: 0 }
    }

    /// Whether one more object can be allocated.
    #[verifier::when_used_as_spec(spec_has_room)]
    pub fn has_room(&self) -> (r: bool)
        ensures
            r == self.spec_has_room(),
    {
        self.cells.len() as u64 <= 0x0000_0FFF_FFFF_FFFC
    }

    /// The address of the most recently allocated live object, or 0.
    pub fn get_head(&self) -> (p: u64)
        ensures
            p == self.head,
    {
        self.head
    }

    /// The header of the object in cell `i` (0 for a free cell).
    pub fn header(&self, i: usize) -> (gc: u64)
        requires
            i < self.cells@.len(),
        ensures
            gc == self.cells@[i as int].gc(),
    {
        match &self.cells[i] {
            HeapObject::Free => 0,
            HeapObject::Lambda(o) => o.gc,
            HeapObject::Pair(o) => o.gc,
            HeapObject::Vec(o) => o.gc,
            HeapObject::String(o) => o.gc,
            HeapObject::HashMap(o) => o.gc,
            HeapObject::BigInt(o) => o.gc,
        }
    }

    /// Whether `addr` is the address of a live object.
    pub fn is_live(&self, addr: u64) -> (r: bool)
        ensures
            r == self.live_at(addr),
    {
        if addr < 8 || addr % 8 != 0 {
            return false;
        }
        let i: u64 = addr / 8 - 1;
        if i >= self.cells.len() as u64 {
            return false;
        }
        match &self.cells[i as usize] {
            HeapObject::Free => false,
            _ => true,
        }
    }

    /// Replaces the header of the live object at `p` by `gc`; its payload and
    /// every other cell stay as they are.
    pub fn set_gc(&mut self, p: u64, gc: u64)
        requires
            old(self).live_at(p),
        ensures
            final(self).head == old(self).head,
            final(self).cells@ == old(self).cells@.update(
                index_of(p),
                old(self).cells@[index_of(p)].with_gc(gc),
            ),
    {
        let n: usize = self.cells.len();
        let q: u64 = p / 8 - 1;
        assert(q as int == index_of(p) && q < n);
        let i: usize = q as usize;
        match &mut self.cells[i] {
            HeapObject::Free => {},
            HeapObject::Lambda(o) => {
                o.gc = gc;
            },
            HeapObject::Pair(o) => {
                o.gc = gc;
            },
            HeapObject::Vec(o) => {
                o.gc = gc;
            },
            HeapObject::String(o) => {
                o.gc = gc;
            },
            HeapObject::HashMap(o) => {
                o.gc = gc;
            },
            HeapObject::BigInt(o) => {
                o.gc = gc;
            },
        }
        assert(self.cells@ =~= old(self).cells@.update(
            index_of(p),
            old(self).cells@[index_of(p)].with_gc(gc),
        ));
    }

    /// The header of a fresh, unmarked object of kind `t` that is linked in
    /// front of the object at `next`.
    pub fn make_header(t: VType, next: u64) -> (gc: u64)
        ensures
            gc == header_word(t, next, false),
    {
        let code: u64 = t.code();
        (code << 56) | (next & NEXT_MASK) | 0
    }

    /// Puts a new object into a fresh cell and makes it the head of the list.
    pub fn publish(&mut self, obj: HeapObject) -> (addr: u64)
        requires
            old(self).wf(),
            old(self).spec_has_room(),
            obj.live(),
            obj.gc() == header_word(obj.kind(), old(self).head, false),
        ensures
            final(self).wf(),
            final(self).spec_allocated(*old(self), addr, obj),
            addr <= ADDRESS_LIMIT,
            old(self).unmarked() ==> final(self).unmarked(),
    {
        let addr: u64 = 8 * (self.cells.len() as u64 + 1);
        proof {
            lemma_below_prefix(
                old(self).cells@,
                old(self).cells@.push(obj),
                old(self).cells@.len() as int,
            );
            lemma_below_bounds(old(self).cells@, old(self).cells@.len() as int);
            lemma_header_fields(obj.kind(), old(self).head, false);
            lemma_list_is_live(*old(self));
            assert forall|i: int| 0 <= i <= old(self).cells@.len() implies below(
                old(self).cells@,
                i,
            ) == below(old(self).cells@.push(obj), i) by {
                lemma_below_prefix(old(self).cells@, old(self).cells@.push(obj), i);
            }
        }
        self.cells.push(obj);
        self.head = addr;
        proof {
            lemma_list_is_live(*self);
        }
        addr
    }

    /// What an allocation does: the new object sits in a fresh cell at `addr`,
    /// is the new head, and every older cell is as it was.
    pub open spec fn spec_allocated(self, before: Heap, addr: u64, obj: HeapObject) -> bool {
        &&& self.cells@ == before.cells@.push(obj)
        &&& addr == address_of(before.cells@.len() as int)
        &&& self.head == addr
        &&& self.live_at(addr)
        &&& self.object_at(addr) == obj
        &&& self.object_list() == seq![addr] + before.object_list()
    }

    /// The global object list, walked from the head through the headers' links.
    pub fn objects(&self) -> (list: Vec<u64>)
        requires
            self.wf(),
        ensures
            list@ == self.object_list(),
    {
        let mut list: Vec<u64> = Vec::new();
        let mut cur: u64 = self.head;
        proof {
            lemma_below_bounds(self.cells@, self.cells@.len() as int);
        }
        while cur != 0
            invariant
                self.wf(),
                cur == 0 || self.live_at(cur),
                list@ + chain_from(self.cells@, cur) == self.object_list(),
            decreases cur,
        {
            let n: usize = self.cells.len();
            let q: u64 = cur / 8 - 1;
            assert(q as int == index_of(cur) && q < n);
            let gc: u64 = self.header(q as usize);
            let next: u64 = gc & NEXT_MASK;
            proof {
                lemma_below_bounds(self.cells@, q as int);
                lemma_header_fields(
                    self.cells@[q as int].kind(),
                    below(self.cells@, q as int),
                    self.cells@[q as int].marked(),
                );
                assert(chain_from(self.cells@, cur) == seq![cur] + chain_from(self.cells@, next));
                assert(list@.push(cur) + chain_from(self.cells@, next) =~= list@ + chain_from(
                    self.cells@,
                    cur,
                ));
            }
            list.push(cur);
            cur = next;
        }
        assert(chain_from(self.cells@, 0) =~= Seq::<u64>::empty());
        assert(list@ =~= list@ + Seq::<u64>::empty());
        list
    }

    /// Frees every object that is not marked and clears the mark of every
    /// other one. The survivors keep their addresses, their payloads and
    /// their order in the object list.
    pub fn sweep(&mut self)
        requires
            old(self).wf(),
        ensures
            final(self).wf(),
            final(self).unmarked(),
            final(self).cells@.len() == old(self).cells@.len(),
            forall|i: int|
                0 <= i < old(self).cells@.len() ==> swept(
                    #[trigger] old(self).cells@[i],
                    final(self).cells@[i],
                ),
            final(self).object_list() == old(self).object_list().filter(
                |a: u64| old(self).marked_at(a),
            ),
    {
        let ghost before = *self;
        let mut cur: u64 = self.head;
        let mut prev: u64 = 0;
        proof {
            lemma_below_bounds(self.cells@, self.cells@.len() as int);
        }
        while cur != 0
            invariant
                self.wf(),
                self.cells@.len() == before.cells@.len(),
                cur == 0 || self.live_at(cur),
                prev == 0 ==> cur == self.head,
                prev != 0 ==> self.live_at(prev) && below(self.cells@, index_of(prev)) == cur
                    && !self.cells@[index_of(prev)].marked(),
                forall|i: int|
                    0 <= i < self.cells@.len() && address_of(i) <= cur ==> #[trigger] self.cells@[i]
                        == before.cells@[i],
                forall|i: int|
                    0 <= i < self.cells@.len() && address_of(i) > cur ==> swept(
                        #[trigger] before.cells@[i],
                        self.cells@[i],
                    ),
            decreases cur,
        {
            let ghost cells0 = self.cells@;
            let ghost head0 = self.head;
            let n: usize = self.cells.len();
            let q: u64 = cur / 8 - 1;
            assert(q as int == index_of(cur) && q < n);
            let i: usize = q as usize;
            let gc: u64 = self.header(i);
            let next: u64 = gc & NEXT_MASK;
            let ghost kind = cells0[i as int].kind();
            proof {
                lemma_below_bounds(cells0, i as int);
                lemma_below_bounds(cells0, n as int);
                lemma_header_fields(kind, below(cells0, i as int), cells0[i as int].marked());
                lemma_header_fields(kind, below(cells0, i as int), false);
                assert(next == below(cells0, i as int));
            }
            if gc & MARK_BIT == MARK_BIT {
                self.set_gc(cur, gc & !MARK_BIT);
                proof {
                    assert forall|j: int| 0 <= j <= n implies below(self.cells@, j) == below(
                        cells0,
                        j,
                    ) by {
                        lemma_below_prefix(self.cells@, cells0, j);
                    }
                    assert(self.cells@[i as int].same_payload(before.cells@[i as int]));
                }
                prev = cur;
            } else {
                self.cells.set(i, HeapObject::Free);
                let ghost cells1 = self.cells@;
                proof {
                    assert forall|j: int| 0 <= j <= n implies below(cells1, j) == (if below(
                        cells0,
                        j,
                    ) == address_of(i as int) {
                        below(cells0, i as int)
                    } else {
                        below(cells0, j)
                    }) by {
                        lemma_below_after_free(cells0, i as int, j);
                    }
                    assert forall|k: int|
                        0 <= k < n && k != i && cells0[k].live() && !(prev != 0 && k == index_of(
                            prev,
                        )) implies below(cells0, k) != address_of(i as int) by {
                        lemma_below_bounds(cells0, k);
                        if prev != 0 {
                            lemma_below_bounds(cells0, index_of(prev));
                        }
                    }
                }
                if prev == 0 {
                    self.head = next;
                } else {
                    let pq: u64 = prev / 8 - 1;
                    assert(pq as int == index_of(prev) && pq < n);
                    let pgc: u64 = self.header(pq as usize);
                    proof {
                        lemma_below_bounds(cells0, pq as int);
                        lemma_header_relink(cells0[pq as int].kind(), cur, next, false);
                        lemma_header_fields(cells0[pq as int].kind(), next, false);
                    }
                    self.set_gc(prev, (pgc & !NEXT_MASK) | next);
                    proof {
                        assert(self.cells@[pq as int].same_payload(before.cells@[pq as int]));
                    }
                }
                proof {
                    assert forall|j: int| 0 <= j <= n implies below(self.cells@, j) == below(
                        cells1,
                        j,
                    ) by {
                        lemma_below_prefix(self.cells@, cells1, j);
                    }
                }
            }
            cur = next;
        }
        proof {
            assert forall|i: int| 0 <= i < self.cells@.len() implies !(
            #[trigger] self.cells@[i]).marked() by {
                assert(swept(before.cells@[i], self.cells@[i]));
                assert(0u64 & 1 != 1) by (bit_vector);
            }
            lemma_sweep_keeps_order(before, *self);
        }
    }

    /// The car of the pair that `v` refers to.
    pub open spec fn spec_car(self, v: Value) -> Value {
        self.object_of(v)->Pair_0.car
    }

    /// The cdr of the pair that `v` refers to.
    pub open spec fn spec_cdr(self, v: Value) -> Value {
        self.object_of(v)->Pair_0.cdr
    }

    /// The index of the cell that a held value refers to.
    pub fn cell_index(&self, v: Value) -> (i: usize)
        requires
            self.holds(v),
        ensures
            i as int == index_of(v.address()),
            i < self.cells@.len(),
    {
        let n: usize = self.cells.len();
        let q: u64 = v.to_pointer() / 8 - 1;
        assert(q as int == index_of(v.address()) && q < n);
        q as usize
    }

    /// Whether `v` refers to a live object of its own kind.
    pub fn contains(&self, v: Value) -> (r: bool)
        ensures
            r == self.holds(v),
    {
        if !v.is_heap() {
            return false;
        }
        let p: u64 = v.to_pointer();
        if !self.is_live(p) {
            return false;
        }
        let q: u64 = p / 8 - 1;
        let n: usize = self.cells.len();
        assert(q as int == index_of(p) && q < n);
        match &self.cells[q as usize] {
            HeapObject::Free => false,
            HeapObject::Lambda(_) => v.is_lambda(),
            HeapObject::Pair(_) => v.is_pair(),
            HeapObject::Vec(_) => v.is_vec(),
            HeapObject::String(_) => v.is_string(),
            HeapObject::HashMap(_) => v.is_hashmap(),
            HeapObject::BigInt(_) => v.is_bigint(),
        }
    }
}

/// What a header holds can be read back from it.
pub proof fn lemma_header_fields(t: VType, next: u64, marked: bool)
    requires
        next % 8 == 0,
        next <= ADDRESS_LIMIT,
    ensures
        header_next(header_word(t, next, marked)) == next,
        header_marked(header_word(t, next, marked)) == marked,
        header_code(header_word(t, next, marked)) == type_code(t),
        header_word(t, next, marked) | MARK_BIT == header_word(t, next, true),
        header_word(t, next, marked) & !MARK_BIT == header_word(t, next, false),
{
    let c = type_code(t);
    let b: u64 = if marked { 1 } else { 0 };
    assert(c <= 11 && b <= 1 && next % 8 == 0 && next <= 0x0000_7FFF_FFFF_FFF0 ==> {
        let w = (c << 56) | (next & 0x0000_7FFF_FFFF_FFF8) | b;
        &&& w & 0x0000_7FFF_FFFF_FFF8 == next
        &&& (w & 1 == 1 <==> b == 1)
        &&& w >> 56 == c
        &&& w | 1 == (c << 56) | (next & 0x0000_7FFF_FFFF_FFF8) | 1
        &&& w & !1 == (c << 56) | (next & 0x0000_7FFF_FFFF_FFF8) | 0
    }) by (bit_vector);
}

/// After any number of allocations in a row the object list holds the new
/// objects, the most recent first, in front of what it held before:
/// `heaps[k + 1]` is the heap after the allocation of `objects[k]` at
/// `addresses[k]` in `heaps[k]`.
pub proof fn lemma_allocations_thread(
    heaps: Seq<Heap>,
    addresses: Seq<u64>,
    objects: Seq<HeapObject>,
)
    requires
        heaps.len() == addresses.len() + 1,
        objects.len() == addresses.len(),
        forall|k: int|
            0 <= k < addresses.len() ==> (#[trigger] heaps[k + 1]).spec_allocated(
                heaps[k],
                addresses[k],
                objects[k],
            ),
    ensures
        heaps.last().object_list() == addresses.reverse() + heaps[0].object_list(),
        heaps.last().object_list().len() == addresses.len() + heaps[0].object_list().len(),
    decreases addresses.len(),
{
    let n = addresses.len() as int;
    if n == 0 {
        assert(addresses.reverse() + heaps[0].object_list() =~= heaps[0].object_list());
    } else {
        let earlier = heaps.drop_last();
        assert forall|k: int| 0 <= k < n - 1 implies (#[trigger] earlier[k + 1]).spec_allocated(
            earlier[k],
            addresses.drop_last()[k],
            objects.drop_last()[k],
        ) by {
            assert(heaps[k + 1].spec_allocated(heaps[k], addresses[k], objects[k]));
        }
        lemma_allocations_thread(earlier, addresses.drop_last(), objects.drop_last());
        assert(heaps[n].spec_allocated(heaps[n - 1], addresses[n - 1], objects[n - 1]));
        assert(earlier.last() == heaps[n - 1]);
        assert(earlier[0] == heaps[0]);
        assert(addresses.reverse() =~= seq![addresses[n - 1]] + addresses.drop_last().reverse());
        assert(heaps[n].object_list() =~= addresses.reverse() + heaps[0].object_list());
    }
}

/// The live cells below `n`, highest first, hold each live address below `n`
/// once and nothing else.
pub proof fn lemma_live_below_exact(cells: Seq<HeapObject>, n: int)
    requires
        0 <= n <= cells.len(),
        8 * (cells.len() + 1) <= ADDRESS_LIMIT,
    ensures
        forall|k: int|
            0 <= k < live_below(cells, n).len() ==> {
                let a = #[trigger] live_below(cells, n)[k];
                a >= 8 && a % 8 == 0 && 0 <= index_of(a) < n && cells[index_of(a)].live()
            },
        forall|k: int, m: int|
            0 <= k < m < live_below(cells, n).len() ==> live_below(cells, n)[k] > live_below(
                cells,
                n,
            )[m],
        forall|i: int|
            0 <= i < n && (#[trigger] cells[i]).live() ==> live_below(cells, n).contains(
                address_of(i),
            ),
    decreases n,
{
    if n > 0 {
        lemma_live_below_exact(cells, n - 1);
        let rest = live_below(cells, n - 1);
        let all = live_below(cells, n);
        if cells[n - 1].live() {
            let a = address_of(n - 1);
            assert(all == seq![a] + rest);
            assert(all[0] == a);
            assert(index_of(a) == n - 1);
            assert forall|k: int| 1 <= k < all.len() implies all[k] == rest[k - 1] by {}
            assert forall|i: int| 0 <= i < n && (#[trigger] cells[i]).live() implies all.contains(
                address_of(i),
            ) by {
                if i < n - 1 {
                    let k = choose|k: int| 0 <= k < rest.len() && rest[k] == address_of(i);
                    assert(all[k + 1] == address_of(i));
                }
            }
            assert forall|k: int, m: int| 0 <= k < m < all.len() implies all[k] > all[m] by {
                assert(all[m] == rest[m - 1]);
                if k > 0 {
                    assert(all[k] == rest[k - 1]);
                }
            }
        }
    }
}

/// In a well-formed heap the object list holds each live object once, and
/// nothing else.
pub proof fn lemma_list_exact(h: Heap)
    requires
        h.wf(),
    ensures
        forall|a: u64| h.object_list().contains(a) <==> h.live_at(a),
        forall|k: int, m: int|
            0 <= k < m < h.object_list().len() ==> h.object_list()[k] != h.object_list()[m],
{
    lemma_list_is_live(h);
    let n = h.cells@.len() as int;
    lemma_live_below_exact(h.cells@, n);
    let list = h.object_list();
    assert forall|a: u64| list.contains(a) <==> h.live_at(a) by {
        if list.contains(a) {
            let k = choose|k: int| 0 <= k < list.len() && list[k] == a;
            assert(list[k] == a);
        }
        if h.live_at(a) {
            let i = index_of(a);
            assert(h.cells@[i].live());
            assert(address_of(i) == a);
        }
    }
}

/// In a well-formed heap the header of the object that a held value refers
/// to holds the kind of the value, and its link leads to an older live object
/// or nowhere.
pub proof fn lemma_header_of_held(h: Heap, v: Value)
    requires
        h.wf(),
        h.holds(v),
    ensures
        header_code(h.object_of(v).gc()) == type_code(v.kind().unwrap()),
        header_next(h.object_of(v).gc()) == 0 || (h.live_at(header_next(h.object_of(v).gc()))
            && header_next(h.object_of(v).gc()) < v.address()),
{
    let i = index_of(v.address());
    lemma_below_bounds(h.cells@, i);
    lemma_header_fields(h.cells@[i].kind(), below(h.cells@, i), h.cells@[i].marked());
}

/// Sweeping keeps the survivors in their order: what the object list holds
/// afterwards is what it held before without the objects that were not
/// marked.
pub proof fn lemma_sweep_keeps_order(before: Heap, after: Heap)
    requires
        before.wf(),
        after.wf(),
        after.cells@.len() == before.cells@.len(),
        forall|i: int|
            0 <= i < before.cells@.len() ==> swept(#[trigger] before.cells@[i], after.cells@[i]),
    ensures
        after.object_list() == before.object_list().filter(|a: u64| before.marked_at(a)),
{
    lemma_list_is_live(before);
    lemma_list_is_live(after);
    lemma_survivors_below(before, after, before.cells@.len() as int);
}

/// The survivors among the first `n` cells, highest first, are the live cells
/// among them that were marked.
pub proof fn lemma_survivors_below(before: Heap, after: Heap, n: int)
    requires
        0 <= n <= before.cells@.len(),
        8 * (before.cells@.len() + 1) <= ADDRESS_LIMIT,
        after.cells@.len() == before.cells@.len(),
        forall|i: int|
            0 <= i < before.cells@.len() ==> swept(#[trigger] before.cells@[i], after.cells@[i]),
    ensures
        live_below(after.cells@, n) == live_below(before.cells@, n).filter(
            |a: u64| before.marked_at(a),
        ),
    decreases n,
{
    let keep = |a: u64| before.marked_at(a);
    if n > 0 {
        lemma_survivors_below(before, after, n - 1);
        let rest = live_below(before.cells@, n - 1);
        assert(swept(before.cells@[n - 1], after.cells@[n - 1]));
        if before.cells@[n - 1].live() {
            let a = address_of(n - 1);
            assert(index_of(a) == n - 1);
            let one = seq![a];
            assert((one + rest).filter(keep) == one.filter(keep) + rest.filter(keep)) by {
                Seq::filter_distributes_over_add(one, rest, keep);
            }
            reveal(Seq::filter);
            assert(one.drop_last() =~= Seq::<u64>::empty());
            assert(one.last() == a);
            assert(Seq::<u64>::empty().filter(keep) =~= Seq::<u64>::empty());
            if before.cells@[n - 1].marked() {
                assert(keep(a));
                assert(one.filter(keep) =~= one);
            } else {
                assert(!keep(a));
                assert(one.filter(keep) =~= Seq::<u64>::empty());
                assert(Seq::<u64>::empty() + rest.filter(keep) =~= rest.filter(keep));
            }
        }
    } else {
        reveal(Seq::filter);
        assert(live_below(before.cells@, n).filter(keep) =~= Seq::<u64>::empty());
    }
}

/// A heap that differs from a well-formed one in payloads only is well-formed
/// and has the same object list.
pub proof fn lemma_same_liveness(a: Heap, b: Heap)
    requires
        a.wf(),
        a.head == b.head,
        a.cells@.len() == b.cells@.len(),
        forall|i: int|
            0 <= i < a.cells@.len() ==> (#[trigger] a.cells@[i]).kind() == b.cells@[i].kind()
                && a.cells@[i].gc() == b.cells@[i].gc(),
    ensures
        b.wf(),
        b.object_list() == a.object_list(),
{
    assert forall|j: int| 0 <= j <= a.cells@.len() implies below(a.cells@, j) == below(
        b.cells@,
        j,
    ) && live_below(a.cells@, j) == live_below(b.cells@, j) by {
        assert forall|k: int| 0 <= k < j implies a.cells@[k].live() == b.cells@[k].live() by {
            assert(a.cells@[k].kind() == b.cells@[k].kind());
        }
        lemma_below_prefix(a.cells@, b.cells@, j);
    }
    assert forall|i: int| 0 <= i < b.cells@.len() && (#[trigger] b.cells@[i]).live() implies b.cells@[i].gc()
        == header_word(b.cells@[i].kind(), below(b.cells@, i), b.cells@[i].marked()) by {
        assert(a.cells@[i].kind() == b.cells@[i].kind());
    }
    lemma_list_is_live(a);
    lemma_list_is_live(b);
}

/// Replacing the link of a header keeps its kind and its mark.
pub proof fn lemma_header_relink(t: VType, next: u64, other: u64, marked: bool)
    requires
        other % 8 == 0,
        other <= ADDRESS_LIMIT,
    ensures
        (header_word(t, next, marked) & !NEXT_MASK) | other == header_word(t, other, marked),
{
    let c = type_code(t);
    let b: u64 = if marked { 1 } else { 0 };
    assert(c <= 11 && b <= 1 && other % 8 == 0 && other <= 0x0000_7FFF_FFFF_FFF0 ==> ((c << 56) | (
    next & 0x0000_7FFF_FFFF_FFF8) | b) & !0x0000_7FFF_FFFF_FFF8 | other == (c << 56) | (other
        & 0x0000_7FFF_FFFF_FFF8) | b) by (bit_vector);
}

/// Freeing the cell `c` moves the links that led to it on to its successor and
/// leaves every other link as it was.
pub proof fn lemma_below_after_free(cells: Seq<HeapObject>, c: int, j: int)
    requires
        0 <= c < cells.len(),
        0 <= j <= cells.len(),
        cells[c].live(),
        8 * (cells.len() + 1) <= ADDRESS_LIMIT,
    ensures
        below(cells.update(c, HeapObject::Free), j) == (if below(cells, j) == address_of(c) {
            below(cells, c)
        } else {
            below(cells, j)
        }),
    decreases j,
{
    let freed = cells.update(c, HeapObject::Free);
    lemma_below_bounds(cells, j);
    if j <= c {
        lemma_below_prefix(cells, freed, j);
    } else if j == c + 1 {
        lemma_below_prefix(cells, freed, c);
    } else {
        lemma_below_after_free(cells, c, j - 1);
    }
}

/// `below` and `live_below` depend only on which of the cells before `i` are live.
pub proof fn lemma_below_prefix(c1: Seq<HeapObject>, c2: Seq<HeapObject>, i: int)
    requires
        0 <= i <= c1.len(),
        i <= c2.len(),
        forall|j: int| 0 <= j < i ==> c1[j].live() == c2[j].live(),
    ensures
        below(c1, i) == below(c2, i),
        live_below(c1, i) == live_below(c2, i),
    decreases i,
{
    if i > 0 {
        lemma_below_prefix(c1, c2, i - 1);
    }
}

/// `below(cells, j)` is the address of the highest live cell under `j`.
pub proof fn lemma_below_bounds(cells: Seq<HeapObject>, j: int)
    requires
        0 <= j <= cells.len(),
        8 * (cells.len() + 1) <= ADDRESS_LIMIT,
    ensures
        below(cells, j) % 8 == 0,
        below(cells, j) <= ADDRESS_LIMIT,
        below(cells, j) <= 8 * j,
        below(cells, j) != 0 ==> 0 <= index_of(below(cells, j)) < j && cells[index_of(
            below(cells, j),
        )].live() && below(cells, j) >= 8,
        forall|k: int| 0 <= k < j && cells[k].live() ==> address_of(k) <= below(cells, j),
    decreases j,
{
    if j > 0 {
        lemma_below_bounds(cells, j - 1);
    }
}

/// In a well-formed heap the links lead through all live cells, from the
/// highest address down.
pub proof fn lemma_chain_is_live(h: Heap, i: int)
    requires
        h.wf(),
        0 <= i <= h.cells@.len(),
    ensures
        chain_from(h.cells@, below(h.cells@, i)) == live_below(h.cells@, i),
    decreases i,
{
    lemma_below_bounds(h.cells@, i);
    if i > 0 {
        lemma_chain_is_live(h, i - 1);
        if h.cells@[i - 1].live() {
            let a = address_of(i - 1);
            assert(index_of(a) == i - 1);
            lemma_below_bounds(h.cells@, i - 1);
            lemma_header_fields(
                h.cells@[i - 1].kind(),
                below(h.cells@, i - 1),
                h.cells@[i - 1].marked(),
            );
        }
    }
}

/// The object list of a well-formed heap holds the live objects, each once,
/// the most recently allocated first.
pub proof fn lemma_list_is_live(h: Heap)
    requires
        h.wf(),
    ensures
        h.object_list() == live_below(h.cells@, h.cells@.len() as int),
{
    lemma_chain_is_live(h, h.cells@.len() as int);
}

} // verus!
