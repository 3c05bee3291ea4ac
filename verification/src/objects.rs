use crate::environment::Environment;
use crate::heap::{
    address_of, header_word, Heap, HeapObject, Lambda, Pair, SBigInt, SHashMap, SString, SVec,
};
use crate::value::{VType, Value};
use num::BigInt;
use vstd::pervasive::unreached;
use vstd::prelude::*;

verus! {

impl Heap {
    /// What the allocation of `obj` as the value `v` does to the heap.
    pub open spec fn spec_made(&self, before: Heap, v: Value, obj: HeapObject) -> bool {
        &&& self.wf()
        &&& v == Value::spec_pointer(obj.kind(), address_of(before.cells@.len() as int))
        &&& v.kind() == Some(obj.kind())
        &&& v.address() == address_of(before.cells@.len() as int)
        &&& self.holds(v)
        &&& self.spec_allocated(before, v.address(), obj)
        &&& before.unmarked() ==> self.unmarked()
    }
}

impl Value {
    /// Allocates a closure.
    #[allow(non_snake_case)]
    pub fn Lambda(heap: &mut Heap, env: Environment, code: Vec<u8>, consts: Vec<Value>) -> (v:
        Value)
        requires
            old(heap).wf(),
            old(heap).spec_has_room(),
        ensures
            final(heap).spec_made(
                *old(heap),
                v,
                HeapObject::Lambda(
                    Lambda { gc: header_word(VType::Lambda, old(heap).head, false), env, code, consts },
                ),
            ),
    {
        let next = heap.get_head();
        let gc = Heap::make_header(VType::Lambda, next);
        let p = heap.publish(HeapObject::Lambda(Lambda::new(gc, env, code, consts)));
        Value::pointer(VType::Lambda, p)
    }

    /// Allocates a pair.
    #[allow(non_snake_case)]
    pub fn Pair(heap: &mut Heap, car: Value, cdr: Value) -> (v: Value)
        requires
            old(heap).wf(),
            old(heap).spec_has_room(),
        ensures
            final(heap).spec_made(
                *old(heap),
                v,
                HeapObject::Pair(Pair { gc: header_word(VType::Pair, old(heap).head, false), car, cdr }),
            ),
    {
        let next = heap.get_head();
        let gc = Heap::make_header(VType::Pair, next);
        let p = heap.publish(HeapObject::Pair(Pair::new(gc, car, cdr)));
        Value::pointer(VType::Pair, p)
    }

    /// Allocates a vector.
    #[allow(non_snake_case)]
    pub fn Vec(heap: &mut Heap, v: Vec<Value>) -> (r: Value)
        requires
            old(heap).wf(),
            old(heap).spec_has_room(),
        ensures
            final(heap).spec_made(
                *old(heap),
                r,
                HeapObject::Vec(SVec { gc: header_word(VType::Vec, old(heap).head, false), vec: v }),
            ),
    {
        let next = heap.get_head();
        let gc = Heap::make_header(VType::Vec, next);
        let p = heap.publish(HeapObject::Vec(SVec::new(gc, v)));
        Value::pointer(VType::Vec, p)
    }

    /// Allocates a string.
    #[allow(non_snake_case)]
    pub fn String(heap: &mut Heap, s: String) -> (r: Value)
        requires
            old(heap).wf(),
            old(heap).spec_has_room(),
        ensures
            final(heap).spec_made(
                *old(heap),
                r,
                HeapObject::String(
                    SString { gc: header_word(VType::String, old(heap).head, false), str: s },
                ),
            ),
    {
        let next = heap.get_head();
        let gc = Heap::make_header(VType::String, next);
        let p = heap.publish(HeapObject::String(SString::new(gc, s)));
        Value::pointer(VType::String, p)
    }

    /// Allocates a table with the given entries.
    #[allow(non_snake_case)]
    pub fn HashMap(heap: &mut Heap, m: Vec<(Value, Value)>) -> (r: Value)
        requires
            old(heap).wf(),
            old(heap).spec_has_room(),
        ensures
            final(heap).spec_made(
                *old(heap),
                r,
                HeapObject::HashMap(
                    SHashMap { gc: header_word(VType::HashMap, old(heap).head, false), map: m },
                ),
            ),
    {
        let next = heap.get_head();
        let gc = Heap::make_header(VType::HashMap, next);
        let p = heap.publish(HeapObject::HashMap(SHashMap::new(gc, m)));
        Value::pointer(VType::HashMap, p)
    }

    /// Allocates a big integer.
    #[allow(non_snake_case)]
    pub fn BigInt(heap: &mut Heap, n: BigInt) -> (r: Value)
        requires
            old(heap).wf(),
            old(heap).spec_has_room(),
        ensures
            final(heap).spec_made(
                *old(heap),
                r,
                HeapObject::BigInt(
                    SBigInt { gc: header_word(VType::BigInt, old(heap).head, false), num: n },
                ),
            ),
    {
        let next = heap.get_head();
        let gc = Heap::make_header(VType::BigInt, next);
        let p = heap.publish(HeapObject::BigInt(SBigInt { gc, num: n }));
        Value::pointer(VType::BigInt, p)
    }

    /// The pair that this value refers to.
    pub fn to_pair<'a>(self, heap: &'a Heap) -> (p: &'a Pair)
        requires
            heap.holds(self),
            self.spec_is_pair(),
        ensures
            heap.object_of(self) == HeapObject::Pair(*p),
    {
        let i = heap.cell_index(self);
        match &heap.cells[i] {
            HeapObject::Pair(p) => p,
            _ => unreached(),
        }
    }

    /// The closure that this value refers to.
    pub fn to_lambda<'a>(self, heap: &'a Heap) -> (p: &'a Lambda)
        requires
            heap.holds(self),
            self.spec_is_lambda(),
        ensures
            heap.object_of(self) == HeapObject::Lambda(*p),
    {
        let i = heap.cell_index(self);
        match &heap.cells[i] {
            HeapObject::Lambda(p) => p,
            _ => unreached(),
        }
    }

    /// The vector that this value refers to.
    pub fn to_vec<'a>(self, heap: &'a Heap) -> (p: &'a SVec)
        requires
            heap.holds(self),
            self.spec_is_vec(),
        ensures
            heap.object_of(self) == HeapObject::Vec(*p),
    {
        let i = heap.cell_index(self);
        match &heap.cells[i] {
            HeapObject::Vec(p) => p,
            _ => unreached(),
        }
    }

    /// The string that this value refers to.
    pub fn to_string<'a>(self, heap: &'a Heap) -> (p: &'a SString)
        requires
            heap.holds(self),
            self.spec_is_string(),
        ensures
            heap.object_of(self) == HeapObject::String(*p),
    {
        let i = heap.cell_index(self);
        match &heap.cells[i] {
            HeapObject::String(p) => p,
            _ => unreached(),
        }
    }

    /// The table that this value refers to.
    pub fn to_hashmap<'a>(self, heap: &'a Heap) -> (p: &'a SHashMap)
        requires
            heap.holds(self),
            self.spec_is_hashmap(),
        ensures
            heap.object_of(self) == HeapObject::HashMap(*p),
    {
        let i = heap.cell_index(self);
        match &heap.cells[i] {
            HeapObject::HashMap(p) => p,
            _ => unreached(),
        }
    }

    /// The big integer that this value refers to.
    pub fn to_bigint<'a>(self, heap: &'a Heap) -> (p: &'a SBigInt)
        requires
            heap.holds(self),
            self.spec_is_bigint(),
        ensures
            heap.object_of(self) == HeapObject::BigInt(*p),
    {
        let i = heap.cell_index(self);
        match &heap.cells[i] {
            HeapObject::BigInt(p) => p,
            _ => unreached(),
        }
    }

    /// The first field of a pair.
    pub fn car(self, heap: &Heap) -> (c: Value)
        requires
            heap.holds(self),
            self.spec_is_pair(),
        ensures
            c == heap.spec_car(self),
    {
        self.to_pair(heap).car
    }

    /// The second field of a pair.
    pub fn cdr(self, heap: &Heap) -> (c: Value)
        requires
            heap.holds(self),
            self.spec_is_pair(),
        ensures
            c == heap.spec_cdr(self),
    {
        self.to_pair(heap).cdr
    }

    /// Replaces the first field of a pair in place. The second field, the
    /// header and every other object stay as they are.
    pub fn set_car(self, heap: &mut Heap, v: Value)
        requires
            old(heap).holds(self),
            self.spec_is_pair(),
        ensures
            final(heap).head == old(heap).head,
            final(heap).cells@ == old(heap).cells@.update(
                crate::heap::index_of(self.address()),
                HeapObject::Pair(Pair { car: v, ..old(heap).object_of(self)->Pair_0 }),
            ),
            final(heap).holds(self),
            final(heap).spec_car(self) == v,
            final(heap).spec_cdr(self) == old(heap).spec_cdr(self),
            old(heap).wf() ==> final(heap).wf() && final(heap).object_list() == old(
                heap,
            ).object_list(),
    {
        let i = heap.cell_index(self);
        match &mut heap.cells[i] {
            HeapObject::Pair(p) => {
                p.car = v;
            },
            _ => {},
        }
        proof {
            assert(heap.cells@ =~= old(heap).cells@.update(
                crate::heap::index_of(self.address()),
                HeapObject::Pair(Pair { car: v, ..old(heap).object_of(self)->Pair_0 }),
            ));
            if old(heap).wf() {
                crate::heap::lemma_same_liveness(*old(heap), *heap);
            }
        }
    }

    /// Replaces the second field of a pair in place. The first field, the
    /// header and every other object stay as they are.
    pub fn set_cdr(self, heap: &mut Heap, v: Value)
        requires
            old(heap).holds(self),
            self.spec_is_pair(),
        ensures
            final(heap).head == old(heap).head,
            final(heap).cells@ == old(heap).cells@.update(
                crate::heap::index_of(self.address()),
                HeapObject::Pair(Pair { cdr: v, ..old(heap).object_of(self)->Pair_0 }),
            ),
            final(heap).holds(self),
            final(heap).spec_cdr(self) == v,
            final(heap).spec_car(self) == old(heap).spec_car(self),
            old(heap).wf() ==> final(heap).wf() && final(heap).object_list() == old(
                heap,
            ).object_list(),
    {
        let i = heap.cell_index(self);
        match &mut heap.cells[i] {
            HeapObject::Pair(p) => {
                p.cdr = v;
            },
            _ => {},
        }
        proof {
            assert(heap.cells@ =~= old(heap).cells@.update(
                crate::heap::index_of(self.address()),
                HeapObject::Pair(Pair { cdr: v, ..old(heap).object_of(self)->Pair_0 }),
            ));
            if old(heap).wf() {
                crate::heap::lemma_same_liveness(*old(heap), *heap);
            }
        }
    }
}

} // verus!
