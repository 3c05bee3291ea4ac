use lisp_core::environment::{Environment, Environments};
use lisp_core::heap::{Heap, HeapObject, Pair, SHashMap, SString, SVec};
use lisp_core::value::{VType, Value};

fn pair(heap: &mut Heap, car: Value, cdr: Value) -> Value {
    assert!(heap.has_room());
    Value::Pair(heap, car, cdr)
}

#[test]
fn payload_constructors_keep_their_arguments() {
    let p = Pair::new(3, Value::Integer(1), Value::nil());
    assert_eq!(p.gc, 3);
    assert_eq!(p.car, Value::Integer(1));
    assert_eq!(p.cdr, Value::nil());
    let s = SString::new(5, "abc".to_string());
    assert_eq!(s.gc, 5);
    assert_eq!(s.str, "abc");
    let v = SVec::new(7, vec![Value::Integer(2)]);
    assert_eq!(v.gc, 7);
    assert_eq!(v.vec, vec![Value::Integer(2)]);
    let m = SHashMap::new(9, vec![(Value::Integer(1), Value::Integer(2))]);
    assert_eq!(m.gc, 9);
    assert_eq!(m.map.len(), 1);
}

#[test]
fn headers_hold_kind_link_and_mark() {
    let mut heap = Heap::new();
    let a = pair(&mut heap, Value::nil(), Value::nil());
    let b = Value::String(&mut heap, "x".to_string());
    assert_eq!(a.to_pointer(), 8);
    assert_eq!(b.to_pointer(), 16);
    assert_eq!(heap.header(0), 7u64 << 56);
    assert_eq!(heap.header(1), (9u64 << 56) | 8);
    heap.set_gc(16, (9u64 << 56) | 8 | 1);
    assert_eq!(heap.header(1), (9u64 << 56) | 9);
    assert_eq!(heap.get_head(), 16);
}

#[test]
fn pair_fields_are_read_and_replaced() {
    let mut heap = Heap::new();
    let p = pair(&mut heap, Value::Integer(1), Value::Integer(2));
    assert!(p.is_pair());
    assert!(heap.contains(p));
    assert_eq!(p.car(&heap), Value::Integer(1));
    assert_eq!(p.cdr(&heap), Value::Integer(2));
    p.set_car(&mut heap, Value::Integer(10));
    assert_eq!(p.car(&heap), Value::Integer(10));
    assert_eq!(p.cdr(&heap), Value::Integer(2));
    p.set_cdr(&mut heap, Value::Bool(true));
    assert_eq!(p.car(&heap), Value::Integer(10));
    assert_eq!(p.cdr(&heap), Value::Bool(true));
    assert_eq!(heap.objects(), vec![8]);
}

#[test]
fn the_object_list_holds_each_allocation_most_recent_first() {
    let mut heap = Heap::new();
    assert_eq!(heap.objects(), Vec::<u64>::new());
    let mut made = Vec::new();
    for i in 0..50 {
        let v = match i % 4 {
            0 => pair(&mut heap, Value::Integer(i), Value::nil()),
            1 => Value::String(&mut heap, "s".to_string()),
            2 => Value::Vec(&mut heap, vec![Value::Integer(i)]),
            _ => Value::HashMap(&mut heap, vec![(Value::Integer(i), Value::nil())]),
        };
        made.push(v.to_pointer());
        let mut expected = made.clone();
        expected.reverse();
        assert_eq!(heap.objects(), expected);
    }
    assert_eq!(heap.objects().len(), 50);
}

#[test]
fn accessors_borrow_the_payload() {
    let mut heap = Heap::new();
    let arena = Environments::new();
    let s = Value::String(&mut heap, "hello".to_string());
    let v = Value::Vec(&mut heap, vec![s, Value::Integer(3)]);
    let m = Value::HashMap(&mut heap, vec![(Value::Symbol(1), v)]);
    let l = Value::Lambda(&mut heap, Environment { id: 0 }, vec![1, 2, 3], vec![m]);
    assert_eq!(s.to_string(&heap).str, "hello");
    assert_eq!(v.to_vec(&heap).vec, vec![s, Value::Integer(3)]);
    assert_eq!(m.to_hashmap(&heap).map, vec![(Value::Symbol(1), v)]);
    assert_eq!(l.to_lambda(&heap).code, vec![1, 2, 3]);
    assert_eq!(l.to_lambda(&heap).consts, vec![m]);
    assert_eq!(heap.children_of(&arena, 1), vec![s, Value::Integer(3)]);
    assert_eq!(heap.children_of(&arena, 2), vec![Value::Symbol(1), v]);
    assert_eq!(heap.children_of(&arena, 3), vec![m]);
    assert_eq!(heap.children_of(&arena, 0), Vec::<Value>::new());
}

#[test]
fn a_cyclic_list_survives_and_is_unmarked() {
    let mut heap = Heap::new();
    let arena = Environments::new();
    let p = pair(&mut heap, Value::Integer(1), Value::nil());
    p.set_cdr(&mut heap, p);
    heap.mark(&arena, p);
    assert_eq!(heap.header(0) & 1, 1);
    heap.sweep();
    assert!(heap.contains(p));
    assert_eq!(heap.header(0) & 1, 0);
    assert_eq!(p.cdr(&heap), p);
    assert_eq!(heap.objects(), vec![p.to_pointer()]);
}

#[test]
fn a_thousand_pairs_of_which_one_is_kept() {
    let mut heap = Heap::new();
    let arena = Environments::new();
    let mut head = Value::nil();
    for i in 0..1000 {
        head = pair(&mut heap, Value::Integer(i), Value::nil());
    }
    assert_eq!(heap.objects().len(), 1000);
    heap.collect(&arena, &vec![head]);
    assert_eq!(heap.objects(), vec![head.to_pointer()]);
    assert_eq!(head.car(&heap), Value::Integer(999));
    assert_eq!(heap.header(999) & 1, 0);
}

#[test]
fn collection_keeps_what_is_reachable_and_frees_the_rest() {
    let mut heap = Heap::new();
    let mut arena = Environments::new();
    let lost = pair(&mut heap, Value::Integer(0), Value::nil());
    let s = Value::String(&mut heap, "kept".to_string());
    let inner = pair(&mut heap, s, Value::nil());
    let v = Value::Vec(&mut heap, vec![inner]);
    let lost_too = Value::String(&mut heap, "lost".to_string());
    let bound = pair(&mut heap, Value::Integer(5), Value::nil());
    let root_env = Environment::new(&mut arena);
    root_env.define_variable(&mut arena, "x".to_string(), bound);
    let env = root_env.extend(&mut arena);
    let key = Value::String(&mut heap, "key".to_string());
    let m = Value::HashMap(&mut heap, vec![(key, v)]);
    let l = Value::Lambda(&mut heap, env, vec![], vec![m]);
    let root = pair(&mut heap, l, Value::Integer(1));
    let before = heap.objects();
    heap.collect(&arena, &vec![root, Value::Integer(3)]);
    for kept in [s, inner, v, bound, key, m, l, root] {
        assert!(heap.contains(kept));
    }
    assert!(!heap.contains(lost));
    assert!(!heap.contains(lost_too));
    assert!(matches!(heap.cells[0], HeapObject::Free));
    assert_eq!(s.to_string(&heap).str, "kept");
    let expected: Vec<u64> = before
        .into_iter()
        .filter(|a| *a != lost.to_pointer() && *a != lost_too.to_pointer())
        .collect();
    assert_eq!(heap.objects(), expected);
    for i in 0..heap.cells.len() {
        assert_eq!(heap.header(i) & 1, 0);
    }
    heap.collect(&arena, &vec![]);
    assert_eq!(heap.objects(), Vec::<u64>::new());
}

#[test]
fn marking_sets_the_mark_of_what_is_reachable_only() {
    let mut heap = Heap::new();
    let arena = Environments::new();
    let a = pair(&mut heap, Value::nil(), Value::nil());
    let b = pair(&mut heap, a, Value::nil());
    let c = pair(&mut heap, Value::nil(), Value::nil());
    heap.mark_all(&arena, &vec![b]);
    assert_eq!(heap.header(heap.cell_index(a)) & 1, 1);
    assert_eq!(heap.header(heap.cell_index(b)) & 1, 1);
    assert_eq!(heap.header(heap.cell_index(c)) & 1, 0);
    assert!(heap.is_live(c.to_pointer()));
    assert!(!heap.is_live(0));
    assert!(!heap.is_live(12));
    assert!(!heap.is_live(8000));
}

#[test]
fn room_is_counted_in_objects() {
    let heap = Heap::new();
    assert!(heap.has_room());
    assert!(heap.has_room_for(1000));
    assert!(!heap.has_room_for(u64::MAX));
    assert_eq!(Heap::make_header(VType::Pair, 16), (7u64 << 56) | 16);
}

#[test]
fn kinds_and_their_codes() {
    assert_eq!(VType::Lambda.code(), 6);
    assert_eq!(VType::Pair.code(), 7);
    assert_eq!(VType::BigInt.code(), 11);
    for p in 0..=11u64 {
        assert_eq!(VType::from_code(p).unwrap().code(), p);
    }
    assert_eq!(VType::from_code(12), None);
    assert_eq!(VType::from_code(9), Some(VType::String));
}

#[test]
fn a_table_gives_the_value_of_a_key() {
    let mut heap = Heap::new();
    let m = Value::HashMap(
        &mut heap,
        vec![
            (Value::Integer(1), Value::Integer(10)),
            (Value::Symbol(1), Value::Integer(20)),
            (Value::Integer(1), Value::Integer(30)),
        ],
    );
    let table = m.to_hashmap(&heap);
    assert_eq!(table.get(Value::Integer(1)), Some(Value::Integer(10)));
    assert_eq!(table.get(Value::Symbol(1)), Some(Value::Integer(20)));
    assert_eq!(table.get(Value::Integer(2)), None);
}
