use lisp_core::environment::{Binding, Environment, Environments, _Environment};
use lisp_core::value::Value;

#[test]
fn a_child_shadows_its_parent() {
    let mut arena = Environments::new();
    let env = Environment::new(&mut arena);
    env.define_variable(&mut arena, "x".to_string(), Value::Integer(1));
    let child = env.extend(&mut arena);
    assert_eq!(child.lookup_variable_value(&arena, "x"), Some(Value::Integer(1)));
    child.define_variable(&mut arena, "x".to_string(), Value::Integer(2));
    assert_eq!(child.lookup_variable_value(&arena, "x"), Some(Value::Integer(2)));
    assert_eq!(env.lookup_variable_value(&arena, "x"), Some(Value::Integer(1)));
}

#[test]
fn a_missing_name_is_absent_up_to_the_root() {
    let mut arena = Environments::new();
    let env = Environment::new(&mut arena);
    let child = env.extend(&mut arena);
    let grandchild = child.extend(&mut arena);
    assert_eq!(grandchild.lookup_variable_value(&arena, "y"), None);
    env.define_variable(&mut arena, "y".to_string(), Value::Bool(true));
    assert_eq!(grandchild.lookup_variable_value(&arena, "y"), Some(Value::Bool(true)));
    assert_eq!(grandchild.lookup_variable_value(&arena, "z"), None);
}

#[test]
fn copies_of_a_handle_see_each_other() {
    let mut arena = Environments::new();
    let env = Environment::new(&mut arena);
    let copy = env;
    copy.define_variable(&mut arena, "f".to_string(), Value::Integer(9));
    assert_eq!(env.lookup_variable_value(&arena, "f"), Some(Value::Integer(9)));
    env.define_variable(&mut arena, "f".to_string(), Value::Integer(10));
    assert_eq!(copy.lookup_variable_value(&arena, "f"), Some(Value::Integer(10)));
}

#[test]
fn a_procedure_scope_does_not_leak() {
    let mut arena = Environments::new();
    let root = Environment::new(&mut arena);
    root.define_variable(&mut arena, "g".to_string(), Value::Integer(1));
    let env = root.extend(&mut arena);
    env.define_variable(&mut arena, "a".to_string(), Value::Integer(2));
    let local = env.procedure_local(&mut arena);
    assert_eq!(local.lookup_variable_value(&arena, "a"), Some(Value::Integer(2)));
    assert_eq!(local.lookup_variable_value(&arena, "g"), Some(Value::Integer(1)));
    local.define_variable(&mut arena, "arg".to_string(), Value::Integer(3));
    assert_eq!(local.lookup_variable_value(&arena, "arg"), Some(Value::Integer(3)));
    assert_eq!(env.lookup_variable_value(&arena, "arg"), None);
}

#[test]
fn a_root_can_start_with_bindings() {
    let mut arena = Environments::new();
    let bindings = vec![
        Binding { name: "car".to_string(), value: Value::Integer(1) },
        Binding { name: "cdr".to_string(), value: Value::Integer(2) },
        Binding { name: "car".to_string(), value: Value::Integer(3) },
    ];
    let env = Environment::from_hashmap(&mut arena, bindings);
    assert_eq!(env.lookup_variable_value(&arena, "car"), Some(Value::Integer(3)));
    assert_eq!(env.lookup_variable_value(&arena, "cdr"), Some(Value::Integer(2)));
    assert_eq!(env.lookup_variable_value(&arena, "cons"), None);
}

#[test]
fn a_scope_alone_finds_its_own_bindings() {
    let mut scope = _Environment::new();
    assert_eq!(scope.lookup_variable_value(&"x".to_string()), None);
    scope.define_variable("x".to_string(), Value::Integer(1));
    scope.define_variable("x".to_string(), Value::Integer(2));
    assert_eq!(scope.lookup_variable_value(&"x".to_string()), Some(Value::Integer(2)));
}

#[test]
fn the_values_of_a_chain_are_its_own_first() {
    let mut arena = Environments::new();
    let root = Environment::new(&mut arena);
    root.define_variable(&mut arena, "a".to_string(), Value::Integer(1));
    let child = root.extend(&mut arena);
    child.define_variable(&mut arena, "b".to_string(), Value::Integer(2));
    child.define_variable(&mut arena, "c".to_string(), Value::Integer(3));
    assert_eq!(
        arena.values(child),
        vec![Value::Integer(2), Value::Integer(3), Value::Integer(1)]
    );
    assert_eq!(arena.values(Environment { id: 17 }), Vec::<Value>::new());
}

#[test]
fn a_handle_equals_no_handle() {
    let mut arena = Environments::new();
    let env = Environment::new(&mut arena);
    let copy = env;
    let other = env.extend(&mut arena);
    assert!(env != copy);
    assert!(!(env == env));
    assert!(env != other);
}
