use lisp_core::value::{VType, Value};

fn kinds_held(v: Value) -> usize {
    let held = [
        v.is_void(),
        v.is_nil(),
        v.is_bool(),
        v.is_integer(),
        v.is_float(),
        v.is_symbol(),
        v.is_lambda(),
        v.is_pair(),
        v.is_vec(),
        v.is_string(),
        v.is_hashmap(),
        v.is_bigint(),
    ];
    held.iter().filter(|b| **b).count()
}

#[test]
fn exactly_one_kind_holds_of_each_immediate() {
    let values = vec![
        Value::void(),
        Value::nil(),
        Value::Bool(true),
        Value::Bool(false),
        Value::Integer(0),
        Value::Integer(-1),
        Value::Integer(i32::MIN),
        Value::Integer(i32::MAX),
        Value::Symbol(0),
        Value::Symbol(u32::MAX),
        Value::new(1.5f64.to_bits()),
        Value::new(0f64.to_bits()),
        Value::new((-2.25f64).to_bits()),
    ];
    for v in values {
        assert_eq!(kinds_held(v), 1);
        assert!(v.try_type().is_some());
    }
}

#[test]
fn exactly_one_kind_holds_of_each_pointer() {
    let kinds = vec![
        VType::Lambda,
        VType::Pair,
        VType::Vec,
        VType::String,
        VType::HashMap,
        VType::BigInt,
    ];
    for t in kinds {
        let v = Value::pointer(t, 0x1238);
        assert_eq!(kinds_held(v), 1);
        assert_eq!(v.to_type(), t);
        assert_eq!(v.to_pointer(), 0x1238);
        assert!(v.is_heap());
    }
}

#[test]
fn no_kind_holds_of_a_word_outside_the_encoding() {
    let v = Value::new(0x7FF7_0000_0000_0000);
    assert_eq!(kinds_held(v), 0);
    assert_eq!(v.try_type(), None);
    let w = Value::new(0x7FF0_0000_0000_0000);
    assert_eq!(kinds_held(w), 0);
}

#[test]
fn kinds_of_immediates() {
    assert_eq!(Value::void().to_type(), VType::Void);
    assert_eq!(Value::nil().to_type(), VType::Nil);
    assert_eq!(Value::Bool(true).to_type(), VType::Bool);
    assert_eq!(Value::Integer(7).to_type(), VType::Integer);
    assert_eq!(Value::Symbol(7).to_type(), VType::Symbol);
    assert_eq!(Value::new(2.5f64.to_bits()).to_type(), VType::Float);
}

#[test]
fn words_of_immediates() {
    assert_eq!(Value::void().0, 0x7FF0_1000_0000_0000);
    assert_eq!(Value::nil().0, 0x7FF0_2000_0000_0000);
    assert_eq!(Value::Bool(false).0, 0x7FF0_3000_0000_0000);
    assert_eq!(Value::Bool(true).0, 0x7FF0_3000_0000_0001);
    assert_eq!(Value::Integer(1).0, 0x7FF0_4000_0000_0001);
    assert_eq!(Value::Integer(-1).0, 0x7FF0_4000_FFFF_FFFF);
    assert_eq!(Value::Symbol(5).0, 0x7FF0_5000_0000_0005);
    assert_eq!(Value::pointer(VType::Pair, 8).0, 0x7FF2_0000_0000_0008);
}

#[test]
fn integers_round_trip() {
    for i in [0, 1, -1, 42, -42, i32::MIN, i32::MAX, 65536, -65536] {
        assert_eq!(Value::Integer(i).to_integer(), i);
        assert!(Value::Integer(i).is_integer());
    }
}

#[test]
fn symbols_round_trip() {
    for s in [0u32, 1, 77, 0x8000_0000, u32::MAX] {
        assert_eq!(Value::Symbol(s).to_symbol(), s);
        assert!(Value::Symbol(s).is_symbol());
    }
}

#[test]
fn booleans_round_trip() {
    assert!(Value::Bool(true).is_true());
    assert!(!Value::Bool(true).is_false());
    assert!(Value::Bool(false).is_false());
    assert!(!Value::Bool(false).is_true());
    assert!(!Value::nil().is_true());
    assert!(!Value::nil().is_false());
}

#[test]
fn floats_round_trip_through_their_bits() {
    for f in [0.0f64, -0.0, 1.5, -2.25, 1e300, -1e-300, f64::MIN_POSITIVE, f64::MAX] {
        let v = Value::new(f.to_bits());
        assert!(v.is_float());
        assert_eq!(f64::from_bits(v.0).to_bits(), f.to_bits());
    }
}

#[test]
fn sign_extension_copies_the_top_bit() {
    assert_eq!(Value::sign_extend(0x0000_8000_0000_0000, 47), 0xFFFF_8000_0000_0000);
    assert_eq!(Value::sign_extend(0x7FF2_7000_0000_0010, 47), 0x0000_7000_0000_0010);
    assert_eq!(Value::sign_extend(0x80, 7), 0xFFFF_FFFF_FFFF_FF80);
    assert_eq!(Value::sign_extend(0x17F, 7), 0x7F);
    assert_eq!(Value::new(0x7FF2_8000_0000_0008).to_pointer(), 0xFFFF_8000_0000_0008);
}

#[test]
fn a_word_converts_into_a_value() {
    let v: Value = Value::from(0x7FF0_4000_0000_0007);
    assert_eq!(v, Value::Integer(7));
    assert_eq!(Value::new(3).0, 3);
}
