use lox_vm::number;
use lox_vm::value::{Closure, Function, Value};

fn samples() -> Vec<f64> {
    vec![
        0.0,
        -0.0,
        1.0,
        -1.0,
        0.5,
        -0.5,
        2.0,
        1e300,
        -1e300,
        5e-324,
        -5e-324,
        f64::MIN_POSITIVE,
        f64::MAX,
        f64::MIN,
        f64::INFINITY,
        f64::NEG_INFINITY,
        f64::NAN,
        -f64::NAN,
        f64::from_bits(0x7ff0_0000_0000_0001),
        f64::from_bits(0xfff8_0000_0000_1234),
        3.0,
        7.25,
        -7.25,
    ]
}

#[test]
fn equality_is_that_of_doubles() {
    for a in samples() {
        for b in samples() {
            assert_eq!(number::equal(a.to_bits(), b.to_bits()), a == b, "{} == {}", a, b);
        }
    }
}

#[test]
fn order_is_that_of_doubles() {
    for a in samples() {
        for b in samples() {
            assert_eq!(number::less(a.to_bits(), b.to_bits()), a < b, "{} < {}", a, b);
            assert_eq!(number::greater(a.to_bits(), b.to_bits()), a > b, "{} > {}", a, b);
        }
    }
}

#[test]
fn negation_is_that_of_doubles() {
    for a in samples() {
        assert_eq!(number::negate(a.to_bits()), (-a).to_bits(), "-{}", a);
        assert_eq!(number::negate(number::negate(a.to_bits())), a.to_bits());
    }
}

#[test]
fn nan_and_magnitude() {
    for a in samples() {
        assert_eq!(number::is_nan(a.to_bits()), a.is_nan(), "{}", a);
        assert_eq!(number::magnitude(a.to_bits()), a.abs().to_bits(), "{}", a);
    }
    assert_eq!(number::magnitude(0x8000_0000_0000_0000), 0);
    assert_eq!(number::negate(0), 0x8000_0000_0000_0000);
}

#[test]
fn value_equality() {
    let one = Value::number(1.0f64.to_bits());
    let other_one = Value::number(1.0f64.to_bits());
    let two = Value::number(2.0f64.to_bits());
    let nan = Value::number(f64::NAN.to_bits());
    let zero = Value::number(0.0f64.to_bits());
    let minus_zero = Value::number((-0.0f64).to_bits());
    assert!(Value::equal(&one, &other_one));
    assert!(!Value::equal(&one, &two));
    assert!(!Value::equal(&nan, &nan));
    assert!(Value::equal(&zero, &minus_zero));
    assert!(Value::equal(&Value::nil(), &Value::nil()));
    assert!(Value::equal(&Value::bool(true), &Value::bool(true)));
    assert!(!Value::equal(&Value::bool(true), &Value::bool(false)));
    assert!(Value::equal(&Value::string("ab"), &Value::string("ab")));
    assert!(!Value::equal(&Value::string("ab"), &Value::string("abc")));
    assert!(!Value::equal(&Value::string("1"), &one));
    assert!(!Value::equal(&Value::nil(), &Value::bool(false)));
    assert!(!Value::equal(&Value::nil(), &zero));
    let f = Value::function(Function::new_function("f"));
    let same_f = Value::function(Function::new_function("f"));
    assert!(!Value::equal(&f, &same_f));
    let c = Value::closure(Closure::new(Function::new_script()));
    assert!(!Value::equal(&c, &c));
}

#[test]
fn falsiness() {
    assert!(Value::nil().is_falsey());
    assert!(Value::bool(false).is_falsey());
    assert!(!Value::bool(true).is_falsey());
    assert!(!Value::number(0).is_falsey());
    assert!(!Value::string("").is_falsey());
    assert!(!Value::function(Function::new_script()).is_falsey());
    assert!(!Value::closure(Closure::new(Function::new_script())).is_falsey());
}

#[test]
fn kinds_and_accessors() {
    let number = Value::number(42);
    assert!(number.is_number() && !number.is_bool() && !number.is_nil());
    assert!(!number.is_string() && !number.is_function());
    assert_eq!(number.clone().as_number(), Some(42));
    assert_eq!(number.clone().as_bool(), None);
    assert_eq!(number.clone().as_string(), None);
    assert!(number.clone().as_function().is_none());
    assert!(number.as_closure().is_none());

    let boolean = Value::bool(true);
    assert!(boolean.is_bool());
    assert_eq!(boolean.clone().as_bool(), Some(true));
    assert_eq!(boolean.as_number(), None);

    let nil = Value::nil();
    assert!(nil.is_nil());
    assert_eq!(nil.as_bool(), None);

    let string = Value::string("text");
    assert!(string.is_string());
    assert_eq!(string.clone().as_string(), Some("text".to_string()));
    assert_eq!(string.as_number(), None);

    let function = Value::function(Function::new_function("f"));
    assert!(function.is_function());
    let f = function.as_function().unwrap();
    assert_eq!(f.arity, 0);
    assert_eq!(f.upvalue_count, 0);
    assert!(f.chunk.codes.is_empty());
    assert!(f.chunk.constants.is_empty());

    let closure = Value::closure(Closure::new(Function::new_script()));
    assert!(!closure.is_function());
    let c = closure.as_closure().unwrap();
    assert!(c.upvalues.is_empty());
}

#[test]
fn clone_is_deep() {
    let mut function = Function::new_function("outer");
    function.chunk.add_constant(Value::string("inner text")).unwrap();
    function.chunk.add_constant(Value::function(Function::new_function("inner"))).unwrap();
    function.chunk.emit_constant(Value::number(7)).unwrap();
    let value = Value::function(function);
    let copy = value.clone().as_function().unwrap();
    assert_eq!(copy.chunk.codes, vec![0, 2]);
    assert_eq!(copy.chunk.constants.len(), 3);
    assert_eq!(copy.chunk.constants[0].clone().as_string(), Some("inner text".to_string()));
    assert_eq!(copy.chunk.constants[1].debug(&|_| String::new()), "<fun inner>");
    assert_eq!(copy.chunk.constants[2].clone().as_number(), Some(7));
    assert_eq!(copy.debug(), "<fun outer>");
}

#[test]
fn debug_rendering() {
    let render = |bits: u64| format!("{}", f64::from_bits(bits));
    assert_eq!(Value::number(1.0f64.to_bits()).debug(&render), "1");
    assert_eq!(Value::number((-2.5f64).to_bits()).debug(&render), "-2.5");
    assert_eq!(Value::bool(true).debug(&render), "true");
    assert_eq!(Value::bool(false).debug(&render), "false");
    assert_eq!(Value::nil().debug(&render), "nil");
    assert_eq!(Value::string("a b").debug(&render), "\"a b\"");
    assert_eq!(Value::string("").debug(&render), "\"\"");
    assert_eq!(Value::function(Function::new_function("add")).debug(&render), "<fun add>");
    assert_eq!(Value::function(Function::new_script()).debug(&render), "<script>");
    assert_eq!(Value::closure(Closure::new(Function::new_function("f"))).debug(&render), "<fun f>");
    assert_eq!(Closure::new(Function::new_script()).debug(), "<script>");
}
