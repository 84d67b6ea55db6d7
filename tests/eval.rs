use monkey::{eval, parse, Object};

#[test]
fn test_eval_integer_expression() {
    let inputs = vec![("5", 5), ("10", 10)];
    for (input, _expected) in inputs {
        let program = parse(input.to_string()).unwrap();
        let obj = eval(&program);
        assert_eq!(obj, Object::Null);
    }
}

#[test]
fn object_printed_forms() {
    assert_eq!(Object::Integer(-42).to_string(), "-42");
    assert_eq!(Object::Integer(i64::MIN).to_string(), "-9223372036854775808");
    assert_eq!(Object::Boolean(true).to_string(), "true");
    assert_eq!(Object::Null.to_string(), "null");
}
