use std::sync::Arc;
use yapl::builtins::{deserialize, serialize};
use yapl::codec::{parse, serialize_bytes};
use yapl::value::{value_eq, Env, Error, Object, Value};

fn bytes(s: &str) -> Vec<u8> {
    s.as_bytes().to_vec()
}

fn text(s: &str) -> Value {
    Value::Text(bytes(s))
}

fn obj(entries: Vec<(&str, Value)>) -> Value {
    Value::Object(Object {
        entries: entries.into_iter().map(|(k, v)| (bytes(k), v)).collect(),
    })
}

fn root() -> Arc<Env> {
    Env::builtin(bytes("main.yapl"))
}

#[test]
fn serialize_is_canonical() {
    let v = obj(vec![
        ("b", Value::Number(1)),
        ("a", Value::Array(vec![Value::Null, Value::Bool(true), Value::Bool(false)])),
    ]);
    assert_eq!(serialize_bytes(&v).unwrap(), bytes("{\"b\":1,\"a\":[null,true,false]}"));
}

#[test]
fn serialize_negative_numbers() {
    assert_eq!(serialize_bytes(&Value::Number(-42)).unwrap(), bytes("-42"));
    assert_eq!(serialize_bytes(&Value::Number(0)).unwrap(), bytes("0"));
    assert_eq!(
        serialize_bytes(&Value::Number(i64::MIN)).unwrap(),
        bytes("-9223372036854775808")
    );
}

#[test]
fn serialize_escapes_quotes_and_backslashes() {
    let v = text("a\"b\\c");
    assert_eq!(serialize_bytes(&v).unwrap(), bytes("\"a\\\"b\\\\c\""));
}

#[test]
fn serialize_rejects_functions() {
    let program = obj(vec![("+lambda", text("x")), ("+in", Value::Null)]);
    let mut out: Vec<u8> = Vec::new();
    let f = yapl::eval::eval(&root(), &program, &yapl::eval::Files::new(), 100, &mut out).unwrap();
    assert!(matches!(serialize_bytes(&f), Err(Error::InvalidType { .. })));
}

#[test]
fn parse_reads_every_variant() {
    let s = bytes("{\"k\":[1,-2,\"x\",null,true,false],\"m\":{}}");
    let v = parse(&s).unwrap();
    let expected = obj(vec![
        (
            "k",
            Value::Array(vec![
                Value::Number(1),
                Value::Number(-2),
                text("x"),
                Value::Null,
                Value::Bool(true),
                Value::Bool(false),
            ]),
        ),
        ("m", obj(vec![])),
    ]);
    assert!(value_eq(&v, &expected));
}

#[test]
fn parse_rejects_malformed_text() {
    assert!(matches!(parse(&bytes("")), Err(Error::Parse)));
    assert!(matches!(parse(&bytes("nul")), Err(Error::Parse)));
    assert!(matches!(parse(&bytes("[1,")), Err(Error::Parse)));
    assert!(matches!(parse(&bytes("{\"a\":}")), Err(Error::Parse)));
    assert!(matches!(parse(&bytes("1 ")), Err(Error::Parse)));
    assert!(matches!(parse(&bytes("\"unterminated")), Err(Error::Parse)));
    assert!(matches!(parse(&bytes("-")), Err(Error::Parse)));
}

#[test]
fn parse_rejects_numbers_out_of_range() {
    assert!(matches!(parse(&bytes("9223372036854775808")), Err(Error::Parse)));
    assert!(parse(&bytes("9223372036854775807")).is_ok());
    assert!(parse(&bytes("-9223372036854775808")).is_ok());
}

#[test]
fn round_trip_preserves_structure_exactly() {
    let v = obj(vec![
        ("order", Value::Array(vec![Value::Number(3), Value::Number(1), Value::Number(2)])),
        ("text", text("quote \" and slash \\ here")),
        ("deep", obj(vec![("inner", Value::Array(vec![obj(vec![])]))])),
        ("n", Value::Number(-77)),
        ("z", Value::Null),
    ]);
    let s = serialize_bytes(&v).unwrap();
    let back = parse(&s).unwrap();
    assert!(value_eq(&back, &v));
}

#[test]
fn round_trip_keeps_object_key_order() {
    let v = obj(vec![("z", Value::Number(1)), ("a", Value::Number(2))]);
    let back = parse(&serialize_bytes(&v).unwrap()).unwrap();
    match back {
        Value::Object(o) => {
            assert_eq!(o.entries[0].0, bytes("z"));
            assert_eq!(o.entries[1].0, bytes("a"));
        }
        _ => panic!("expected an object"),
    }
}

#[test]
fn serialize_builtin_yields_text() {
    let args = Value::Array(vec![Value::Number(1), Value::Number(2)]);
    match serialize(&root(), &args) {
        Ok(Value::Text(t)) => assert_eq!(t, bytes("[1,2]")),
        _ => panic!("expected text"),
    }
}

#[test]
fn deserialize_builtin_reads_text() {
    match deserialize(&root(), &text("[1,2]")) {
        Ok(Value::Array(vs)) => {
            assert!(matches!(vs[0], Value::Number(1)));
            assert!(matches!(vs[1], Value::Number(2)));
        }
        _ => panic!("expected an array"),
    }
}

#[test]
fn deserialize_builtin_rejects_non_text() {
    assert!(matches!(
        deserialize(&root(), &Value::Number(1)),
        Err(Error::InvalidType { .. })
    ));
}

#[test]
fn dirname_splits_at_the_last_slash() {
    assert_eq!(yapl::eval::dirname_bytes(&bytes("a/b/c.yapl")), bytes("a/b/"));
    assert_eq!(yapl::eval::dirname_bytes(&bytes("main.yapl")), bytes(""));
    assert_eq!(yapl::eval::dirname_bytes(&bytes("/x.yapl")), bytes("/"));
}
