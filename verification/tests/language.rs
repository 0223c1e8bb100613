use std::sync::Arc;
use yapl::builtins::{eq, plus};
use yapl::eval::{eval, Files};
use yapl::value::{value_eq, Env, Error, Object, Value};

fn bytes(s: &str) -> Vec<u8> {
    s.as_bytes().to_vec()
}

fn text(s: &str) -> Value {
    Value::Text(bytes(s))
}

fn obj(entries: Vec<(&str, Value)>) -> Value {
    Value::Object(Object {
        entries: entries.into_iter().map(|(k, v)| (bytes(k), v)).collect(),
    })
}

fn lookup_of(name: &str) -> Value {
    obj(vec![("+lookup", text(name))])
}

fn call_of(f: Value, arg: Value) -> Value {
    obj(vec![("+call", f), ("+with", arg)])
}

fn root() -> Arc<Env> {
    Env::builtin(bytes("main.yapl"))
}

fn run(program: Value) -> Result<Value, Error> {
    let mut out: Vec<u8> = Vec::new();
    eval(&root(), &program, &Files::new(), 10_000, &mut out)
}

fn run_with(program: Value, files: &Files) -> Result<Value, Error> {
    let mut out: Vec<u8> = Vec::new();
    eval(&root(), &program, files, 10_000, &mut out)
}

fn run_out(program: Value) -> (Result<Value, Error>, Vec<u8>) {
    let mut out: Vec<u8> = Vec::new();
    let r = eval(&root(), &program, &Files::new(), 10_000, &mut out);
    (r, out)
}

#[test]
fn literals_evaluate_to_themselves() {
    assert!(matches!(run(Value::Null), Ok(Value::Null)));
    assert!(matches!(run(Value::Bool(true)), Ok(Value::Bool(true))));
    assert!(matches!(run(Value::Number(7)), Ok(Value::Number(7))));
    match run(text("hi")) {
        Ok(Value::Text(t)) => assert_eq!(t, bytes("hi")),
        other => panic!("expected text, got {:?}", other.is_ok()),
    }
}

#[test]
fn arrays_evaluate_elementwise_in_order() {
    let program = Value::Array(vec![
        Value::Number(1),
        obj(vec![("+quote", Value::Number(2))]),
        Value::Number(3),
    ]);
    match run(program) {
        Ok(Value::Array(vs)) => {
            assert_eq!(vs.len(), 3);
            assert!(matches!(vs[0], Value::Number(1)));
            assert!(matches!(vs[1], Value::Number(2)));
            assert!(matches!(vs[2], Value::Number(3)));
        }
        _ => panic!("expected array"),
    }
}

#[test]
fn plain_objects_evaluate_values_keys_unchanged() {
    let program = obj(vec![("a", obj(vec![("+quote", Value::Number(1))]))]);
    match run(program) {
        Ok(Value::Object(o)) => {
            assert_eq!(o.entries.len(), 1);
            assert_eq!(o.entries[0].0, bytes("a"));
            assert!(matches!(o.entries[0].1, Value::Number(1)));
        }
        _ => panic!("expected object"),
    }
}

#[test]
fn quote_returns_argument_unevaluated() {
    let inner = lookup_of("unbound");
    let program = obj(vec![("+quote", inner.deep_clone())]);
    match run(program) {
        Ok(v) => assert!(value_eq(&v, &inner)),
        _ => panic!("quote must not evaluate"),
    }
}

#[test]
fn lookup_of_unbound_symbol_fails() {
    match run(lookup_of("nowhere")) {
        Err(Error::Lookup { symbol }) => assert_eq!(symbol, bytes("nowhere")),
        _ => panic!("expected a lookup error"),
    }
}

#[test]
fn plus_adds_numbers() {
    let args = Value::Array(vec![Value::Number(2), Value::Number(40)]);
    match plus(&root(), &args) {
        Ok(Value::Number(n)) => assert_eq!(n, 42),
        _ => panic!("expected 42"),
    }
}

#[test]
fn plus_wraps_at_the_machine_bound() {
    let args = Value::Array(vec![Value::Number(i64::MAX), Value::Number(1)]);
    match plus(&root(), &args) {
        Ok(Value::Number(n)) => assert_eq!(n, i64::MIN),
        _ => panic!("expected wrap-around"),
    }
}

#[test]
fn plus_rejects_non_numbers() {
    let args = Value::Array(vec![text("1"), Value::Number(1)]);
    assert!(matches!(plus(&root(), &args), Err(Error::InvalidType { .. })));
}

#[test]
fn plus_reports_missing_positions() {
    let args = Value::Array(vec![Value::Number(1)]);
    match plus(&root(), &args) {
        Err(Error::Index { index }) => assert_eq!(index, 1),
        _ => panic!("expected an index error"),
    }
}

#[test]
fn eq_is_type_sensitive() {
    let args = Value::Array(vec![Value::Number(1), text("1")]);
    match eq(&root(), &args) {
        Ok(Value::Bool(b)) => assert!(!b),
        _ => panic!("expected false"),
    }
}

#[test]
fn eq_on_identical_arrays_and_objects_is_true() {
    let a = Value::Array(vec![Value::Number(1), text("x"), Value::Null]);
    let b = Value::Array(vec![Value::Number(1), text("x"), Value::Null]);
    match eq(&root(), &Value::Array(vec![a, b])) {
        Ok(Value::Bool(b)) => assert!(b),
        _ => panic!("expected true"),
    }
    let o1 = obj(vec![("k", Value::Number(1)), ("j", Value::Bool(false))]);
    let o2 = obj(vec![("k", Value::Number(1)), ("j", Value::Bool(false))]);
    match eq(&root(), &Value::Array(vec![o1, o2])) {
        Ok(Value::Bool(b)) => assert!(b),
        _ => panic!("expected true"),
    }
}

#[test]
fn eq_is_order_sensitive_for_objects() {
    let o1 = obj(vec![("a", Value::Number(1)), ("b", Value::Number(2))]);
    let o2 = obj(vec![("b", Value::Number(2)), ("a", Value::Number(1))]);
    match eq(&root(), &Value::Array(vec![o1, o2])) {
        Ok(Value::Bool(b)) => assert!(!b),
        _ => panic!("expected false"),
    }
}

#[test]
fn let_resolves_bindings_against_the_outer_scope() {
    // Outer a = 1; the inner let rebinds a to 2 and binds b to the value of
    // `a` — which must be the outer 1, with both `a` and `b` invisible
    // while the binding values are computed.
    let inner = obj(vec![
        ("+let", obj(vec![("a", Value::Number(2)), ("b", lookup_of("a"))])),
        ("+in", lookup_of("b")),
    ]);
    let program = obj(vec![("+let", obj(vec![("a", Value::Number(1))])), ("+in", inner)]);
    match run(program) {
        Ok(Value::Number(n)) => assert_eq!(n, 1),
        _ => panic!("expected the outer binding"),
    }
}

#[test]
fn let_siblings_are_invisible_to_each_other() {
    // `a` refers to `b`, bound in the same let; non-recursive bindings
    // cannot see each other, so the reference is unbound.
    let program = obj(vec![
        ("+let", obj(vec![("a", lookup_of("b")), ("b", Value::Number(5))])),
        ("+in", lookup_of("a")),
    ]);
    match run(program) {
        Err(Error::Lookup { symbol }) => assert_eq!(symbol, bytes("b")),
        _ => panic!("a sibling binding must not be visible"),
    }
}

#[test]
fn let_requires_its_body_key() {
    let program = obj(vec![("+let", obj(vec![("a", Value::Number(1))]))]);
    match run(program) {
        Err(Error::MissingKey { key }) => assert_eq!(key, bytes("+in")),
        _ => panic!("expected a missing key error"),
    }
}

#[test]
fn if_takes_the_then_branch_and_never_touches_else() {
    // The untaken branch would fail with a lookup error if evaluated.
    let program = obj(vec![
        ("+if", Value::Bool(true)),
        ("+then", Value::Number(1)),
        ("+else", lookup_of("unbound")),
    ]);
    match run(program) {
        Ok(Value::Number(n)) => assert_eq!(n, 1),
        _ => panic!("the else branch must not run"),
    }
}

#[test]
fn if_takes_the_else_branch_on_false() {
    let program = obj(vec![
        ("+if", Value::Bool(false)),
        ("+then", lookup_of("unbound")),
        ("+else", Value::Number(2)),
    ]);
    match run(program) {
        Ok(Value::Number(n)) => assert_eq!(n, 2),
        _ => panic!("the then branch must not run"),
    }
}

#[test]
fn if_rejects_a_non_boolean_condition() {
    let program = obj(vec![("+if", Value::Number(1)), ("+then", Value::Null)]);
    assert!(matches!(run(program), Err(Error::InvalidType { .. })));
}

#[test]
fn closures_capture_the_definition_environment() {
    // f is defined where x = 1; the call site rebinds x to 99.
    let define_f = obj(vec![
        ("+lambda", text("ignored")),
        ("+in", lookup_of("x")),
    ]);
    let call_site = obj(vec![
        ("+let", obj(vec![("x", Value::Number(99))])),
        ("+in", call_of(lookup_of("f"), Value::Null)),
    ]);
    let program = obj(vec![
        ("+let", obj(vec![("x", Value::Number(1))])),
        (
            "+in",
            obj(vec![("+let", obj(vec![("f", define_f)])), ("+in", call_site)]),
        ),
    ]);
    match run(program) {
        Ok(Value::Number(n)) => assert_eq!(n, 1),
        _ => panic!("free variables must resolve at the definition site"),
    }
}

#[test]
fn lambda_binds_positional_formals() {
    let body = call_of(
        lookup_of("plus"),
        Value::Array(vec![lookup_of("a"), lookup_of("b")]),
    );
    let f = obj(vec![
        ("+lambda", Value::Array(vec![text("a"), text("b")])),
        ("+in", body),
    ]);
    let program = call_of(f, Value::Array(vec![Value::Number(3), Value::Number(4)]));
    match run(program) {
        Ok(Value::Number(n)) => assert_eq!(n, 7),
        _ => panic!("expected 7"),
    }
}

#[test]
fn lambda_binds_named_formals() {
    let f = obj(vec![
        ("+lambda", obj(vec![("n", Value::Null)])),
        ("+in", lookup_of("n")),
    ]);
    let program = call_of(f, obj(vec![("n", Value::Number(5))]));
    match run(program) {
        Ok(Value::Number(n)) => assert_eq!(n, 5),
        _ => panic!("expected 5"),
    }
}

#[test]
fn lambda_rejects_bad_formals() {
    let program = obj(vec![("+lambda", Value::Number(1)), ("+in", Value::Null)]);
    assert!(matches!(run(program), Err(Error::InvalidType { .. })));
}

#[test]
fn map_preserves_order_and_length() {
    let add_one = obj(vec![
        ("+lambda", text("n")),
        (
            "+in",
            call_of(
                lookup_of("plus"),
                Value::Array(vec![lookup_of("n"), Value::Number(1)]),
            ),
        ),
    ]);
    let items = Value::Array(vec![Value::Number(10), Value::Number(20), Value::Number(30)]);
    let program = call_of(lookup_of("map"), Value::Array(vec![add_one, items]));
    match run(program) {
        Ok(Value::Array(vs)) => {
            assert_eq!(vs.len(), 3);
            assert!(matches!(vs[0], Value::Number(11)));
            assert!(matches!(vs[1], Value::Number(21)));
            assert!(matches!(vs[2], Value::Number(31)));
        }
        _ => panic!("expected a mapped array"),
    }
}

#[test]
fn ambiguous_special_forms_are_rejected() {
    let program = obj(vec![
        ("+quote", Value::Number(1)),
        ("+if", Value::Bool(true)),
    ]);
    assert!(matches!(run(program), Err(Error::InvalidType { .. })));
}

#[test]
fn evaluation_budget_is_enforced() {
    // A self-applying lambda loops forever; the budget turns that into an
    // error instead.
    let self_apply = obj(vec![
        ("+lambda", text("f")),
        ("+in", call_of(lookup_of("f"), lookup_of("f"))),
    ]);
    let program = call_of(self_apply.deep_clone(), self_apply);
    let mut out: Vec<u8> = Vec::new();
    let r = eval(&root(), &program, &Files::new(), 200, &mut out);
    assert!(matches!(r, Err(Error::RecursionLimit)));
}

#[test]
fn import_aliases_the_export_object() {
    let mut files = Files::new();
    files.add(bytes("math.yapl"), bytes("{\"+export\":{\"pi\":3}}"));
    let program = obj(vec![
        ("+import", obj(vec![("math", text("m"))])),
        ("+in", lookup_of("m")),
    ]);
    match run_with(program, &files) {
        Ok(Value::Object(o)) => {
            assert_eq!(o.entries.len(), 1);
            assert_eq!(o.entries[0].0, bytes("pi"));
            assert!(matches!(o.entries[0].1, Value::Number(3)));
        }
        _ => panic!("expected the aliased export object"),
    }
}

#[test]
fn import_with_null_spreads_every_export() {
    let mut files = Files::new();
    files.add(bytes("math.yapl"), bytes("{\"+export\":{\"pi\":3,\"tau\":6}}"));
    let program = obj(vec![
        ("+import", obj(vec![("math", Value::Null)])),
        (
            "+in",
            Value::Array(vec![lookup_of("pi"), lookup_of("tau")]),
        ),
    ]);
    match run_with(program, &files) {
        Ok(Value::Array(vs)) => {
            assert!(matches!(vs[0], Value::Number(3)));
            assert!(matches!(vs[1], Value::Number(6)));
        }
        _ => panic!("expected the spread exports"),
    }
}

#[test]
fn imports_resolve_relative_to_the_importing_file() {
    let mut files = Files::new();
    files.add(bytes("lib/dep.yapl"), bytes("{\"+export\":{\"v\":1}}"));
    let program = obj(vec![
        ("+import", obj(vec![("dep", Value::Null)])),
        ("+in", lookup_of("v")),
    ]);
    let env = Env::builtin(bytes("lib/main.yapl"));
    let mut out: Vec<u8> = Vec::new();
    match eval(&env, &program, &files, 10_000, &mut out) {
        Ok(Value::Number(n)) => assert_eq!(n, 1),
        _ => panic!("expected the sibling module to resolve"),
    }
}

#[test]
fn modules_never_inherit_the_importer_scope() {
    let mut files = Files::new();
    files.add(
        bytes("leak.yapl"),
        bytes("{\"+export\":{\"v\":{\"+lookup\":\"secret\"}}}"),
    );
    let program = obj(vec![
        ("+let", obj(vec![("secret", Value::Number(42))])),
        (
            "+in",
            obj(vec![
                ("+import", obj(vec![("leak", Value::Null)])),
                ("+in", lookup_of("v")),
            ]),
        ),
    ]);
    match run_with(program, &files) {
        Err(Error::Lookup { symbol }) => assert_eq!(symbol, bytes("secret")),
        _ => panic!("the module must not see the importer's bindings"),
    }
}

#[test]
fn later_imports_replace_earlier_exports_of_the_same_name() {
    let mut files = Files::new();
    files.add(bytes("one.yapl"), bytes("{\"+export\":{\"v\":1}}"));
    files.add(bytes("two.yapl"), bytes("{\"+export\":{\"v\":2}}"));
    let program = obj(vec![
        (
            "+import",
            obj(vec![("one", Value::Null), ("two", Value::Null)]),
        ),
        ("+in", lookup_of("v")),
    ]);
    match run_with(program, &files) {
        Ok(Value::Number(n)) => assert_eq!(n, 2),
        _ => panic!("the later export must win"),
    }
}

#[test]
fn import_of_a_missing_file_is_an_io_error() {
    let program = obj(vec![
        ("+import", obj(vec![("ghost", Value::Null)])),
        ("+in", Value::Null),
    ]);
    assert!(matches!(run(program), Err(Error::IO)));
}

#[test]
fn import_of_a_malformed_file_is_a_parse_error() {
    let mut files = Files::new();
    files.add(bytes("bad.yapl"), bytes("{\"+export\":"));
    let program = obj(vec![
        ("+import", obj(vec![("bad", Value::Null)])),
        ("+in", Value::Null),
    ]);
    assert!(matches!(run_with(program, &files), Err(Error::Parse)));
}

#[test]
fn export_evaluates_its_values() {
    let program = obj(vec![(
        "+export",
        obj(vec![(
            "sum",
            call_of(
                lookup_of("plus"),
                Value::Array(vec![Value::Number(1), Value::Number(2)]),
            ),
        )]),
    )]);
    match run(program) {
        Ok(Value::Object(o)) => {
            assert_eq!(o.entries[0].0, bytes("sum"));
            assert!(matches!(o.entries[0].1, Value::Number(3)));
        }
        _ => panic!("expected the evaluated export object"),
    }
}

#[test]
fn run_program_parses_and_evaluates_a_whole_file() {
    let mut files = Files::new();
    files.add(bytes("lib/math.yapl"), bytes("{\"+export\":{\"two\":2}}"));
    let text = bytes(
        "{\"+import\":{\"math\":null},\"+in\":{\"+call\":{\"+lookup\":\"plus\"},\"+with\":[{\"+lookup\":\"two\"},40]}}",
    );
    let mut out: Vec<u8> = Vec::new();
    match yapl::eval::run_program(&text, bytes("lib/main.yapl"), &files, 10_000, &mut out) {
        Ok(Value::Number(n)) => assert_eq!(n, 42),
        _ => panic!("expected 42"),
    }
}

#[test]
fn run_program_rejects_malformed_text() {
    let mut out: Vec<u8> = Vec::new();
    let r = yapl::eval::run_program(&bytes("{oops"), bytes("main.yapl"), &Files::new(), 10_000, &mut out);
    assert!(matches!(r, Err(Error::Parse)));
}

#[test]
fn import_rejects_a_bad_mapping_value_and_echoes_it() {
    let mut files = Files::new();
    files.add(bytes("math.yapl"), bytes("{\"+export\":{\"pi\":3}}"));
    let program = obj(vec![
        ("+import", obj(vec![("math", Value::Number(7))])),
        ("+in", Value::Null),
    ]);
    match run_with(program, &files) {
        Err(Error::InvalidType { actual, .. }) => {
            assert!(value_eq(&actual, &Value::Number(7)));
        }
        _ => panic!("expected an invalid mapping error carrying the mapping value"),
    }
}

#[test]
fn println_appends_text_and_a_line_terminator() {
    let program = call_of(lookup_of("println"), text("hi"));
    let (r, out) = run_out(program);
    assert!(matches!(r, Ok(Value::Null)));
    assert_eq!(out, bytes("hi\n"));
}

#[test]
fn print_appends_text_without_a_line_terminator() {
    let program = call_of(lookup_of("print"), text("hi"));
    let (r, out) = run_out(program);
    assert!(matches!(r, Ok(Value::Null)));
    assert_eq!(out, bytes("hi"));
}

#[test]
fn prints_accumulate_in_evaluation_order() {
    let program = Value::Array(vec![
        call_of(lookup_of("print"), text("a")),
        call_of(lookup_of("println"), text("b")),
        call_of(lookup_of("print"), text("c")),
    ]);
    let (r, out) = run_out(program);
    assert!(r.is_ok());
    assert_eq!(out, bytes("ab\nc"));
}

#[test]
fn print_rejects_a_non_text_argument() {
    let program = call_of(lookup_of("print"), Value::Number(5));
    let (r, out) = run_out(program);
    assert!(matches!(r, Err(Error::InvalidType { .. })));
    assert_eq!(out, bytes(""));
}

#[test]
fn the_untaken_branch_never_produces_output() {
    // The else branch calls print; with a true condition it must never run,
    // so nothing may reach the output.
    let program = obj(vec![
        ("+if", Value::Bool(true)),
        ("+then", Value::Number(1)),
        ("+else", call_of(lookup_of("print"), text("leak"))),
    ]);
    let (r, out) = run_out(program);
    assert!(matches!(r, Ok(Value::Number(1))));
    assert_eq!(out, bytes(""));
}

#[test]
fn modules_can_print_while_loading() {
    let mut files = Files::new();
    files.add(
        bytes("noisy.yapl"),
        bytes("{\"+let\":{\"ignored\":{\"+call\":{\"+lookup\":\"println\"},\"+with\":\"loading\"}},\"+in\":{\"+export\":{\"v\":1}}}"),
    );
    let program = obj(vec![
        ("+import", obj(vec![("noisy", Value::Null)])),
        ("+in", lookup_of("v")),
    ]);
    let mut out: Vec<u8> = Vec::new();
    let r = eval(&root(), &program, &files, 10_000, &mut out);
    assert!(matches!(r, Ok(Value::Number(1))));
    assert_eq!(out, bytes("loading\n"));
}
