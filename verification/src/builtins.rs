//! The builtin table: the eager builtins (`plus`, `eq`, `map`,
//! `serialize`, `deserialize`, `println`, `print`), which receive a single
//! already-evaluated argument, and the special-form handlers (`lambda`,
//! `quote`, `lookup`, `let`, `if`, `import`, `export`), which receive the
//! raw object and the unevaluated value under their marker key and control
//! evaluation order themselves.  `print` and `println` append to the
//! output buffer the host hands in; the host writes it out.

use crate::env::arc_env_clone;
use crate::eval::{
    child_env, deserialize_spec, dirname_bytes, eq_spec, eval, eval_entries, export_spec,
    get_formals, get_index, get_key, if_spec, import_fold_spec, import_spec, lambda_spec,
    lemma_out_assoc, lemma_out_nil, let_spec, lookup_spec, map_fold, map_spec, plus_spec,
    print_spec, println_spec, serialize_spec, spread_frame, wrap_add, Files,
};
use crate::keys;
use crate::value::{
    clone_bytes, entries_model, outcome_model, value_eq, Env, Error, Function, Lambda, Object,
    Shape, SpecError, SpecValue, Value,
};
use std::sync::Arc;
use vstd::prelude::*;

verus! {

/// `deserialize`: the argument must be text; the result is the value
/// that text denotes, or a `Parse` error.
pub fn deserialize(_env: &Arc<Env>, args: &Value) -> (r: Result<Value, Error>)
    ensures
        outcome_model(r) == deserialize_spec(args.model()),
{
    match args.as_string() {
        Err(e) => Err(e),
        Ok(t) => crate::codec::parse(t),
    }
}

/// `serialize`: the canonical text of the argument, as a text value.
pub fn serialize(_env: &Arc<Env>, args: &Value) -> (r: Result<Value, Error>)
    ensures
        outcome_model(r) == serialize_spec(args.model()),
{
    match crate::codec::serialize_bytes(args) {
        Ok(b) => Ok(Value::Text(b)),
        Err(e) => Err(e),
    }
}

/// `println`: the text argument and a line terminator go to the output
/// buffer; the result is null.
pub fn println(_env: &Arc<Env>, args: &Value, out: &mut Vec<u8>) -> (r: Result<Value, Error>)
    ensures
        outcome_model(r) == println_spec(args.model()).0,
        final(out)@ == old(out)@ + println_spec(args.model()).1,
{
    proof {
        lemma_out_nil(old(out)@);
    }
    match args.as_string() {
        Err(e) => Err(e),
        Ok(t) => {
            crate::codec::push_bytes(out, t);
            out.push(10);
            proof {
                assert(out@ =~= old(out)@ + (t@ + seq![10u8]));
            }
            Ok(Value::Null)
        },
    }
}

/// `print`: the text argument goes to the output buffer; the result is
/// null.
pub fn print(_env: &Arc<Env>, args: &Value, out: &mut Vec<u8>) -> (r: Result<Value, Error>)
    ensures
        outcome_model(r) == print_spec(args.model()).0,
        final(out)@ == old(out)@ + print_spec(args.model()).1,
{
    proof {
        lemma_out_nil(old(out)@);
    }
    match args.as_string() {
        Err(e) => Err(e),
        Ok(t) => {
            crate::codec::push_bytes(out, t);
            Ok(Value::Null)
        },
    }
}

/// `lambda`: a closure over the current environment; formals come from
/// the marker value, the unevaluated body from the required `+in`
/// sibling.
pub fn lambda(env: &Arc<Env>, object: &Object, args: &Value) -> (r: Result<Value, Error>)
    ensures
        outcome_model(r) == lambda_spec((**env).model(), object.model(), args.model()),
{
    match get_formals(args) {
        Err(e) => Err(e),
        Ok(formals) => match get_key(object, &keys::in_key_bytes()) {
            Err(e) => Err(e),
            Ok(body) => Ok(
                Value::Function(
                    Function::Lambda(
                        Lambda {
                            env: arc_env_clone(env),
                            formals,
                            body: Box::new(body.deep_clone()),
                        },
                    ),
                ),
            ),
        },
    }
}

/// `lookup`: the binding named by the raw text argument.
pub fn lookup(env: &Arc<Env>, _object: &Object, args: &Value) -> (r: Result<Value, Error>)
    ensures
        outcome_model(r) == lookup_spec((**env).model(), args.model()),
{
    match args.as_string() {
        Err(e) => Err(e),
        Ok(name) => match env.lookup(name) {
            Ok(v) => Ok(v.deep_clone()),
            Err(e) => Err(e),
        },
    }
}

/// `quote`: the argument, unevaluated — an explicit escape from the
/// evaluator.
pub fn quote(_env: &Arc<Env>, _object: &Object, args: &Value) -> (r: Result<Value, Error>)
    ensures
        outcome_model(r) == Ok::<SpecValue, SpecError>(args.model()),
{
    Ok(args.deep_clone())
}

/// `let`: every binding value is evaluated against the outer environment
/// (bindings cannot see each other or themselves), one child scope is
/// built from the results, and the required `+in` sibling is evaluated
/// there.
pub fn nonrecursive_let(
    env: &Arc<Env>,
    object: &Object,
    args: &Value,
    files: &Files,
    fuel: u64,
    out: &mut Vec<u8>,
) -> (r: Result<Value, Error>)
    ensures
        ({
            let step = let_spec(
                (**env).model(),
                object.model(),
                args.model(),
                files.model(),
                fuel as nat,
            );
            outcome_model(r) == step.0 && final(out)@ == old(out)@ + step.1
        }),
    decreases fuel, 5int, 0int,
{
    proof {
        lemma_out_nil(old(out)@);
    }
    match args.as_object() {
        Err(e) => Err(e),
        Ok(bindings) => {
            let ghost o_base = out@;
            let ghost o0 = crate::eval::eval_entries_spec(
                crate::eval::env_model(env),
                entries_model(bindings.entries@),
                0,
                files.model(),
                fuel as nat,
            ).1;
            match eval_entries(env, &bindings.entries, 0, files, fuel, out) {
                Err(e) => Err(e),
                Ok(vars) => match get_key(object, &keys::in_key_bytes()) {
                    Err(e) => Err(e),
                    Ok(body) => {
                        let frame = Object { entries: vars };
                        let ghost fm = frame.model();
                        let child = Env::new(frame, Some(arc_env_clone(env)));
                        proof {
                            assert((*child).model() =~= child_env(fm, (**env).model()));
                        }
                        let ghost o1 = crate::eval::eval_spec(
                            crate::eval::env_model(&child),
                            crate::eval::value_model(body),
                            files.model(),
                            fuel as nat,
                        ).1;
                        let r1 = eval(&child, body, files, fuel, out);
                        proof {
                            lemma_out_assoc(o_base, o0, o1);
                        }
                        r1
                    },
                },
            }
        },
    }
}

/// One import entry after another: resolve, read, parse, evaluate in a
/// fresh root environment, and merge exports into the accumulated frame.
/// A mapping value that is neither text nor null is an `InvalidType`
/// error carrying that mapping value.
pub fn import_fold(
    modules: &Vec<(Vec<u8>, Value)>,
    i: usize,
    dir: &Vec<u8>,
    files: &Files,
    fuel: u64,
    acc: Object,
    out: &mut Vec<u8>,
) -> (r: Result<Object, Error>)
    ensures
        ({
            let step = import_fold_spec(
                entries_model(modules@),
                i as int,
                dir@,
                files.model(),
                fuel as nat,
                acc.model(),
            );
            (match r {
                Ok(o) => step.0 == Ok::<Seq<(Seq<u8>, SpecValue)>, SpecError>(o.model()),
                Err(e) => step.0 == Err::<Seq<(Seq<u8>, SpecValue)>, SpecError>(e.model()),
            }) && final(out)@ == old(out)@ + step.1
        }),
    decreases fuel, 2int, modules.len() - i,
{
    proof {
        lemma_out_nil(old(out)@);
    }
    if i >= modules.len() {
        Ok(acc)
    } else {
        let mut path = clone_bytes(dir);
        crate::codec::push_bytes(&mut path, &modules[i].0);
        let ext = keys::module_ext_bytes();
        crate::codec::push_bytes(&mut path, &ext);
        proof {
            assert(path@ == dir@ + entries_model(modules@)[i as int].0 + keys::module_ext());
        }
        match files.get(&path) {
            None => Err(Error::IO),
            Some(text) => match crate::codec::parse(text) {
                Err(_) => Err(Error::Parse),
                Ok(prog) => {
                    let ghost o_base = out@;
                    let ghost root_model = crate::env::root_env_model(path@);
                    let root = Env::builtin(path);
                    let ghost om = crate::eval::eval_spec(
                        root_model,
                        crate::eval::value_model(&prog),
                        files.model(),
                        fuel as nat,
                    ).1;
                    match eval(&root, &prog, files, fuel, out) {
                        Err(e) => Err(e),
                        Ok(exports) => match &modules[i].1 {
                            Value::Text(alias) => {
                                let mut acc2 = acc;
                                acc2.insert(clone_bytes(alias), exports);
                                let ghost acc2m = acc2.model();
                                let ghost o_rest = import_fold_spec(
                                    entries_model(modules@),
                                    i + 1,
                                    dir@,
                                    files.model(),
                                    fuel as nat,
                                    acc2m,
                                ).1;
                                let r1 = import_fold(modules, i + 1, dir, files, fuel, acc2, out);
                                proof {
                                    lemma_out_assoc(o_base, om, o_rest);
                                }
                                r1
                            },
                            Value::Null => match exports.as_object() {
                                Err(_) => Err(
                                    Error::InvalidType {
                                        expected: Shape::Object,
                                        actual: exports.deep_clone(),
                                    },
                                ),
                                Ok(ens) => {
                                    let acc2 = spread_frame(acc, &ens.entries, 0);
                                    proof {
                                        assert(entries_model(ens.entries@).skip(0) =~= ens.model());
                                    }
                                    let ghost acc2m = acc2.model();
                                    let ghost o_rest = import_fold_spec(
                                        entries_model(modules@),
                                        i + 1,
                                        dir@,
                                        files.model(),
                                        fuel as nat,
                                        acc2m,
                                    ).1;
                                    let r1 = import_fold(
                                        modules,
                                        i + 1,
                                        dir,
                                        files,
                                        fuel,
                                        acc2,
                                        out,
                                    );
                                    proof {
                                        lemma_out_assoc(o_base, om, o_rest);
                                    }
                                    r1
                                },
                            },
                            _ => Err(
                                Error::InvalidType {
                                    expected: Shape::ImportMapping,
                                    actual: modules[i].1.deep_clone(),
                                },
                            ),
                        },
                    }
                },
            },
        }
    }
}

/// `import`: modules resolve relative to the directory of the file named
/// by the reserved file-path binding; each is parsed and evaluated in a
/// brand-new root environment (strict isolation), exports merge into one
/// child scope, and the required `+in` sibling is evaluated there.
pub fn import(
    env: &Arc<Env>,
    object: &Object,
    args: &Value,
    files: &Files,
    fuel: u64,
    out: &mut Vec<u8>,
) -> (r: Result<Value, Error>)
    ensures
        ({
            let step = import_spec(
                (**env).model(),
                object.model(),
                args.model(),
                files.model(),
                fuel as nat,
            );
            outcome_model(r) == step.0 && final(out)@ == old(out)@ + step.1
        }),
    decreases fuel, 5int, 0int,
{
    proof {
        lemma_out_nil(old(out)@);
    }
    match args.as_object() {
        Err(e) => Err(e),
        Ok(modules) => match env.lookup(&keys::file_key_bytes()) {
            Err(e) => Err(e),
            Ok(pv) => match pv.as_string() {
                Err(e) => Err(e),
                Ok(cur) => {
                    let dir = dirname_bytes(cur);
                    let ghost o_base = out@;
                    let ghost o0 = import_fold_spec(
                        entries_model(modules.entries@),
                        0,
                        dir@,
                        files.model(),
                        fuel as nat,
                        Seq::empty(),
                    ).1;
                    match import_fold(&modules.entries, 0, &dir, files, fuel, Object::new(), out) {
                        Err(e) => Err(e),
                        Ok(vars) => match get_key(object, &keys::in_key_bytes()) {
                            Err(e) => Err(e),
                            Ok(body) => {
                                let ghost fm = vars.model();
                                let child = Env::new(vars, Some(arc_env_clone(env)));
                                proof {
                                    assert((*child).model() =~= child_env(fm, (**env).model()));
                                }
                                let ghost o1 = crate::eval::eval_spec(
                                    crate::eval::env_model(&child),
                                    crate::eval::value_model(body),
                                    files.model(),
                                    fuel as nat,
                                ).1;
                                let r1 = eval(&child, body, files, fuel, out);
                                proof {
                                    lemma_out_assoc(o_base, o0, o1);
                                }
                                r1
                            },
                        },
                    }
                },
            },
        },
    }
}

/// `export`: every value of the argument object is evaluated in the
/// current environment; the resulting object is the module's public
/// surface.
pub fn export(
    env: &Arc<Env>,
    _object: &Object,
    args: &Value,
    files: &Files,
    fuel: u64,
    out: &mut Vec<u8>,
) -> (r: Result<Value, Error>)
    ensures
        ({
            let step = export_spec((**env).model(), args.model(), files.model(), fuel as nat);
            outcome_model(r) == step.0 && final(out)@ == old(out)@ + step.1
        }),
    decreases fuel, 5int, 0int,
{
    proof {
        lemma_out_nil(old(out)@);
    }
    match args.as_object() {
        Err(e) => Err(e),
        Ok(obj) => match eval_entries(env, &obj.entries, 0, files, fuel, out) {
            Ok(ens) => Ok(Value::Object(Object { entries: ens })),
            Err(e) => Err(e),
        },
    }
}

/// `map`: the first position holds a function, the second an array; the
/// result applies the function to every element, in order.
pub fn map(env: &Arc<Env>, args: &Value, files: &Files, fuel: u64, out: &mut Vec<u8>) -> (r:
    Result<Value, Error>)
    ensures
        ({
            let step = map_spec(args.model(), files.model(), fuel as nat);
            outcome_model(r) == step.0 && final(out)@ == old(out)@ + step.1
        }),
    decreases fuel, 3int, 0int,
{
    proof {
        lemma_out_nil(old(out)@);
    }
    match args.as_array() {
        Err(e) => Err(e),
        Ok(es) => match get_index(es, 0) {
            Err(e) => Err(e),
            Ok(fv) => match fv.as_function() {
                Err(e) => Err(e),
                Ok(f) => match get_index(es, 1) {
                    Err(e) => Err(e),
                    Ok(av) => match av.as_array() {
                        Err(e) => Err(e),
                        Ok(items) => match crate::eval::map_fold(
                            env,
                            f,
                            items,
                            0,
                            files,
                            fuel,
                            out,
                        ) {
                            Ok(vs) => Ok(Value::Array(vs)),
                            Err(e) => Err(e),
                        },
                    },
                },
            },
        },
    }
}

/// `if`: the condition under the marker key is evaluated and must be a
/// boolean; only the sibling branch it selects (`+then` or `+else`) is
/// evaluated, so the untaken branch can emit no output.
pub fn if_func(
    env: &Arc<Env>,
    object: &Object,
    args: &Value,
    files: &Files,
    fuel: u64,
    out: &mut Vec<u8>,
) -> (r: Result<Value, Error>)
    ensures
        ({
            let step = if_spec(
                (**env).model(),
                object.model(),
                args.model(),
                files.model(),
                fuel as nat,
            );
            outcome_model(r) == step.0 && final(out)@ == old(out)@ + step.1
        }),
    decreases fuel, 5int, 0int,
{
    proof {
        lemma_out_nil(old(out)@);
    }
    let ghost o_base = out@;
    let ghost o0 = crate::eval::eval_spec(
        crate::eval::env_model(env),
        crate::eval::value_model(args),
        files.model(),
        fuel as nat,
    ).1;
    match eval(env, args, files, fuel, out) {
        Err(e) => Err(e),
        Ok(c) => match c.as_bool() {
            Err(e) => Err(e),
            Ok(b) => {
                let key = if b {
                    keys::then_key_bytes()
                } else {
                    keys::else_key_bytes()
                };
                match get_key(object, &key) {
                    Err(e) => Err(e),
                    Ok(branch) => {
                        let ghost o1 = crate::eval::eval_spec(
                            crate::eval::env_model(env),
                            crate::eval::value_model(branch),
                            files.model(),
                            fuel as nat,
                        ).1;
                        let r1 = eval(env, branch, files, fuel, out);
                        proof {
                            lemma_out_assoc(o_base, o0, o1);
                        }
                        r1
                    },
                }
            },
        },
    }
}

/// `eq`: structural, type-sensitive equality of the two positions;
/// values of different variants are never equal.
pub fn eq(_env: &Arc<Env>, args: &Value) -> (r: Result<Value, Error>)
    ensures
        outcome_model(r) == eq_spec(args.model()),
{
    match args.as_array() {
        Err(e) => Err(e),
        Ok(es) => match get_index(es, 0) {
            Err(e) => Err(e),
            Ok(lhs) => match get_index(es, 1) {
                Err(e) => Err(e),
                Ok(rhs) => Ok(Value::Bool(value_eq(lhs, rhs))),
            },
        },
    }
}

/// `plus`: both positions must hold numbers; the sum wraps around the
/// machine representation.
pub fn plus(_env: &Arc<Env>, args: &Value) -> (r: Result<Value, Error>)
    ensures
        outcome_model(r) == plus_spec(args.model()),
{
    match args.as_array() {
        Err(e) => Err(e),
        Ok(es) => match get_index(es, 0) {
            Err(e) => Err(e),
            Ok(a) => match a.as_number() {
                Err(e) => Err(e),
                Ok(x) => match get_index(es, 1) {
                    Err(e) => Err(e),
                    Ok(b) => match b.as_number() {
                        Err(e) => Err(e),
                        Ok(y) => Ok(Value::Number(wrap_add(x, y))),
                    },
                },
            },
        },
    }
}

} // verus!
