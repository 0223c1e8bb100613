//! The laws of the language, stated once over the spec-level interpreter
//! and proved for every input.  The round-trip law of the codec lives in
//! `codec` beside its machinery.

use crate::env::{root_env_model, root_frame};
use crate::eval::{
    apply_spec, bind_formals, child_env, dispatch_spec, eq_spec, eval_entries_spec, eval_spec,
    find_forms, get_index_spec, get_key_spec, if_spec, import_fold_spec, let_spec, map_fold_spec,
    map_spec, op_of, spread_spec, Op, SpecFiles,
};
use crate::keys;
use crate::value::{
    assoc_find, assoc_get, assoc_insert, env_lookup, SpecEnv, SpecError, SpecFormals,
    SpecFunction, SpecValue,
};
use vstd::prelude::*;

verus! {

/// Structural equality is type-sensitive: `eq` on a pair answers exactly
/// whether the two values are structurally equal, and values of
/// different variants are never equal, even if logically comparable.
pub proof fn lemma_eq_type_sensitive(a: SpecValue, b: SpecValue)
    ensures
        eq_spec(SpecValue::Array(seq![a, b])) == Ok::<SpecValue, SpecError>(
            SpecValue::Bool(a == b),
        ),
        a is Number && b is Text ==> eq_spec(SpecValue::Array(seq![a, b])) == Ok::<
            SpecValue,
            SpecError,
        >(SpecValue::Bool(false)),
{
    let es = seq![a, b];
    assert(get_index_spec(es, 0) == Ok::<SpecValue, SpecError>(a));
    assert(get_index_spec(es, 1) == Ok::<SpecValue, SpecError>(b));
}

/// Evaluating an object's entries touches only the given environment:
/// every resulting value is the evaluation of its own expression against
/// that same environment, keys and order unchanged.
pub proof fn lemma_eval_entries_pointwise(
    env: SpecEnv,
    ens: Seq<(Seq<u8>, SpecValue)>,
    i: int,
    files: SpecFiles,
    fuel: nat,
)
    requires
        0 <= i <= ens.len(),
    ensures
        match eval_entries_spec(env, ens, i, files, fuel).0 {
            Ok(rs) => rs.len() == ens.len() - i && forall|j: int|
                0 <= j < rs.len() ==> (#[trigger] rs[j]).0 == ens[i + j].0 && Ok::<
                    SpecValue,
                    SpecError,
                >(rs[j].1) == eval_spec(env, ens[i + j].1, files, fuel).0,
            Err(_) => true,
        },
    decreases ens.len() - i,
{
    if i < ens.len() {
        lemma_eval_entries_pointwise(env, ens, i + 1, files, fuel);
    }
}

/// Non-recursive `let`: every binding value is resolved against the
/// outer environment, in which the bindings being introduced are
/// invisible; the required body sibling is then evaluated in one child
/// scope holding the results.
pub proof fn lemma_let_nonrecursive(
    env: SpecEnv,
    obj: Seq<(Seq<u8>, SpecValue)>,
    bindings: Seq<(Seq<u8>, SpecValue)>,
    files: SpecFiles,
    fuel: nat,
)
    ensures
        match eval_entries_spec(env, bindings, 0, files, fuel).0 {
            Ok(vars) => let_spec(env, obj, SpecValue::Object(bindings), files, fuel).0 == (
            match get_key_spec(obj, keys::in_key()) {
                Ok(body) => eval_spec(child_env(vars, env), body, files, fuel).0,
                Err(e) => Err(e),
            }) && vars.len() == bindings.len() && (forall|j: int|
                0 <= j < vars.len() ==> (#[trigger] vars[j]).0 == bindings[j].0 && Ok::<
                    SpecValue,
                    SpecError,
                >(vars[j].1) == eval_spec(env, bindings[j].1, files, fuel).0),
            Err(e) => let_spec(env, obj, SpecValue::Object(bindings), files, fuel).0 == Err::<
                SpecValue,
                SpecError,
            >(e),
        },
{
    lemma_eval_entries_pointwise(env, bindings, 0, files, fuel);
}

/// `if` short-circuits: when the condition evaluates to true, both the
/// outcome and the emitted output depend only on the `+then` sibling —
/// two objects that agree there agree on the whole form, whatever
/// stands under `+else`.  In particular a `print` call in the untaken
/// branch emits nothing.
pub proof fn lemma_if_short_circuit(
    env: SpecEnv,
    obj1: Seq<(Seq<u8>, SpecValue)>,
    obj2: Seq<(Seq<u8>, SpecValue)>,
    cond: SpecValue,
    files: SpecFiles,
    fuel: nat,
)
    requires
        eval_spec(env, cond, files, fuel).0 == Ok::<SpecValue, SpecError>(SpecValue::Bool(true)),
        assoc_get(obj1, keys::then_key()) == assoc_get(obj2, keys::then_key()),
    ensures
        if_spec(env, obj1, cond, files, fuel) == if_spec(env, obj2, cond, files, fuel),
{
}

/// Closures capture their definition-time environment: applying a
/// lambda never consults the call site.  A lambda of one parameter whose
/// body looks up a different name resolves it against the captured
/// scope chain alone, whatever the argument and wherever the call, and
/// emits no output doing so.
pub proof fn lemma_closure_captures_definition_env(
    cenv: SpecEnv,
    param: Seq<u8>,
    name: Seq<u8>,
    arg: SpecValue,
    files: SpecFiles,
    fuel: nat,
)
    requires
        param != name,
        fuel >= 1,
    ensures
        apply_spec(
            SpecFunction::Lambda {
                env: cenv,
                formals: SpecFormals::Singleton(param),
                body: Box::new(
                    SpecValue::Object(seq![(keys::lookup_key(), SpecValue::Text(name))]),
                ),
            },
            arg,
            files,
            fuel,
        ) == (
            match env_lookup(cenv, name) {
                Some(v) => Ok::<SpecValue, SpecError>(v),
                None => Err(SpecError::Lookup { symbol: name }),
            },
            Seq::<u8>::empty(),
        ),
{
    let frame = seq![(param, arg)];
    let obj = seq![(keys::lookup_key(), SpecValue::Text(name))];
    let body = SpecValue::Object(obj);
    assert(bind_formals(SpecFormals::Singleton(param), arg) == Ok::<
        Seq<(Seq<u8>, SpecValue)>,
        SpecError,
    >(frame));
    let child = child_env(frame, cenv);
    assert(op_of(keys::lookup_key()) == Some(Op::Lookup)) by {
        assert(keys::lambda_key()[2] == 97);
        assert(keys::lookup_key()[2] == 111);
        assert(keys::lambda_key() != keys::lookup_key());
    }
    assert(find_forms(obj, 1) =~= Seq::<(Op, int)>::empty());
    assert(find_forms(obj, 0) =~= seq![(Op::Lookup, 0int)]);
    assert(eval_spec(child, body, files, fuel) == dispatch_spec(
        child,
        obj,
        Op::Lookup,
        SpecValue::Text(name),
        files,
        (fuel - 1) as nat,
    ));
    assert(assoc_find(frame, name, 1) == 1);
    assert(assoc_find(frame, name, 0) == 1) by {
        assert(frame[0].0 == param);
    }
    assert(assoc_get(frame, name) is None);
    assert(child[0] == frame);
    assert(child.drop_first() =~= cenv);
    assert(env_lookup(child, name) == env_lookup(cenv, name));
}

/// `map` preserves order and length: on success the result has exactly
/// one element per input element, and the element at each position is
/// the application of the function to the input at that same position.
pub proof fn lemma_map_pointwise(
    f: SpecFunction,
    es: Seq<SpecValue>,
    i: int,
    files: SpecFiles,
    fuel: nat,
)
    requires
        0 <= i <= es.len(),
    ensures
        match map_fold_spec(f, es, i, files, fuel).0 {
            Ok(rs) => rs.len() == es.len() - i && forall|j: int|
                0 <= j < rs.len() ==> Ok::<SpecValue, SpecError>(#[trigger] rs[j]) == apply_spec(
                    f,
                    es[i + j],
                    files,
                    (fuel - 1) as nat,
                ).0,
            Err(_) => true,
        },
    decreases es.len() - i,
{
    if i < es.len() && fuel > 0 {
        lemma_map_pointwise(f, es, i + 1, files, fuel);
    }
}

/// The `map` builtin applied to `[f, items]` is exactly the ordered fold
/// over `items`, output included.
pub proof fn lemma_map_order_and_length(
    f: SpecFunction,
    items: Seq<SpecValue>,
    files: SpecFiles,
    fuel: nat,
)
    ensures
        map_spec(
            SpecValue::Array(seq![SpecValue::Function(f), SpecValue::Array(items)]),
            files,
            fuel,
        ).0 == (match map_fold_spec(f, items, 0, files, fuel).0 {
            Ok(rs) => Ok::<SpecValue, SpecError>(SpecValue::Array(rs)),
            Err(e) => Err(e),
        }),
        map_spec(
            SpecValue::Array(seq![SpecValue::Function(f), SpecValue::Array(items)]),
            files,
            fuel,
        ).1 == map_fold_spec(f, items, 0, files, fuel).1,
        match map_fold_spec(f, items, 0, files, fuel).0 {
            Ok(rs) => rs.len() == items.len() && forall|j: int|
                0 <= j < rs.len() ==> Ok::<SpecValue, SpecError>(#[trigger] rs[j]) == apply_spec(
                    f,
                    items[j],
                    files,
                    (fuel - 1) as nat,
                ).0,
            Err(_) => true,
        },
{
    let es = seq![SpecValue::Function(f), SpecValue::Array(items)];
    assert(get_index_spec(es, 0) == Ok::<SpecValue, SpecError>(SpecValue::Function(f)));
    assert(get_index_spec(es, 1) == Ok::<SpecValue, SpecError>(SpecValue::Array(items)));
    lemma_map_pointwise(f, items, 0, files, fuel);
}

/// Import isolation: a module program is evaluated in a brand-new root
/// environment — the merge (`import_fold_spec`) never receives the
/// importer's environment at all — so a module that assumes a variable
/// bound only at the importer fails with a `Lookup` error naming it,
/// never silently inheriting the binding.
pub proof fn lemma_import_isolation(
    path: Seq<u8>,
    name: Seq<u8>,
    files: SpecFiles,
    fuel: nat,
)
    requires
        fuel >= 1,
        name != keys::plus_name(),
        name != keys::eq_name(),
        name != keys::map_name(),
        name != keys::serialize_name(),
        name != keys::deserialize_name(),
        name != keys::println_name(),
        name != keys::print_name(),
        name != keys::file_key(),
    ensures
        eval_spec(
            root_env_model(path),
            SpecValue::Object(seq![(keys::lookup_key(), SpecValue::Text(name))]),
            files,
            fuel,
        ) == (
            Err::<SpecValue, SpecError>(SpecError::Lookup { symbol: name }),
            Seq::<u8>::empty(),
        ),
{
    let obj = seq![(keys::lookup_key(), SpecValue::Text(name))];
    let env = root_env_model(path);
    assert(op_of(keys::lookup_key()) == Some(Op::Lookup)) by {
        assert(keys::lambda_key()[2] == 97);
        assert(keys::lookup_key()[2] == 111);
        assert(keys::lambda_key() != keys::lookup_key());
    }
    assert(find_forms(obj, 1) =~= Seq::<(Op, int)>::empty());
    assert(find_forms(obj, 0) =~= seq![(Op::Lookup, 0int)]);
    assert(eval_spec(env, SpecValue::Object(obj), files, fuel) == dispatch_spec(
        env,
        obj,
        Op::Lookup,
        SpecValue::Text(name),
        files,
        (fuel - 1) as nat,
    ));
    let frame = root_frame(path);
    assert(assoc_find(frame, name, 0) == assoc_find(frame, name, 1));
    assert(assoc_find(frame, name, 1) == assoc_find(frame, name, 2));
    assert(assoc_find(frame, name, 2) == assoc_find(frame, name, 3));
    assert(assoc_find(frame, name, 3) == assoc_find(frame, name, 4));
    assert(assoc_find(frame, name, 4) == assoc_find(frame, name, 5));
    assert(assoc_find(frame, name, 5) == assoc_find(frame, name, 6));
    assert(assoc_find(frame, name, 6) == assoc_find(frame, name, 7));
    assert(assoc_find(frame, name, 7) == assoc_find(frame, name, 8));
    assert(assoc_find(frame, name, 8) == 8);
    assert(assoc_get(frame, name) is None);
    assert(env[0] == frame);
    assert(env.drop_first() =~= Seq::<Seq<(Seq<u8>, SpecValue)>>::empty());
    assert(env_lookup(Seq::<Seq<(Seq<u8>, SpecValue)>>::empty(), name) is None);
    assert(env_lookup(env, name) is None);
}

/// Import aliasing: a text mapping binds the whole export object of the
/// module under that alias; a null mapping instead spreads every
/// exported key directly into the merged frame.
pub proof fn lemma_import_aliasing(
    name: Seq<u8>,
    alias: Seq<u8>,
    dir: Seq<u8>,
    files: SpecFiles,
    fuel: nat,
    ens: Seq<(Seq<u8>, SpecValue)>,
    text: Seq<u8>,
    prog: SpecValue,
)
    requires
        crate::eval::files_get(files, dir + name + keys::module_ext()) == Some(text),
        crate::codec::parse_program(text) == Some(prog),
        eval_spec(root_env_model(dir + name + keys::module_ext()), prog, files, fuel).0 == Ok::<
            SpecValue,
            SpecError,
        >(SpecValue::Object(ens)),
    ensures
        import_fold_spec(
            seq![(name, SpecValue::Text(alias))],
            0,
            dir,
            files,
            fuel,
            Seq::empty(),
        ).0 == Ok::<Seq<(Seq<u8>, SpecValue)>, SpecError>(seq![(alias, SpecValue::Object(ens))]),
        import_fold_spec(seq![(name, SpecValue::Null)], 0, dir, files, fuel, Seq::empty()).0
            == Ok::<Seq<(Seq<u8>, SpecValue)>, SpecError>(
            spread_spec(Seq::empty(), ens, 0),
        ),
{
    let m1 = seq![(name, SpecValue::Text(alias))];
    let m2 = seq![(name, SpecValue::Null)];
    let acc0 = Seq::<(Seq<u8>, SpecValue)>::empty();
    let merged = assoc_insert(acc0, alias, SpecValue::Object(ens));
    assert(assoc_find(acc0, alias, 0) == 0);
    assert(merged =~= seq![(alias, SpecValue::Object(ens))]);
    assert(import_fold_spec(m1, 1, dir, files, fuel, merged).0 == Ok::<
        Seq<(Seq<u8>, SpecValue)>,
        SpecError,
    >(merged));
    assert(import_fold_spec(m2, 1, dir, files, fuel, spread_spec(acc0, ens, 0)).0 == Ok::<
        Seq<(Seq<u8>, SpecValue)>,
        SpecError,
    >(spread_spec(acc0, ens, 0)));
}

/// The eager output builtins: `print` writes exactly its text argument,
/// `println` the same followed by one line terminator, and both answer
/// null; a non-text argument is an `InvalidType` error that emits
/// nothing.
pub proof fn lemma_print_output(t: Seq<u8>)
    ensures
        crate::eval::print_spec(SpecValue::Text(t)) == (
            Ok::<SpecValue, SpecError>(SpecValue::Null),
            t,
        ),
        crate::eval::println_spec(SpecValue::Text(t)) == (
            Ok::<SpecValue, SpecError>(SpecValue::Null),
            t + seq![10u8],
        ),
{
}

} // verus!
