//! The evaluator: a spec-level interpreter that defines the language, and
//! an executable evaluator proved to agree with it.
//!
//! Evaluation is fuel-bounded: every composite step consumes one unit, and
//! an exhausted budget is a `RecursionLimit` error.  The host picks the
//! budget; programs whose call depth exceeds it fail rather than diverge.

use crate::codec::{parse_program, representable, ser};
use crate::env::root_env_model;
use crate::keys;
use crate::value::{
    assoc_get, assoc_insert, elems_model, entries_model, env_lookup, Env, Error, Formals,
    Function, Lambda, Native, Object, Shape, SpecEnv, SpecError, SpecFormals, SpecFunction,
    SpecValue, Value,
};
use std::sync::Arc;
use vstd::prelude::*;

verus! {

broadcast use vstd::std_specs::vec::axiom_vec_index_decreases,
    vstd::std_specs::vec::axiom_vec_decreases_to_view, vstd::seq::axiom_seq_index_decreases;

/// The module files an evaluation may import: paths mapped to program
/// text, both as bytes.  The host reads them from disk up front; lookup
/// returns the first entry with a given path.
pub struct Files {
    pub entries: Vec<(Vec<u8>, Vec<u8>)>,
}

/// Ghost mirror of `Files`.
pub type SpecFiles = Seq<(Seq<u8>, Seq<u8>)>;

/// First index at or after `i` whose path is `path`, or the length.
pub open spec fn files_find(files: SpecFiles, path: Seq<u8>, i: int) -> int
    decreases files.len() - i,
{
    if i < 0 || i >= files.len() {
        files.len() as int
    } else if files[i].0 == path {
        i
    } else {
        files_find(files, path, i + 1)
    }
}

/// The text of the first file at `path`, if any.
pub open spec fn files_get(files: SpecFiles, path: Seq<u8>) -> Option<Seq<u8>> {
    let j = files_find(files, path, 0);
    if j < files.len() {
        Some(files[j].1)
    } else {
        None
    }
}

impl Files {
    /// The ghost path-to-text association this table stands for.
    pub open spec fn model(self) -> SpecFiles {
        Seq::new(
            self.entries@.len(),
            |i: int|
                if 0 <= i < self.entries@.len() {
                    (self.entries@[i].0@, self.entries@[i].1@)
                } else {
                    (Seq::<u8>::empty(), Seq::<u8>::empty())
                },
        )
    }

    /// An empty table.
    pub fn new() -> (r: Files)
        ensures
            r.model() == Seq::<(Seq<u8>, Seq<u8>)>::empty(),
    {
        let r = Files { entries: Vec::new() };
        proof {
            assert(r.model() =~= Seq::<(Seq<u8>, Seq<u8>)>::empty());
        }
        r
    }

    /// Add a file at the end of the table.
    pub fn add(&mut self, path: Vec<u8>, text: Vec<u8>)
        ensures
            final(self).model() == old(self).model().push((path@, text@)),
    {
        self.entries.push((path, text));
        proof {
            assert(self.model() =~= old(self).model().push((path@, text@)));
        }
    }

    /// The text of the first file at `path`, if any.
    pub fn get(&self, path: &Vec<u8>) -> (r: Option<&Vec<u8>>)
        ensures
            match r {
                Some(t) => files_get(self.model(), path@) == Some(t@),
                None => files_get(self.model(), path@) is None,
            },
    {
        let n = self.entries.len();
        let mut i: usize = 0;
        while i < n
            invariant
                i <= n,
                n == self.entries.len(),
                files_find(self.model(), path@, 0) == files_find(self.model(), path@, i as int),
            decreases n - i,
        {
            if crate::value::bytes_eq(&self.entries[i].0, path) {
                return Some(&self.entries[i].1);
            }
            i += 1;
        }
        None
    }
}

/// The special forms, one per marker-prefixed operator key.
#[derive(Clone, Copy, PartialEq, Eq, Structural)]
pub enum Op {
    Lambda,
    Quote,
    Lookup,
    Let,
    If,
    Import,
    Export,
    Call,
}

/// The operator a key denotes, if it is a special-form key.
pub open spec fn op_of(key: Seq<u8>) -> Option<Op> {
    if key == keys::lambda_key() {
        Some(Op::Lambda)
    } else if key == keys::quote_key() {
        Some(Op::Quote)
    } else if key == keys::lookup_key() {
        Some(Op::Lookup)
    } else if key == keys::let_key() {
        Some(Op::Let)
    } else if key == keys::if_key() {
        Some(Op::If)
    } else if key == keys::import_key() {
        Some(Op::Import)
    } else if key == keys::export_key() {
        Some(Op::Export)
    } else if key == keys::call_key() {
        Some(Op::Call)
    } else {
        None
    }
}

/// The operator a key denotes, decided by comparison.
pub fn op_of_bytes(key: &Vec<u8>) -> (r: Option<Op>)
    ensures
        r == op_of(key@),
{
    if crate::value::bytes_eq(key, &keys::lambda_key_bytes()) {
        Some(Op::Lambda)
    } else if crate::value::bytes_eq(key, &keys::quote_key_bytes()) {
        Some(Op::Quote)
    } else if crate::value::bytes_eq(key, &keys::lookup_key_bytes()) {
        Some(Op::Lookup)
    } else if crate::value::bytes_eq(key, &keys::let_key_bytes()) {
        Some(Op::Let)
    } else if crate::value::bytes_eq(key, &keys::if_key_bytes()) {
        Some(Op::If)
    } else if crate::value::bytes_eq(key, &keys::import_key_bytes()) {
        Some(Op::Import)
    } else if crate::value::bytes_eq(key, &keys::export_key_bytes()) {
        Some(Op::Export)
    } else if crate::value::bytes_eq(key, &keys::call_key_bytes()) {
        Some(Op::Call)
    } else {
        None
    }
}

/// The special-form keys of an object from entry `i` on: each operator
/// paired with the index of its entry.
pub open spec fn find_forms(obj: Seq<(Seq<u8>, SpecValue)>, i: int) -> Seq<(Op, int)>
    decreases obj.len() - i,
{
    if i < 0 || i >= obj.len() {
        Seq::empty()
    } else {
        match op_of(obj[i].0) {
            Some(op) => seq![(op, i)] + find_forms(obj, i + 1),
            None => find_forms(obj, i + 1),
        }
    }
}

/// The special-form keys of an object from entry `i` on.
pub fn find_forms_from(obj: &Object, i: usize) -> (r: Vec<(Op, usize)>)
    ensures
        r@.len() == find_forms(obj.model(), i as int).len(),
        forall|k: int|
            0 <= k < r@.len() ==> (r@[k].0, r@[k].1 as int) == find_forms(obj.model(), i as int)[k],
    decreases obj.entries.len() - i,
{
    if i >= obj.entries.len() {
        Vec::new()
    } else {
        let rest = find_forms_from(obj, i + 1);
        match op_of_bytes(&obj.entries[i].0) {
            Some(op) => {
                let ghost old_rest = rest@;
                let mut r = rest;
                r.insert(0, (op, i));
                proof {
                    assert(find_forms(obj.model(), i as int) =~= seq![(op, i as int)] + find_forms(
                        obj.model(),
                        i + 1,
                    ));
                }
                r
            },
            None => rest,
        }
    }
}

/// The element at `i`, or an `Index` error.
pub open spec fn get_index_spec(es: Seq<SpecValue>, i: int) -> Result<SpecValue, SpecError> {
    if 0 <= i < es.len() {
        Ok(es[i])
    } else {
        Err(SpecError::Index { index: i })
    }
}

/// The value under a special form's required sibling key, or a
/// `MissingKey` error.
pub open spec fn get_key_spec(obj: Seq<(Seq<u8>, SpecValue)>, key: Seq<u8>) -> Result<
    SpecValue,
    SpecError,
> {
    match assoc_get(obj, key) {
        Some(v) => Ok(v),
        None => Err(SpecError::MissingKey { key }),
    }
}

/// The value under `key`, or a `MissingKey` error.
pub fn get_key<'a>(obj: &'a Object, key: &Vec<u8>) -> (r: Result<&'a Value, Error>)
    ensures
        match r {
            Ok(v) => get_key_spec(obj.model(), key@) == Ok::<SpecValue, SpecError>(v.model()),
            Err(e) => get_key_spec(obj.model(), key@) == Err::<SpecValue, SpecError>(e.model()),
        },
{
    match obj.get(key) {
        Some(v) => Ok(v),
        None => Err(Error::MissingKey { key: crate::value::clone_bytes(key) }),
    }
}

/// The names of a positional formals list: every element must be text.
pub open spec fn names_of(es: Seq<SpecValue>, i: int) -> Result<Seq<Seq<u8>>, SpecError>
    decreases es.len() - i,
{
    if i < 0 || i >= es.len() {
        Ok(Seq::empty())
    } else {
        match es[i] {
            SpecValue::Text(t) => match names_of(es, i + 1) {
                Ok(ns) => Ok(seq![t] + ns),
                Err(e) => Err(e),
            },
            _ => Err(SpecError::InvalidType { expected: Shape::Text, actual: es[i] }),
        }
    }
}

/// The keys of an object, in order.
pub open spec fn keys_of(ens: Seq<(Seq<u8>, SpecValue)>) -> Seq<Seq<u8>> {
    Seq::new(
        ens.len(),
        |i: int|
            if 0 <= i < ens.len() {
                ens[i].0
            } else {
                Seq::<u8>::empty()
            },
    )
}

/// Formals from the value under the `lambda` key: text binds the whole
/// argument, an array of names binds by position, an object binds by its
/// keys; anything else is an `InvalidType` error.
pub open spec fn formals_of(v: SpecValue) -> Result<SpecFormals, SpecError> {
    match v {
        SpecValue::Text(t) => Ok(SpecFormals::Singleton(t)),
        SpecValue::Array(es) => match names_of(es, 0) {
            Ok(ns) => Ok(SpecFormals::Positional(ns)),
            Err(e) => Err(e),
        },
        SpecValue::Object(ens) => Ok(SpecFormals::Named(keys_of(ens))),
        _ => Err(SpecError::InvalidType { expected: Shape::Formals, actual: v }),
    }
}

/// Formals from a runtime value.
pub fn get_formals(args: &Value) -> (r: Result<Formals, Error>)
    ensures
        match r {
            Ok(f) => formals_of(args.model()) == Ok::<SpecFormals, SpecError>(f.model()),
            Err(e) => formals_of(args.model()) == Err::<SpecFormals, SpecError>(e.model()),
        },
{
    match args {
        Value::Text(name) => Ok(Formals::Singleton(crate::value::clone_bytes(name))),
        Value::Array(names) => match names_of_exec(names, 0) {
            Ok(ns) => {
                let r = Formals::Positional(ns);
                Ok(r)
            },
            Err(e) => Err(e),
        },
        Value::Object(names) => {
            let mut ks: Vec<Vec<u8>> = Vec::new();
            let mut i: usize = 0;
            while i < names.entries.len()
                invariant
                    i <= names.entries.len(),
                    ks@.len() == i,
                    forall|j: int| 0 <= j < i ==> ks@[j]@ == names.entries@[j].0@,
                decreases names.entries.len() - i,
            {
                ks.push(crate::value::clone_bytes(&names.entries[i].0));
                i += 1;
            }
            proof {
                assert(crate::value::names_model(ks@) =~= keys_of(names.model()));
            }
            Ok(Formals::Named(ks))
        },
        _ => Err(
            Error::InvalidType { expected: Shape::Formals, actual: args.deep_clone() },
        ),
    }
}

/// The names of a positional formals list, checked element by element.
pub fn names_of_exec(es: &Vec<Value>, i: usize) -> (r: Result<Vec<Vec<u8>>, Error>)
    ensures
        match r {
            Ok(ns) => names_of(elems_model(es@), i as int) == Ok::<Seq<Seq<u8>>, SpecError>(
                crate::value::names_model(ns@),
            ),
            Err(e) => names_of(elems_model(es@), i as int) == Err::<Seq<Seq<u8>>, SpecError>(
                e.model(),
            ),
        },
    decreases es.len() - i,
{
    if i >= es.len() {
        let r: Vec<Vec<u8>> = Vec::new();
        proof {
            assert(crate::value::names_model(r@) =~= Seq::<Seq<u8>>::empty());
        }
        Ok(r)
    } else {
        match &es[i] {
            Value::Text(t) => match names_of_exec(es, i + 1) {
                Ok(rest) => {
                    let ghost old_rest = crate::value::names_model(rest@);
                    let mut ns = rest;
                    ns.insert(0, crate::value::clone_bytes(t));
                    proof {
                        assert(crate::value::names_model(ns@) =~= seq![t@] + old_rest);
                    }
                    Ok(ns)
                },
                Err(e) => Err(e),
            },
            _ => Err(
                Error::InvalidType { expected: Shape::Text, actual: es[i].deep_clone() },
            ),
        }
    }
}

/// The binding frame a function call builds: the argument destructured
/// according to the formals.
pub open spec fn bind_formals(f: SpecFormals, arg: SpecValue) -> Result<
    Seq<(Seq<u8>, SpecValue)>,
    SpecError,
> {
    match f {
        SpecFormals::Singleton(name) => Ok(seq![(name, arg)]),
        SpecFormals::Positional(names) => match arg {
            SpecValue::Array(es) => bind_positional(names, es, 0),
            _ => Err(SpecError::InvalidType { expected: Shape::Array, actual: arg }),
        },
        SpecFormals::Named(names) => match arg {
            SpecValue::Object(ens) => bind_named(names, ens, 0),
            _ => Err(SpecError::InvalidType { expected: Shape::Object, actual: arg }),
        },
    }
}

/// Bind each name to the element at its own index; a missing element is
/// an `Index` error.
pub open spec fn bind_positional(names: Seq<Seq<u8>>, es: Seq<SpecValue>, i: int) -> Result<
    Seq<(Seq<u8>, SpecValue)>,
    SpecError,
>
    decreases names.len() - i,
{
    if i < 0 || i >= names.len() {
        Ok(Seq::empty())
    } else if i >= es.len() {
        Err(SpecError::Index { index: i })
    } else {
        match bind_positional(names, es, i + 1) {
            Ok(rest) => Ok(seq![(names[i], es[i])] + rest),
            Err(e) => Err(e),
        }
    }
}

/// Bind each name to the object's value at that key; a missing key is a
/// `MissingKey` error.
pub open spec fn bind_named(names: Seq<Seq<u8>>, ens: Seq<(Seq<u8>, SpecValue)>, i: int) -> Result<
    Seq<(Seq<u8>, SpecValue)>,
    SpecError,
>
    decreases names.len() - i,
{
    if i < 0 || i >= names.len() {
        Ok(Seq::empty())
    } else {
        match assoc_get(ens, names[i]) {
            Some(v) => match bind_named(names, ens, i + 1) {
                Ok(rest) => Ok(seq![(names[i], v)] + rest),
                Err(e) => Err(e),
            },
            None => Err(SpecError::MissingKey { key: names[i] }),
        }
    }
}

/// The directory prefix of a path: everything up to and including the
/// last slash, or nothing if the path has none.
pub open spec fn dirname(path: Seq<u8>) -> Seq<u8>
    decreases path.len(),
{
    if path.len() == 0 {
        Seq::empty()
    } else if path[path.len() - 1] == 47 {
        path
    } else {
        dirname(path.drop_last())
    }
}

/// The directory prefix of a path.
pub fn dirname_bytes(path: &Vec<u8>) -> (r: Vec<u8>)
    ensures
        r@ == dirname(path@),
{
    proof {
        assert(path@.subrange(0, path@.len() as int) =~= path@);
    }
    let mut k: usize = path.len();
    while k > 0 && path[k - 1] != 47
        invariant
            k <= path.len(),
            dirname(path@) == dirname(path@.subrange(0, k as int)),
        decreases k,
    {
        proof {
            assert(path@.subrange(0, k as int).drop_last() =~= path@.subrange(0, k - 1));
        }
        k -= 1;
    }
    let mut r: Vec<u8> = Vec::new();
    let mut i: usize = 0;
    while i < k
        invariant
            i <= k,
            k <= path.len(),
            r@ == path@.subrange(0, i as int),
        decreases k - i,
    {
        r.push(path[i]);
        proof {
            assert(path@.subrange(0, i as int).push(path@[i as int]) =~= path@.subrange(0, i + 1));
        }
        i += 1;
    }
    proof {
        if k == 0 {
            assert(path@.subrange(0, 0) =~= Seq::<u8>::empty());
            assert(dirname(path@.subrange(0, 0)) =~= Seq::<u8>::empty());
        }
        assert(r@ =~= dirname(path@));
    }
    r
}

/// The file a module name resolves to: the importing file's directory,
/// the name, and the module extension.
pub open spec fn resolved_path(cur: Seq<u8>, name: Seq<u8>) -> Seq<u8> {
    dirname(cur) + name + keys::module_ext()
}

/// A child scope: a new frame in front of the parent chain.
pub open spec fn child_env(frame: Seq<(Seq<u8>, SpecValue)>, parent: SpecEnv) -> SpecEnv {
    seq![frame] + parent
}

/// The scope chain a shared environment handle stands for.
pub open spec fn env_model(e: &Arc<Env>) -> SpecEnv {
    (**e).model()
}

/// The ghost value a borrowed datum stands for.
pub open spec fn value_model(v: &Value) -> SpecValue {
    v.model()
}

/// The ghost function a borrowed callable stands for.
pub open spec fn function_model(f: &Function) -> SpecFunction {
    f.model()
}

/// The arithmetic of `plus`: two's-complement wrap-around addition.
pub open spec fn wrap64(n: int) -> int {
    if n > i64::MAX {
        n - 0x10000000000000000
    } else if n < i64::MIN {
        n + 0x10000000000000000
    } else {
        n
    }
}

/// Wrap-around addition of two machine numbers.
pub fn wrap_add(a: i64, b: i64) -> (r: i64)
    ensures
        r as int == wrap64(a as int + b as int),
{
    let s: i128 = a as i128 + b as i128;
    if s > 9223372036854775807i128 {
        (s - 18446744073709551616i128) as i64
    } else if s < -9223372036854775808i128 {
        (s + 18446744073709551616i128) as i64
    } else {
        s as i64
    }
}

} // verus!
verus! {

/// Ghost outcome of an evaluation step.
pub type SpecOutcome = Result<SpecValue, SpecError>;

/// Ghost result of an evaluation step together with the output bytes it
/// emits: everything `print` and `println` write, in order.
pub type SpecStep = (Result<SpecValue, SpecError>, Seq<u8>);

/// The meaning of `plus`: both positions must hold numbers; the sum wraps.
pub open spec fn plus_spec(arg: SpecValue) -> SpecOutcome {
    match arg {
        SpecValue::Array(es) => match get_index_spec(es, 0) {
            Err(e) => Err(e),
            Ok(a) => match a {
                SpecValue::Number(x) => match get_index_spec(es, 1) {
                    Err(e) => Err(e),
                    Ok(b) => match b {
                        SpecValue::Number(y) => Ok(SpecValue::Number(wrap64(x + y))),
                        _ => Err(SpecError::InvalidType { expected: Shape::Number, actual: b }),
                    },
                },
                _ => Err(SpecError::InvalidType { expected: Shape::Number, actual: a }),
            },
        },
        _ => Err(SpecError::InvalidType { expected: Shape::Array, actual: arg }),
    }
}

/// The meaning of `eq`: structural, type-sensitive equality of the two
/// positions.
pub open spec fn eq_spec(arg: SpecValue) -> SpecOutcome {
    match arg {
        SpecValue::Array(es) => match get_index_spec(es, 0) {
            Err(e) => Err(e),
            Ok(a) => match get_index_spec(es, 1) {
                Err(e) => Err(e),
                Ok(b) => Ok(SpecValue::Bool(a == b)),
            },
        },
        _ => Err(SpecError::InvalidType { expected: Shape::Array, actual: arg }),
    }
}

/// The meaning of the `serialize` builtin: the canonical text of the
/// argument.
pub open spec fn serialize_spec(arg: SpecValue) -> SpecOutcome {
    if representable(arg) {
        Ok(SpecValue::Text(ser(arg)))
    } else {
        Err(SpecError::InvalidType { expected: Shape::Serializable, actual: arg })
    }
}

/// The meaning of the `deserialize` builtin: the value the argument text
/// denotes.
pub open spec fn deserialize_spec(arg: SpecValue) -> SpecOutcome {
    match arg {
        SpecValue::Text(t) => match parse_program(t) {
            Some(v) => Ok(v),
            None => Err(SpecError::Parse),
        },
        _ => Err(SpecError::InvalidType { expected: Shape::Text, actual: arg }),
    }
}

/// The meaning of the `print` builtin: the text argument goes to the
/// output, the result is null.
pub open spec fn print_spec(arg: SpecValue) -> SpecStep {
    match arg {
        SpecValue::Text(t) => (Ok(SpecValue::Null), t),
        _ => (
            Err(SpecError::InvalidType { expected: Shape::Text, actual: arg }),
            Seq::empty(),
        ),
    }
}

/// The meaning of the `println` builtin: the text argument and a line
/// terminator go to the output, the result is null.
pub open spec fn println_spec(arg: SpecValue) -> SpecStep {
    match arg {
        SpecValue::Text(t) => (Ok(SpecValue::Null), t + seq![10u8]),
        _ => (
            Err(SpecError::InvalidType { expected: Shape::Text, actual: arg }),
            Seq::empty(),
        ),
    }
}

/// The meaning of the `lookup` special form: the binding named by the raw
/// (unevaluated) text argument.
pub open spec fn lookup_spec(env: SpecEnv, arg: SpecValue) -> SpecOutcome {
    match arg {
        SpecValue::Text(name) => match env_lookup(env, name) {
            Some(v) => Ok(v),
            None => Err(SpecError::Lookup { symbol: name }),
        },
        _ => Err(SpecError::InvalidType { expected: Shape::Text, actual: arg }),
    }
}

/// The meaning of the `lambda` special form: a closure over the current
/// environment, with formals from the marker value and the unevaluated
/// body from the required `+in` sibling.
pub open spec fn lambda_spec(env: SpecEnv, obj: Seq<(Seq<u8>, SpecValue)>, arg: SpecValue) -> SpecOutcome {
    match formals_of(arg) {
        Err(e) => Err(e),
        Ok(f) => match get_key_spec(obj, keys::in_key()) {
            Err(e) => Err(e),
            Ok(body) => Ok(
                SpecValue::Function(
                    SpecFunction::Lambda { env, formals: f, body: Box::new(body) },
                ),
            ),
        },
    }
}

/// The central dispatcher.  Literals and functions evaluate to
/// themselves and emit nothing; arrays element-wise; an object is a
/// special form if exactly one of its keys denotes an operator, plain
/// data if none does, and an error if several do.  The second component
/// is the output the step emits, in order.
pub open spec fn eval_spec(env: SpecEnv, v: SpecValue, files: SpecFiles, fuel: nat) -> SpecStep
    decreases fuel, 0int, 0int,
{
    match v {
        SpecValue::Array(es) => if fuel == 0 {
            (Err(SpecError::RecursionLimit), Seq::empty())
        } else {
            let (r, o) = eval_elems_spec(env, es, 0, files, (fuel - 1) as nat);
            match r {
                Ok(rs) => (Ok(SpecValue::Array(rs)), o),
                Err(e) => (Err(e), o),
            }
        },
        SpecValue::Object(obj) => if fuel == 0 {
            (Err(SpecError::RecursionLimit), Seq::empty())
        } else {
            let forms = find_forms(obj, 0);
            if forms.len() == 0 {
                let (r, o) = eval_entries_spec(env, obj, 0, files, (fuel - 1) as nat);
                match r {
                    Ok(ens) => (Ok(SpecValue::Object(ens)), o),
                    Err(e) => (Err(e), o),
                }
            } else if forms.len() == 1 {
                dispatch_spec(env, obj, forms[0].0, obj[forms[0].1].1, files, (fuel - 1) as nat)
            } else {
                (
                    Err(SpecError::InvalidType { expected: Shape::SpecialForm, actual: v }),
                    Seq::empty(),
                )
            }
        },
        _ => (Ok(v), Seq::empty()),
    }
}

/// Element-wise evaluation of an array, in order, fail-fast; outputs
/// concatenate in element order.
pub open spec fn eval_elems_spec(
    env: SpecEnv,
    es: Seq<SpecValue>,
    i: int,
    files: SpecFiles,
    fuel: nat,
) -> (Result<Seq<SpecValue>, SpecError>, Seq<u8>)
    decreases fuel, 2int, es.len() - i,
{
    if i < 0 || i >= es.len() {
        (Ok(Seq::empty()), Seq::empty())
    } else {
        let (r0, o0) = eval_spec(env, es[i], files, fuel);
        match r0 {
            Err(e) => (Err(e), o0),
            Ok(v) => {
                let (r1, o1) = eval_elems_spec(env, es, i + 1, files, fuel);
                match r1 {
                    Ok(rest) => (Ok(seq![v] + rest), o0 + o1),
                    Err(e) => (Err(e), o0 + o1),
                }
            },
        }
    }
}

/// Evaluation of every value of an object, keys unchanged, in order,
/// fail-fast; outputs concatenate in entry order.
pub open spec fn eval_entries_spec(
    env: SpecEnv,
    ens: Seq<(Seq<u8>, SpecValue)>,
    i: int,
    files: SpecFiles,
    fuel: nat,
) -> (Result<Seq<(Seq<u8>, SpecValue)>, SpecError>, Seq<u8>)
    decreases fuel, 2int, ens.len() - i,
{
    if i < 0 || i >= ens.len() {
        (Ok(Seq::empty()), Seq::empty())
    } else {
        let (r0, o0) = eval_spec(env, ens[i].1, files, fuel);
        match r0 {
            Err(e) => (Err(e), o0),
            Ok(v) => {
                let (r1, o1) = eval_entries_spec(env, ens, i + 1, files, fuel);
                match r1 {
                    Ok(rest) => (Ok(seq![(ens[i].0, v)] + rest), o0 + o1),
                    Err(e) => (Err(e), o0 + o1),
                }
            },
        }
    }
}

/// Calling a function: a lambda binds the argument against its formals
/// into a fresh child of its captured environment (never the call site)
/// and evaluates its body there; a native builtin consumes the argument
/// directly, and only `print` and `println` emit output of their own.
pub open spec fn apply_spec(f: SpecFunction, arg: SpecValue, files: SpecFiles, fuel: nat) -> SpecStep
    decreases fuel, 4int, 0int,
{
    match f {
        SpecFunction::Lambda { env, formals, body } => match bind_formals(formals, arg) {
            Err(e) => (Err(e), Seq::empty()),
            Ok(frame) => eval_spec(child_env(frame, env), *body, files, fuel),
        },
        SpecFunction::Native(n) => match n {
            Native::Plus => (plus_spec(arg), Seq::empty()),
            Native::Eq => (eq_spec(arg), Seq::empty()),
            Native::Serialize => (serialize_spec(arg), Seq::empty()),
            Native::Deserialize => (deserialize_spec(arg), Seq::empty()),
            Native::Println => println_spec(arg),
            Native::Print => print_spec(arg),
            Native::MapArray => map_spec(arg, files, fuel),
        },
    }
}

/// The meaning of `map`: the first position must hold a function, the
/// second an array; the function is applied to every element, in order.
pub open spec fn map_spec(arg: SpecValue, files: SpecFiles, fuel: nat) -> SpecStep
    decreases fuel, 3int, 0int,
{
    match arg {
        SpecValue::Array(es) => match get_index_spec(es, 0) {
            Err(e) => (Err(e), Seq::empty()),
            Ok(fv) => match fv {
                SpecValue::Function(g) => match get_index_spec(es, 1) {
                    Err(e) => (Err(e), Seq::empty()),
                    Ok(av) => match av {
                        SpecValue::Array(items) => {
                            let (r, o) = map_fold_spec(g, items, 0, files, fuel);
                            match r {
                                Ok(rs) => (Ok(SpecValue::Array(rs)), o),
                                Err(e) => (Err(e), o),
                            }
                        },
                        _ => (
                            Err(SpecError::InvalidType { expected: Shape::Array, actual: av }),
                            Seq::empty(),
                        ),
                    },
                },
                _ => (
                    Err(SpecError::InvalidType { expected: Shape::Function, actual: fv }),
                    Seq::empty(),
                ),
            },
        },
        _ => (
            Err(SpecError::InvalidType { expected: Shape::Array, actual: arg }),
            Seq::empty(),
        ),
    }
}

/// `map` applies the function to every element, in order, fail-fast;
/// outputs concatenate in element order.
pub open spec fn map_fold_spec(
    f: SpecFunction,
    es: Seq<SpecValue>,
    i: int,
    files: SpecFiles,
    fuel: nat,
) -> (Result<Seq<SpecValue>, SpecError>, Seq<u8>)
    decreases fuel, 2int, es.len() - i,
{
    if i < 0 || i >= es.len() {
        (Ok(Seq::empty()), Seq::empty())
    } else if fuel == 0 {
        (Err(SpecError::RecursionLimit), Seq::empty())
    } else {
        let (r0, o0) = apply_spec(f, es[i], files, (fuel - 1) as nat);
        match r0 {
            Err(e) => (Err(e), o0),
            Ok(v) => {
                let (r1, o1) = map_fold_spec(f, es, i + 1, files, fuel);
                match r1 {
                    Ok(rest) => (Ok(seq![v] + rest), o0 + o1),
                    Err(e) => (Err(e), o0 + o1),
                }
            },
        }
    }
}

/// The meaning of `let`: every binding value is evaluated against the
/// outer environment (bindings cannot see each other or themselves), one
/// child scope is built from the results, and the required `+in` sibling
/// is evaluated there.
pub open spec fn let_spec(
    env: SpecEnv,
    obj: Seq<(Seq<u8>, SpecValue)>,
    arg: SpecValue,
    files: SpecFiles,
    fuel: nat,
) -> SpecStep
    decreases fuel, 5int, 0int,
{
    match arg {
        SpecValue::Object(bindings) => {
            let (r0, o0) = eval_entries_spec(env, bindings, 0, files, fuel);
            match r0 {
                Err(e) => (Err(e), o0),
                Ok(vars) => match get_key_spec(obj, keys::in_key()) {
                    Err(e) => (Err(e), o0),
                    Ok(body) => {
                        let (r1, o1) = eval_spec(child_env(vars, env), body, files, fuel);
                        (r1, o0 + o1)
                    },
                },
            }
        },
        _ => (
            Err(SpecError::InvalidType { expected: Shape::Object, actual: arg }),
            Seq::empty(),
        ),
    }
}

/// The meaning of `if`: the condition is evaluated and must be a
/// boolean; only the sibling branch it selects is evaluated, so the
/// untaken branch can emit no output.
pub open spec fn if_spec(
    env: SpecEnv,
    obj: Seq<(Seq<u8>, SpecValue)>,
    arg: SpecValue,
    files: SpecFiles,
    fuel: nat,
) -> SpecStep
    decreases fuel, 5int, 0int,
{
    let (r0, o0) = eval_spec(env, arg, files, fuel);
    match r0 {
        Err(e) => (Err(e), o0),
        Ok(c) => match c {
            SpecValue::Bool(b) => {
                let key = if b {
                    keys::then_key()
                } else {
                    keys::else_key()
                };
                match get_key_spec(obj, key) {
                    Err(e) => (Err(e), o0),
                    Ok(branch) => {
                        let (r1, o1) = eval_spec(env, branch, files, fuel);
                        (r1, o0 + o1)
                    },
                }
            },
            _ => (Err(SpecError::InvalidType { expected: Shape::Boolean, actual: c }), o0),
        },
    }
}

/// The meaning of `export`: every value of the argument object is
/// evaluated in the current environment; the resulting object is the
/// module's public surface.
pub open spec fn export_spec(
    env: SpecEnv,
    arg: SpecValue,
    files: SpecFiles,
    fuel: nat,
) -> SpecStep
    decreases fuel, 5int, 0int,
{
    match arg {
        SpecValue::Object(ens) => {
            let (r, o) = eval_entries_spec(env, ens, 0, files, fuel);
            match r {
                Ok(rs) => (Ok(SpecValue::Object(rs)), o),
                Err(e) => (Err(e), o),
            }
        },
        _ => (
            Err(SpecError::InvalidType { expected: Shape::Object, actual: arg }),
            Seq::empty(),
        ),
    }
}

/// Spreading a module's exports into the merged import frame, in order.
pub open spec fn spread_spec(
    acc: Seq<(Seq<u8>, SpecValue)>,
    ens: Seq<(Seq<u8>, SpecValue)>,
    j: int,
) -> Seq<(Seq<u8>, SpecValue)>
    decreases ens.len() - j,
{
    if j < 0 || j >= ens.len() {
        acc
    } else {
        spread_spec(assoc_insert(acc, ens[j].0, ens[j].1), ens, j + 1)
    }
}

/// One import entry after another: resolve the module file against the
/// importing file's directory, read it, parse it, evaluate it in a fresh
/// root environment (modules never inherit the importer's bindings), and
/// merge its exports: a text mapping aliases the whole export object
/// under that name, a null mapping spreads every exported key, and any
/// other mapping value is an `InvalidType` error carrying that value.
/// Loader success is all-or-nothing; module outputs concatenate in
/// import order.
pub open spec fn import_fold_spec(
    modules: Seq<(Seq<u8>, SpecValue)>,
    i: int,
    dir: Seq<u8>,
    files: SpecFiles,
    fuel: nat,
    acc: Seq<(Seq<u8>, SpecValue)>,
) -> (Result<Seq<(Seq<u8>, SpecValue)>, SpecError>, Seq<u8>)
    decreases fuel, 2int, modules.len() - i,
{
    if i < 0 || i >= modules.len() {
        (Ok(acc), Seq::empty())
    } else {
        let path = dir + modules[i].0 + keys::module_ext();
        match files_get(files, path) {
            None => (Err(SpecError::IO), Seq::empty()),
            Some(text) => match parse_program(text) {
                None => (Err(SpecError::Parse), Seq::empty()),
                Some(prog) => {
                    let (rm, om) = eval_spec(root_env_model(path), prog, files, fuel);
                    match rm {
                        Err(e) => (Err(e), om),
                        Ok(exports) => match modules[i].1 {
                            SpecValue::Text(alias) => {
                                let (r, o) = import_fold_spec(
                                    modules,
                                    i + 1,
                                    dir,
                                    files,
                                    fuel,
                                    assoc_insert(acc, alias, exports),
                                );
                                (r, om + o)
                            },
                            SpecValue::Null => match exports {
                                SpecValue::Object(ens) => {
                                    let (r, o) = import_fold_spec(
                                        modules,
                                        i + 1,
                                        dir,
                                        files,
                                        fuel,
                                        spread_spec(acc, ens, 0),
                                    );
                                    (r, om + o)
                                },
                                _ => (
                                    Err(
                                        SpecError::InvalidType {
                                            expected: Shape::Object,
                                            actual: exports,
                                        },
                                    ),
                                    om,
                                ),
                            },
                            _ => (
                                Err(
                                    SpecError::InvalidType {
                                        expected: Shape::ImportMapping,
                                        actual: modules[i].1,
                                    },
                                ),
                                om,
                            ),
                        },
                    }
                },
            },
        }
    }
}

/// The meaning of `import`: modules are resolved relative to the
/// directory of the file named by the reserved file-path binding of the
/// current environment; the merged bindings form one child scope in
/// which the required `+in` sibling is evaluated.
pub open spec fn import_spec(
    env: SpecEnv,
    obj: Seq<(Seq<u8>, SpecValue)>,
    arg: SpecValue,
    files: SpecFiles,
    fuel: nat,
) -> SpecStep
    decreases fuel, 5int, 0int,
{
    match arg {
        SpecValue::Object(modules) => match env_lookup(env, keys::file_key()) {
            None => (Err(SpecError::Lookup { symbol: keys::file_key() }), Seq::empty()),
            Some(pv) => match pv {
                SpecValue::Text(cur) => {
                    let (r0, o0) = import_fold_spec(
                        modules,
                        0,
                        dirname(cur),
                        files,
                        fuel,
                        Seq::empty(),
                    );
                    match r0 {
                        Err(e) => (Err(e), o0),
                        Ok(vars) => match get_key_spec(obj, keys::in_key()) {
                            Err(e) => (Err(e), o0),
                            Ok(body) => {
                                let (r1, o1) = eval_spec(child_env(vars, env), body, files, fuel);
                                (r1, o0 + o1)
                            },
                        },
                    }
                },
                _ => (Err(SpecError::InvalidType { expected: Shape::Text, actual: pv }), Seq::empty()),
            },
        },
        _ => (
            Err(SpecError::InvalidType { expected: Shape::Object, actual: arg }),
            Seq::empty(),
        ),
    }
}

/// The meaning of the application form: the marker value must evaluate
/// to a function, the required `+with` sibling is evaluated to the
/// argument, and the function is applied.
pub open spec fn call_spec(
    env: SpecEnv,
    obj: Seq<(Seq<u8>, SpecValue)>,
    arg: SpecValue,
    files: SpecFiles,
    fuel: nat,
) -> SpecStep
    decreases fuel, 5int, 0int,
{
    let (r0, o0) = eval_spec(env, arg, files, fuel);
    match r0 {
        Err(e) => (Err(e), o0),
        Ok(fv) => match fv {
            SpecValue::Function(f) => match get_key_spec(obj, keys::with_key()) {
                Err(e) => (Err(e), o0),
                Ok(argexpr) => {
                    let (r1, o1) = eval_spec(env, argexpr, files, fuel);
                    match r1 {
                        Err(e) => (Err(e), o0 + o1),
                        Ok(av) => {
                            let (r2, o2) = apply_spec(f, av, files, fuel);
                            (r2, o0 + o1 + o2)
                        },
                    }
                },
            },
            _ => (Err(SpecError::InvalidType { expected: Shape::Function, actual: fv }), o0),
        },
    }
}

/// Special-form dispatch: the handler a single operator key selects.
pub open spec fn dispatch_spec(
    env: SpecEnv,
    obj: Seq<(Seq<u8>, SpecValue)>,
    op: Op,
    arg: SpecValue,
    files: SpecFiles,
    fuel: nat,
) -> SpecStep
    decreases fuel, 6int, 0int,
{
    match op {
        Op::Lambda => (lambda_spec(env, obj, arg), Seq::empty()),
        Op::Quote => (Ok(arg), Seq::empty()),
        Op::Lookup => (lookup_spec(env, arg), Seq::empty()),
        Op::Let => let_spec(env, obj, arg, files, fuel),
        Op::If => if_spec(env, obj, arg, files, fuel),
        Op::Import => import_spec(env, obj, arg, files, fuel),
        Op::Export => export_spec(env, arg, files, fuel),
        Op::Call => call_spec(env, obj, arg, files, fuel),
    }
}

/// Appending nothing changes nothing.
pub proof fn lemma_out_nil(s: Seq<u8>)
    ensures
        s + Seq::<u8>::empty() == s,
{
    assert(s + Seq::<u8>::empty() =~= s);
}

/// Output concatenation is associative.
pub proof fn lemma_out_assoc(a: Seq<u8>, b: Seq<u8>, c: Seq<u8>)
    ensures
        (a + b) + c == a + (b + c),
{
    assert((a + b) + c =~= a + (b + c));
}

} // verus!

verus! {

/// Every special-form key found from `i` on lies at an index in range.
pub proof fn lemma_find_forms_range(obj: Seq<(Seq<u8>, SpecValue)>, i: int)
    ensures
        forall|k: int|
            0 <= k < find_forms(obj, i).len() ==> i <= #[trigger] find_forms(obj, i)[k].1
                < obj.len(),
    decreases obj.len() - i,
{
    if i < 0 || i >= obj.len() {
    } else {
        lemma_find_forms_range(obj, i + 1);
        assert forall|k: int|
            0 <= k < find_forms(obj, i).len() implies i <= #[trigger] find_forms(obj, i)[k].1
            < obj.len() by {
            if op_of(obj[i].0) is Some {
                if k > 0 {
                    assert(find_forms(obj, i)[k] == find_forms(obj, i + 1)[k - 1]);
                }
            } else {
                assert(find_forms(obj, i)[k] == find_forms(obj, i + 1)[k]);
            }
        }
    }
}

/// The element at `i`, or an `Index` error.
pub fn get_index(es: &Vec<Value>, i: usize) -> (r: Result<&Value, Error>)
    ensures
        match r {
            Ok(v) => get_index_spec(elems_model(es@), i as int) == Ok::<SpecValue, SpecError>(
                v.model(),
            ),
            Err(e) => get_index_spec(elems_model(es@), i as int) == Err::<SpecValue, SpecError>(
                e.model(),
            ),
        },
{
    if i < es.len() {
        Ok(&es[i])
    } else {
        Err(Error::Index { index: i })
    }
}

/// Bind each name to the element at its own index.
pub fn bind_positional_frame(names: &Vec<Vec<u8>>, es: &Vec<Value>, i: usize) -> (r: Result<
    Vec<(Vec<u8>, Value)>,
    Error,
>)
    ensures
        match r {
            Ok(out) => bind_positional(
                crate::value::names_model(names@),
                elems_model(es@),
                i as int,
            ) == Ok::<Seq<(Seq<u8>, SpecValue)>, SpecError>(entries_model(out@)),
            Err(e) => bind_positional(
                crate::value::names_model(names@),
                elems_model(es@),
                i as int,
            ) == Err::<Seq<(Seq<u8>, SpecValue)>, SpecError>(e.model()),
        },
    decreases names.len() - i,
{
    if i >= names.len() {
        let out: Vec<(Vec<u8>, Value)> = Vec::new();
        proof {
            assert(entries_model(out@) =~= Seq::<(Seq<u8>, SpecValue)>::empty());
        }
        Ok(out)
    } else if i >= es.len() {
        Err(Error::Index { index: i })
    } else {
        match bind_positional_frame(names, es, i + 1) {
            Err(e) => Err(e),
            Ok(rest) => {
                let ghost old_rest = entries_model(rest@);
                let mut out = rest;
                out.insert(0, (crate::value::clone_bytes(&names[i]), es[i].deep_clone()));
                proof {
                    assert(entries_model(out@) =~= seq![(out@[0].0@, out@[0].1.model())]
                        + old_rest);
                }
                Ok(out)
            },
        }
    }
}

/// Bind each name to the object's value at that key.
pub fn bind_named_frame(names: &Vec<Vec<u8>>, obj: &Object, i: usize) -> (r: Result<
    Vec<(Vec<u8>, Value)>,
    Error,
>)
    ensures
        match r {
            Ok(out) => bind_named(crate::value::names_model(names@), obj.model(), i as int)
                == Ok::<Seq<(Seq<u8>, SpecValue)>, SpecError>(entries_model(out@)),
            Err(e) => bind_named(crate::value::names_model(names@), obj.model(), i as int)
                == Err::<Seq<(Seq<u8>, SpecValue)>, SpecError>(e.model()),
        },
    decreases names.len() - i,
{
    if i >= names.len() {
        let out: Vec<(Vec<u8>, Value)> = Vec::new();
        proof {
            assert(entries_model(out@) =~= Seq::<(Seq<u8>, SpecValue)>::empty());
        }
        Ok(out)
    } else {
        match obj.get(&names[i]) {
            None => Err(Error::MissingKey { key: crate::value::clone_bytes(&names[i]) }),
            Some(v) => match bind_named_frame(names, obj, i + 1) {
                Err(e) => Err(e),
                Ok(rest) => {
                    let ghost old_rest = entries_model(rest@);
                    let mut out = rest;
                    out.insert(0, (crate::value::clone_bytes(&names[i]), v.deep_clone()));
                    proof {
                        assert(entries_model(out@) =~= seq![(out@[0].0@, out@[0].1.model())]
                            + old_rest);
                    }
                    Ok(out)
                },
            },
        }
    }
}

/// The binding frame a call builds from its formals and argument.
pub fn bind_frame(formals: &Formals, arg: &Value) -> (r: Result<Object, Error>)
    ensures
        match r {
            Ok(o) => bind_formals(formals.model(), arg.model()) == Ok::<
                Seq<(Seq<u8>, SpecValue)>,
                SpecError,
            >(o.model()),
            Err(e) => bind_formals(formals.model(), arg.model()) == Err::<
                Seq<(Seq<u8>, SpecValue)>,
                SpecError,
            >(e.model()),
        },
{
    match formals {
        Formals::Singleton(name) => {
            let mut entries: Vec<(Vec<u8>, Value)> = Vec::new();
            entries.push((crate::value::clone_bytes(name), arg.deep_clone()));
            let o = Object { entries };
            proof {
                assert(o.model() =~= seq![(name@, arg.model())]);
            }
            Ok(o)
        },
        Formals::Positional(names) => match arg {
            Value::Array(es) => match bind_positional_frame(names, es, 0) {
                Ok(entries) => Ok(Object { entries }),
                Err(e) => Err(e),
            },
            _ => Err(
                Error::InvalidType { expected: Shape::Array, actual: arg.deep_clone() },
            ),
        },
        Formals::Named(names) => match arg {
            Value::Object(ens) => match bind_named_frame(names, ens, 0) {
                Ok(entries) => Ok(Object { entries }),
                Err(e) => Err(e),
            },
            _ => Err(
                Error::InvalidType { expected: Shape::Object, actual: arg.deep_clone() },
            ),
        },
    }
}

/// Spread a module's exports into the merged import frame, in order.
pub fn spread_frame(acc: Object, ens: &Vec<(Vec<u8>, Value)>, j: usize) -> (r: Object)
    ensures
        r.model() == spread_spec(acc.model(), entries_model(ens@), j as int),
    decreases ens.len() - j,
{
    if j >= ens.len() {
        acc
    } else {
        let mut acc2 = acc;
        acc2.insert(
            crate::value::clone_bytes(&ens[j].0),
            ens[j].1.deep_clone(),
        );
        spread_frame(acc2, ens, j + 1)
    }
}

/// Element-wise evaluation of an array, in order, fail-fast.
pub fn eval_elems(
    env: &Arc<Env>,
    elems: &Vec<Value>,
    i: usize,
    files: &Files,
    fuel: u64,
    out: &mut Vec<u8>,
) -> (r: Result<Vec<Value>, Error>)
    ensures
        ({
            let step = eval_elems_spec(
                (**env).model(),
                elems_model(elems@),
                i as int,
                files.model(),
                fuel as nat,
            );
            (match r {
                Ok(vs) => step.0 == Ok::<Seq<SpecValue>, SpecError>(elems_model(vs@)),
                Err(e) => step.0 == Err::<Seq<SpecValue>, SpecError>(e.model()),
            }) && final(out)@ == old(out)@ + step.1
        }),
    decreases fuel, 2int, elems.len() - i,
{
    proof {
        lemma_out_nil(old(out)@);
    }
    if i >= elems.len() {
        let vs: Vec<Value> = Vec::new();
        proof {
            assert(elems_model(vs@) =~= Seq::<SpecValue>::empty());
        }
        Ok(vs)
    } else {
        let ghost o_base = out@;
        match eval(env, &elems[i], files, fuel, out) {
            Err(e) => Err(e),
            Ok(v) => {
                let ghost o0 = eval_spec(
                    env_model(env),
                    elems_model(elems@)[i as int],
                    files.model(),
                    fuel as nat,
                ).1;
                match eval_elems(env, elems, i + 1, files, fuel, out) {
                    Err(e) => {
                        proof {
                            lemma_out_assoc(
                                o_base,
                                o0,
                                eval_elems_spec(
                                    env_model(env),
                                    elems_model(elems@),
                                    i + 1,
                                    files.model(),
                                    fuel as nat,
                                ).1,
                            );
                        }
                        Err(e)
                    },
                    Ok(rest) => {
                        proof {
                            lemma_out_assoc(
                                o_base,
                                o0,
                                eval_elems_spec(
                                    env_model(env),
                                    elems_model(elems@),
                                    i + 1,
                                    files.model(),
                                    fuel as nat,
                                ).1,
                            );
                        }
                        let ghost old_rest = elems_model(rest@);
                        let mut vs = rest;
                        vs.insert(0, v);
                        proof {
                            assert(elems_model(vs@) =~= seq![vs@[0].model()] + old_rest);
                        }
                        Ok(vs)
                    },
                }
            },
        }
    }
}

/// Evaluation of every value of an object, keys unchanged, fail-fast.
pub fn eval_entries(
    env: &Arc<Env>,
    ens: &Vec<(Vec<u8>, Value)>,
    i: usize,
    files: &Files,
    fuel: u64,
    out: &mut Vec<u8>,
) -> (r: Result<Vec<(Vec<u8>, Value)>, Error>)
    ensures
        ({
            let step = eval_entries_spec(
                (**env).model(),
                entries_model(ens@),
                i as int,
                files.model(),
                fuel as nat,
            );
            (match r {
                Ok(vs) => step.0 == Ok::<Seq<(Seq<u8>, SpecValue)>, SpecError>(
                    entries_model(vs@),
                ),
                Err(e) => step.0 == Err::<Seq<(Seq<u8>, SpecValue)>, SpecError>(e.model()),
            }) && final(out)@ == old(out)@ + step.1
        }),
    decreases fuel, 2int, ens.len() - i,
{
    proof {
        lemma_out_nil(old(out)@);
    }
    if i >= ens.len() {
        let vs: Vec<(Vec<u8>, Value)> = Vec::new();
        proof {
            assert(entries_model(vs@) =~= Seq::<(Seq<u8>, SpecValue)>::empty());
        }
        Ok(vs)
    } else {
        let ghost o_base = out@;
        match eval(env, &ens[i].1, files, fuel, out) {
            Err(e) => Err(e),
            Ok(v) => {
                let ghost o0 = eval_spec(
                    env_model(env),
                    entries_model(ens@)[i as int].1,
                    files.model(),
                    fuel as nat,
                ).1;
                let ghost o1 = eval_entries_spec(
                    env_model(env),
                    entries_model(ens@),
                    i + 1,
                    files.model(),
                    fuel as nat,
                ).1;
                match eval_entries(env, ens, i + 1, files, fuel, out) {
                    Err(e) => {
                        proof {
                            lemma_out_assoc(o_base, o0, o1);
                        }
                        Err(e)
                    },
                    Ok(rest) => {
                        proof {
                            lemma_out_assoc(o_base, o0, o1);
                        }
                        let ghost old_rest = entries_model(rest@);
                        let mut vs = rest;
                        vs.insert(0, (crate::value::clone_bytes(&ens[i].0), v));
                        proof {
                            assert(entries_model(vs@) =~= seq![(vs@[0].0@, vs@[0].1.model())]
                                + old_rest);
                        }
                        Ok(vs)
                    },
                }
            },
        }
    }
}

/// `map` applies the function to every element, in order, fail-fast.
pub fn map_fold(
    env: &Arc<Env>,
    f: &Function,
    items: &Vec<Value>,
    i: usize,
    files: &Files,
    fuel: u64,
    out: &mut Vec<u8>,
) -> (r: Result<Vec<Value>, Error>)
    ensures
        ({
            let step = map_fold_spec(
                f.model(),
                elems_model(items@),
                i as int,
                files.model(),
                fuel as nat,
            );
            (match r {
                Ok(vs) => step.0 == Ok::<Seq<SpecValue>, SpecError>(elems_model(vs@)),
                Err(e) => step.0 == Err::<Seq<SpecValue>, SpecError>(e.model()),
            }) && final(out)@ == old(out)@ + step.1
        }),
    decreases fuel, 2int, items.len() - i,
{
    proof {
        lemma_out_nil(old(out)@);
    }
    if i >= items.len() {
        let vs: Vec<Value> = Vec::new();
        proof {
            assert(elems_model(vs@) =~= Seq::<SpecValue>::empty());
        }
        Ok(vs)
    } else if fuel == 0 {
        Err(Error::RecursionLimit)
    } else {
        let ghost o_base = out@;
        match apply(env, f, &items[i], files, fuel - 1, out) {
            Err(e) => Err(e),
            Ok(v) => {
                let ghost o0 = apply_spec(
                    function_model(f),
                    elems_model(items@)[i as int],
                    files.model(),
                    (fuel - 1) as nat,
                ).1;
                let ghost o1 = map_fold_spec(
                    function_model(f),
                    elems_model(items@),
                    i + 1,
                    files.model(),
                    fuel as nat,
                ).1;
                match map_fold(env, f, items, i + 1, files, fuel, out) {
                    Err(e) => {
                        proof {
                            lemma_out_assoc(o_base, o0, o1);
                        }
                        Err(e)
                    },
                    Ok(rest) => {
                        proof {
                            lemma_out_assoc(o_base, o0, o1);
                        }
                        let ghost old_rest = elems_model(rest@);
                        let mut vs = rest;
                        vs.insert(0, v);
                        proof {
                            assert(elems_model(vs@) =~= seq![vs@[0].model()] + old_rest);
                        }
                        Ok(vs)
                    },
                }
            },
        }
    }
}

/// Calling a function: a lambda binds the argument into a fresh child of
/// its captured environment and evaluates its body there; a native
/// builtin consumes the argument directly.  The call-site environment is
/// passed through to natives only as a convention; no outcome depends on
/// it.
pub fn apply(
    env: &Arc<Env>,
    f: &Function,
    arg: &Value,
    files: &Files,
    fuel: u64,
    out: &mut Vec<u8>,
) -> (r: Result<Value, Error>)
    ensures
        ({
            let step = apply_spec(f.model(), arg.model(), files.model(), fuel as nat);
            crate::value::outcome_model(r) == step.0 && final(out)@ == old(out)@ + step.1
        }),
    decreases fuel, 4int, 0int,
{
    proof {
        lemma_out_nil(old(out)@);
    }
    match f {
        Function::Lambda(l) => match bind_frame(&l.formals, arg) {
            Err(e) => Err(e),
            Ok(frame) => {
                let ghost fm = frame.model();
                let child = crate::value::Env::new(frame, Some(crate::env::arc_env_clone(&l.env)));
                proof {
                    assert((*child).model() =~= child_env(fm, (*l.env).model()));
                }
                eval(&child, &l.body, files, fuel, out)
            },
        },
        Function::Native(n) => match n {
            Native::Plus => crate::builtins::plus(env, arg),
            Native::Eq => crate::builtins::eq(env, arg),
            Native::Serialize => crate::builtins::serialize(env, arg),
            Native::Deserialize => crate::builtins::deserialize(env, arg),
            Native::Println => crate::builtins::println(env, arg, out),
            Native::Print => crate::builtins::print(env, arg, out),
            Native::MapArray => crate::builtins::map(env, arg, files, fuel, out),
        },
    }
}

/// The application form: the marker value must evaluate to a function,
/// the required `+with` sibling is evaluated to the argument, and the
/// function is applied.
pub fn call_form(
    env: &Arc<Env>,
    object: &Object,
    args: &Value,
    files: &Files,
    fuel: u64,
    out: &mut Vec<u8>,
) -> (r: Result<Value, Error>)
    ensures
        ({
            let step = call_spec(
                (**env).model(),
                object.model(),
                args.model(),
                files.model(),
                fuel as nat,
            );
            crate::value::outcome_model(r) == step.0 && final(out)@ == old(out)@ + step.1
        }),
    decreases fuel, 5int, 0int,
{
    proof {
        lemma_out_nil(old(out)@);
    }
    let ghost o_base = out@;
    match eval(env, args, files, fuel, out) {
        Err(e) => Err(e),
        Ok(fv) => {
            let ghost o0 = eval_spec(env_model(env), value_model(args), files.model(), fuel as nat).1;
            match fv.as_function() {
                Err(e) => Err(e),
                Ok(f) => match get_key(object, &keys::with_key_bytes()) {
                    Err(e) => Err(e),
                    Ok(argexpr) => {
                        let ghost o1 = eval_spec(
                            env_model(env),
                            value_model(argexpr),
                            files.model(),
                            fuel as nat,
                        ).1;
                        match eval(env, argexpr, files, fuel, out) {
                            Err(e) => {
                                proof {
                                    lemma_out_assoc(o_base, o0, o1);
                                }
                                Err(e)
                            },
                            Ok(av) => {
                                let ghost o2 = apply_spec(
                                    function_model(f),
                                    value_model(&av),
                                    files.model(),
                                    fuel as nat,
                                ).1;
                                proof {
                                    lemma_out_assoc(o_base, o0, o1);
                                }
                                let r2 = apply(env, f, &av, files, fuel, out);
                                proof {
                                    lemma_out_assoc(o_base + o0, o1, o2);
                                    lemma_out_assoc(o_base, o0, o1 + o2);
                                    lemma_out_assoc(o0, o1, o2);
                                }
                                r2
                            },
                        }
                    },
                },
            }
        },
    }
}

/// Special-form dispatch: the handler the single operator key selects.
pub fn dispatch(
    env: &Arc<Env>,
    object: &Object,
    op: Op,
    idx: usize,
    files: &Files,
    fuel: u64,
    out: &mut Vec<u8>,
) -> (r: Result<Value, Error>)
    requires
        idx < object.entries@.len(),
    ensures
        ({
            let step = dispatch_spec(
                (**env).model(),
                object.model(),
                op,
                object.model()[idx as int].1,
                files.model(),
                fuel as nat,
            );
            crate::value::outcome_model(r) == step.0 && final(out)@ == old(out)@ + step.1
        }),
    decreases fuel, 6int, 0int,
{
    proof {
        lemma_out_nil(old(out)@);
    }
    let args = &object.entries[idx].1;
    proof {
        assert(object.model()[idx as int].1 == args.model());
    }
    match op {
        Op::Lambda => crate::builtins::lambda(env, object, args),
        Op::Quote => crate::builtins::quote(env, object, args),
        Op::Lookup => crate::builtins::lookup(env, object, args),
        Op::Let => crate::builtins::nonrecursive_let(env, object, args, files, fuel, out),
        Op::If => crate::builtins::if_func(env, object, args, files, fuel, out),
        Op::Import => crate::builtins::import(env, object, args, files, fuel, out),
        Op::Export => crate::builtins::export(env, object, args, files, fuel, out),
        Op::Call => call_form(env, object, args, files, fuel, out),
    }
}

/// The central dispatcher: literals and functions evaluate to
/// themselves, arrays element-wise, and objects either as plain data, as
/// the one special form their single operator key selects, or to an
/// error if several operator keys appear.  Whatever `print` and
/// `println` emit is appended to `out`, in order.
pub fn eval(env: &Arc<Env>, v: &Value, files: &Files, fuel: u64, out: &mut Vec<u8>) -> (r: Result<
    Value,
    Error,
>)
    ensures
        ({
            let step = eval_spec((**env).model(), v.model(), files.model(), fuel as nat);
            crate::value::outcome_model(r) == step.0 && final(out)@ == old(out)@ + step.1
        }),
    decreases fuel, 0int, 0int,
{
    proof {
        lemma_out_nil(old(out)@);
    }
    match v {
        Value::Null => Ok(Value::Null),
        Value::Bool(b) => Ok(Value::Bool(*b)),
        Value::Number(n) => Ok(Value::Number(*n)),
        Value::Text(t) => Ok(Value::Text(crate::value::clone_bytes(t))),
        Value::Function(f) => Ok(Value::Function(f.deep_clone())),
        Value::Array(elems) => {
            if fuel == 0 {
                Err(Error::RecursionLimit)
            } else {
                match eval_elems(env, elems, 0, files, fuel - 1, out) {
                    Ok(vs) => Ok(Value::Array(vs)),
                    Err(e) => Err(e),
                }
            }
        },
        Value::Object(obj) => {
            if fuel == 0 {
                Err(Error::RecursionLimit)
            } else {
                let forms = find_forms_from(obj, 0);
                if forms.len() == 0 {
                    match eval_entries(env, &obj.entries, 0, files, fuel - 1, out) {
                        Ok(ens) => Ok(Value::Object(Object { entries: ens })),
                        Err(e) => Err(e),
                    }
                } else if forms.len() == 1 {
                    let op = forms[0].0;
                    let idx = forms[0].1;
                    proof {
                        lemma_find_forms_range(obj.model(), 0);
                    }
                    dispatch(env, obj, op, idx, files, fuel - 1, out)
                } else {
                    Err(
                        Error::InvalidType {
                            expected: Shape::SpecialForm,
                            actual: v.deep_clone(),
                        },
                    )
                }
            }
        },
    }
}

/// Run a whole program: parse the text, seed a fresh root environment
/// for the file at `path`, and evaluate; everything the program prints
/// is appended to `out`.
pub fn run_program(
    text: &Vec<u8>,
    path: Vec<u8>,
    files: &Files,
    fuel: u64,
    out: &mut Vec<u8>,
) -> (r: Result<Value, Error>)
    ensures
        ({
            match crate::codec::parse_program(text@) {
                Some(prog) => {
                    let step = eval_spec(root_env_model(path@), prog, files.model(), fuel as nat);
                    crate::value::outcome_model(r) == step.0 && final(out)@ == old(out)@ + step.1
                },
                None => crate::value::outcome_model(r) == Err::<SpecValue, SpecError>(
                    SpecError::Parse,
                ) && final(out)@ == old(out)@,
            }
        }),
{
    match crate::codec::parse(text) {
        Err(e) => Err(e),
        Ok(prog) => {
            let env = Env::builtin(path);
            eval(&env, &prog, files, fuel, out)
        },
    }
}

} // verus!
