//! The runtime data model and its ghost mirror.
//!
//! Text (program source, names, keys and string data) is modelled as byte
//! sequences throughout; the host converts to and from platform strings at
//! the boundary.

use std::sync::Arc;
use vstd::prelude::*;

verus! {

broadcast use vstd::std_specs::vec::axiom_vec_index_decreases,
    vstd::std_specs::vec::axiom_vec_decreases_to_view, vstd::seq::axiom_seq_index_decreases;

/// A runtime datum: a JSON-like tree extended with first-class functions.
#[derive(Debug)]
pub enum Value {
    Null,
    Bool(bool),
    Number(i64),
    Text(Vec<u8>),
    Array(Vec<Value>),
    Object(Object),
    Function(Function),
}

/// An ordered association of keys to values; insertion order is preserved
/// and significant, and lookup returns the first entry with a given key.
#[derive(Debug)]
pub struct Object {
    pub entries: Vec<(Vec<u8>, Value)>,
}

/// A callable value: a user-defined closure or a host-provided builtin.
#[derive(Debug)]
pub enum Function {
    Lambda(Lambda),
    Native(Native),
}

/// A user-defined function: it closes over its defining environment, not
/// the call site, and its body is kept unevaluated until it is called.
#[derive(Debug)]
pub struct Lambda {
    pub env: Arc<Env>,
    pub formals: Formals,
    pub body: Box<Value>,
}

/// How a function binds its single call argument.
#[derive(Debug)]
pub enum Formals {
    /// Bind the entire argument to one name.
    Singleton(Vec<u8>),
    /// The argument must be an array; bind each name to the element at the
    /// same index.
    Positional(Vec<Vec<u8>>),
    /// The argument must be an object; bind each name to the object's value
    /// at that key.
    Named(Vec<Vec<u8>>),
}

/// The eager builtins: each receives a single already-evaluated argument.
#[derive(Clone, Copy, PartialEq, Eq, Structural, Debug)]
pub enum Native {
    Plus,
    Eq,
    MapArray,
    Serialize,
    Deserialize,
    Println,
    Print,
}

/// An ordered binding table with an optional parent; lookup searches the
/// current table first, then walks to the parent.  Environments are never
/// mutated after construction, so a parent may be shared by many children.
#[derive(Debug)]
pub struct Env {
    pub bindings: Object,
    pub parent: Option<Arc<Env>>,
}

/// The shape a failed narrowing expected; part of an `InvalidType` error.
#[derive(Clone, Copy, PartialEq, Eq, Structural, Debug)]
pub enum Shape {
    Text,
    Boolean,
    Number,
    Array,
    Object,
    Function,
    /// Formal parameters: text, an array of names, or an object.
    Formals,
    /// An import mapping value: text (alias) or null (spread).
    ImportMapping,
    /// An object with at most one special-form key.
    SpecialForm,
    /// A value with no function anywhere inside it, writable as text.
    Serializable,
}

/// A typed failure value; evaluation is fail-fast, the first error aborts
/// the whole enclosing expression tree.
#[derive(Debug)]
pub enum Error {
    /// An argument had the wrong shape; carries the offending value.
    InvalidType { expected: Shape, actual: Value },
    /// An unbound variable.
    Lookup { symbol: Vec<u8> },
    /// A special form's required sibling key is absent.
    MissingKey { key: Vec<u8> },
    /// A builtin's argument array lacks an expected position.
    Index { index: usize },
    /// A file read failed during import.
    IO,
    /// Malformed program text.
    Parse,
    /// The evaluation step bound was exhausted.
    RecursionLimit,
}

/// Ghost mirror of `Value`.
pub enum SpecValue {
    Null,
    Bool(bool),
    Number(int),
    Text(Seq<u8>),
    Array(Seq<SpecValue>),
    Object(Seq<(Seq<u8>, SpecValue)>),
    Function(SpecFunction),
}

/// Ghost mirror of an environment: the sequence of binding frames of the
/// scope chain, innermost first.  The last frame is the root.
pub type SpecEnv = Seq<Seq<(Seq<u8>, SpecValue)>>;

/// Ghost mirror of `Function`.
pub enum SpecFunction {
    Lambda { env: SpecEnv, formals: SpecFormals, body: Box<SpecValue> },
    Native(Native),
}

/// Ghost mirror of `Formals`.
pub enum SpecFormals {
    Singleton(Seq<u8>),
    Positional(Seq<Seq<u8>>),
    Named(Seq<Seq<u8>>),
}

/// Ghost mirror of `Error`.
pub enum SpecError {
    InvalidType { expected: Shape, actual: SpecValue },
    Lookup { symbol: Seq<u8> },
    MissingKey { key: Seq<u8> },
    Index { index: int },
    IO,
    Parse,
    RecursionLimit,
}

/// The ghost values of a sequence of runtime values, element by element.
pub open spec fn elems_model(s: Seq<Value>) -> Seq<SpecValue>
    decreases s,
{
    Seq::new(
        s.len(),
        |i: int|
            if 0 <= i < s.len() {
                s[i].model()
            } else {
                SpecValue::Null
            },
    )
}

/// The ghost names of a sequence of runtime names, element by element.
pub open spec fn names_model(s: Seq<Vec<u8>>) -> Seq<Seq<u8>> {
    Seq::new(
        s.len(),
        |i: int|
            if 0 <= i < s.len() {
                s[i]@
            } else {
                Seq::<u8>::empty()
            },
    )
}

/// The ghost entries of a sequence of runtime entries, element by element.
pub open spec fn entries_model(s: Seq<(Vec<u8>, Value)>) -> Seq<(Seq<u8>, SpecValue)>
    decreases s,
{
    Seq::new(
        s.len(),
        |i: int|
            if 0 <= i < s.len() {
                (s[i].0@, s[i].1.model())
            } else {
                (Seq::<u8>::empty(), SpecValue::Null)
            },
    )
}

impl Value {
    /// The ghost value this datum stands for.
    pub open spec fn model(self) -> SpecValue
        decreases self,
    {
        match self {
            Value::Null => SpecValue::Null,
            Value::Bool(b) => SpecValue::Bool(b),
            Value::Number(n) => SpecValue::Number(n as int),
            Value::Text(t) => SpecValue::Text(t@),
            Value::Array(elems) => SpecValue::Array(elems_model(elems@)),
            Value::Object(obj) => SpecValue::Object(obj.model()),
            Value::Function(f) => SpecValue::Function(f.model()),
        }
    }
}

impl Object {
    /// The ghost association sequence this object stands for.
    pub open spec fn model(self) -> Seq<(Seq<u8>, SpecValue)>
        decreases self,
    {
        entries_model(self.entries@)
    }
}

impl Function {
    /// The ghost function this value stands for.
    pub open spec fn model(self) -> SpecFunction
        decreases self,
    {
        match self {
            Function::Lambda(l) => SpecFunction::Lambda {
                env: (*l.env).model(),
                formals: l.formals.model(),
                body: Box::new((*l.body).model()),
            },
            Function::Native(n) => SpecFunction::Native(n),
        }
    }
}

impl Formals {
    /// The ghost formals this value stands for.
    pub open spec fn model(self) -> SpecFormals {
        match self {
            Formals::Singleton(name) => SpecFormals::Singleton(name@),
            Formals::Positional(names) => SpecFormals::Positional(names_model(names@)),
            Formals::Named(names) => SpecFormals::Named(names_model(names@)),
        }
    }
}

impl Env {
    /// The ghost scope chain this environment stands for.
    pub open spec fn model(self) -> SpecEnv
        decreases self,
    {
        match self.parent {
            None => seq![self.bindings.model()],
            Some(p) => seq![self.bindings.model()] + (*p).model(),
        }
    }
}

impl Error {
    /// The ghost error this value stands for.
    pub open spec fn model(self) -> SpecError {
        match self {
            Error::InvalidType { expected, actual } => SpecError::InvalidType {
                expected,
                actual: actual.model(),
            },
            Error::Lookup { symbol } => SpecError::Lookup { symbol: symbol@ },
            Error::MissingKey { key } => SpecError::MissingKey { key: key@ },
            Error::Index { index } => SpecError::Index { index: index as int },
            Error::IO => SpecError::IO,
            Error::Parse => SpecError::Parse,
            Error::RecursionLimit => SpecError::RecursionLimit,
        }
    }
}

/// The ghost outcome of an evaluation step.
pub open spec fn outcome_model(r: Result<Value, Error>) -> Result<SpecValue, SpecError> {
    match r {
        Ok(v) => Ok(v.model()),
        Err(e) => Err(e.model()),
    }
}

/// First index at or after `i` whose key is `key`, or the length if none.
pub open spec fn assoc_find(entries: Seq<(Seq<u8>, SpecValue)>, key: Seq<u8>, i: int) -> int
    decreases entries.len() - i,
{
    if i < 0 || i >= entries.len() {
        entries.len() as int
    } else if entries[i].0 == key {
        i
    } else {
        assoc_find(entries, key, i + 1)
    }
}

/// The value at the first entry with key `key`, if any.
pub open spec fn assoc_get(entries: Seq<(Seq<u8>, SpecValue)>, key: Seq<u8>) -> Option<SpecValue> {
    let j = assoc_find(entries, key, 0);
    if j < entries.len() {
        Some(entries[j].1)
    } else {
        None
    }
}

/// Replace the value at the first entry with key `key`, or append a new
/// entry if the key is absent; order of existing entries is kept.
pub open spec fn assoc_insert(
    entries: Seq<(Seq<u8>, SpecValue)>,
    key: Seq<u8>,
    value: SpecValue,
) -> Seq<(Seq<u8>, SpecValue)> {
    let j = assoc_find(entries, key, 0);
    if j < entries.len() {
        entries.update(j, (key, value))
    } else {
        entries.push((key, value))
    }
}

/// Lookup in a scope chain: the innermost frame that binds `name` wins.
pub open spec fn env_lookup(frames: SpecEnv, name: Seq<u8>) -> Option<SpecValue>
    decreases frames.len(),
{
    if frames.len() == 0 {
        None
    } else {
        match assoc_get(frames[0], name) {
            Some(v) => Some(v),
            None => env_lookup(frames.drop_first(), name),
        }
    }
}

/// Byte-sequence equality, decided by comparison.
pub fn bytes_eq(a: &Vec<u8>, b: &Vec<u8>) -> (r: bool)
    ensures
        r == (a@ == b@),
{
    if a.len() != b.len() {
        return false;
    }
    let mut i: usize = 0;
    while i < a.len()
        invariant
            i <= a.len(),
            a.len() == b.len(),
            forall|j: int| 0 <= j < i ==> a@[j] == b@[j],
        decreases a.len() - i,
    {
        if a[i] != b[i] {
            return false;
        }
        i += 1;
    }
    proof {
        assert(a@ =~= b@);
    }
    true
}

/// A copy of a byte vector.
pub fn clone_bytes(v: &Vec<u8>) -> (r: Vec<u8>)
    ensures
        r@ == v@,
{
    let r = v.clone();
    proof {
        assert(r@ =~= v@);
    }
    r
}

/// A copy of a vector of names.
pub fn clone_names(v: &Vec<Vec<u8>>) -> (r: Vec<Vec<u8>>)
    ensures
        names_model(r@) == names_model(v@),
{
    let mut r: Vec<Vec<u8>> = Vec::new();
    let mut i: usize = 0;
    while i < v.len()
        invariant
            i <= v.len(),
            r@.len() == i,
            forall|j: int| 0 <= j < i ==> r@[j]@ == v@[j]@,
        decreases v.len() - i,
    {
        r.push(clone_bytes(&v[i]));
        i += 1;
    }
    proof {
        assert(names_model(r@) =~= names_model(v@));
    }
    r
}

impl Value {
    /// A structurally equal copy of this value; captured environments are
    /// shared, never copied.
    #[verifier::loop_isolation(false)]
    pub fn deep_clone(&self) -> (r: Value)
        ensures
            r.model() == self.model(),
        decreases self,
    {
        match self {
            Value::Null => Value::Null,
            Value::Bool(b) => Value::Bool(*b),
            Value::Number(n) => Value::Number(*n),
            Value::Text(t) => Value::Text(clone_bytes(t)),
            Value::Array(elems) => {
                let mut out: Vec<Value> = Vec::new();
                let mut i: usize = 0;
                while i < elems.len()
                    invariant
                        i <= elems.len(),
                        out@.len() == i,
                        forall|j: int| 0 <= j < i ==> out@[j].model() == elems@[j].model(),
                    decreases elems.len() - i,
                {
                    out.push(elems[i].deep_clone());
                    i += 1;
                }
                proof {
                    assert(elems_model(out@) =~= elems_model(elems@));
                }
                Value::Array(out)
            },
            Value::Object(obj) => Value::Object(obj.deep_clone()),
            Value::Function(f) => Value::Function(f.deep_clone()),
        }
    }
}

impl Object {
    /// An empty object.
    pub fn new() -> (r: Object)
        ensures
            r.model() == Seq::<(Seq<u8>, SpecValue)>::empty(),
    {
        let r = Object { entries: Vec::new() };
        proof {
            assert(r.model() =~= Seq::<(Seq<u8>, SpecValue)>::empty());
        }
        r
    }

    /// A structurally equal copy of this object.
    pub fn deep_clone(&self) -> (r: Object)
        ensures
            r.model() == self.model(),
        decreases self,
    {
        let mut out: Vec<(Vec<u8>, Value)> = Vec::new();
        let mut i: usize = 0;
        while i < self.entries.len()
            invariant
                i <= self.entries.len(),
                out@.len() == i,
                forall|j: int|
                    0 <= j < i ==> out@[j].0@ == self.entries@[j].0@ && out@[j].1.model()
                        == self.entries@[j].1.model(),
            decreases self.entries.len() - i,
        {
            let key = clone_bytes(&self.entries[i].0);
            let val = self.entries[i].1.deep_clone();
            out.push((key, val));
            i += 1;
        }
        let r = Object { entries: out };
        proof {
            assert(r.model() =~= self.model());
        }
        r
    }

    /// The value under the first entry with key `key`, if any.
    pub fn get(&self, key: &Vec<u8>) -> (r: Option<&Value>)
        ensures
            match r {
                Some(v) => assoc_get(self.model(), key@) == Some(v.model()),
                None => assoc_get(self.model(), key@) is None,
            },
    {
        let n = self.entries.len();
        let mut i: usize = 0;
        while i < n
            invariant
                i <= n,
                n == self.entries.len(),
                assoc_find(self.model(), key@, 0) == assoc_find(self.model(), key@, i as int),
            decreases n - i,
        {
            if bytes_eq(&self.entries[i].0, key) {
                return Some(&self.entries[i].1);
            }
            i += 1;
        }
        None
    }

    /// Bind `key` to `value`: replace the first entry with that key, or
    /// append a new entry; the order of existing entries is kept.
    pub fn insert(&mut self, key: Vec<u8>, value: Value)
        ensures
            final(self).model() == assoc_insert(old(self).model(), key@, value.model()),
    {
        let ghost orig = self.model();
        let n = self.entries.len();
        let mut i: usize = 0;
        while i < n
            invariant
                i <= n,
                n == self.entries.len(),
                orig == old(self).model(),
                self.model() == orig,
                assoc_find(orig, key@, 0) == assoc_find(orig, key@, i as int),
            decreases n - i,
        {
            if bytes_eq(&self.entries[i].0, &key) {
                proof {
                    assert(assoc_find(orig, key@, i as int) == i);
                }
                self.entries.set(i, (key, value));
                proof {
                    assert(self.model() =~= assoc_insert(orig, key@, value.model()));
                }
                return ;
            }
            i += 1;
        }
        proof {
            assert(assoc_find(orig, key@, n as int) == orig.len());
        }
        self.entries.push((key, value));
        proof {
            assert(self.model() =~= assoc_insert(orig, key@, value.model()));
        }
    }
}

impl Function {
    /// A structurally equal copy; a lambda's captured environment is shared.
    pub fn deep_clone(&self) -> (r: Function)
        ensures
            r.model() == self.model(),
        decreases self,
    {
        match self {
            Function::Lambda(l) => Function::Lambda(
                Lambda {
                    env: crate::env::arc_env_clone(&l.env),
                    formals: l.formals.deep_clone(),
                    body: Box::new(l.body.deep_clone()),
                },
            ),
            Function::Native(n) => Function::Native(*n),
        }
    }
}

impl Formals {
    /// A structurally equal copy of these formals.
    pub fn deep_clone(&self) -> (r: Formals)
        ensures
            r.model() == self.model(),
    {
        match self {
            Formals::Singleton(name) => Formals::Singleton(clone_bytes(name)),
            Formals::Positional(names) => Formals::Positional(clone_names(names)),
            Formals::Named(names) => Formals::Named(clone_names(names)),
        }
    }
}

impl Value {
    /// Narrow to text, or fail with an `InvalidType` error that echoes the
    /// offending value.
    pub fn as_string(&self) -> (r: Result<&Vec<u8>, Error>)
        ensures
            match r {
                Ok(t) => self.model() == SpecValue::Text(t@),
                Err(e) => !(self.model() is Text) && e.model() == (SpecError::InvalidType {
                    expected: Shape::Text,
                    actual: self.model(),
                }),
            },
    {
        match self {
            Value::Text(t) => Ok(t),
            _ => Err(Error::InvalidType { expected: Shape::Text, actual: self.deep_clone() }),
        }
    }

    /// Narrow to a boolean, or fail with an `InvalidType` error.
    pub fn as_bool(&self) -> (r: Result<bool, Error>)
        ensures
            match r {
                Ok(b) => self.model() == SpecValue::Bool(b),
                Err(e) => !(self.model() is Bool) && e.model() == (SpecError::InvalidType {
                    expected: Shape::Boolean,
                    actual: self.model(),
                }),
            },
    {
        match self {
            Value::Bool(b) => Ok(*b),
            _ => Err(Error::InvalidType { expected: Shape::Boolean, actual: self.deep_clone() }),
        }
    }

    /// Narrow to a number, or fail with an `InvalidType` error.
    pub fn as_number(&self) -> (r: Result<i64, Error>)
        ensures
            match r {
                Ok(n) => self.model() == SpecValue::Number(n as int),
                Err(e) => !(self.model() is Number) && e.model() == (SpecError::InvalidType {
                    expected: Shape::Number,
                    actual: self.model(),
                }),
            },
    {
        match self {
            Value::Number(n) => Ok(*n),
            _ => Err(Error::InvalidType { expected: Shape::Number, actual: self.deep_clone() }),
        }
    }

    /// Narrow to an array, or fail with an `InvalidType` error.
    pub fn as_array(&self) -> (r: Result<&Vec<Value>, Error>)
        ensures
            match r {
                Ok(a) => self.model() == SpecValue::Array(elems_model(a@)),
                Err(e) => !(self.model() is Array) && e.model() == (SpecError::InvalidType {
                    expected: Shape::Array,
                    actual: self.model(),
                }),
            },
    {
        match self {
            Value::Array(a) => Ok(a),
            _ => Err(Error::InvalidType { expected: Shape::Array, actual: self.deep_clone() }),
        }
    }

    /// Narrow to an object, or fail with an `InvalidType` error.
    pub fn as_object(&self) -> (r: Result<&Object, Error>)
        ensures
            match r {
                Ok(o) => self.model() == SpecValue::Object(o.model()),
                Err(e) => !(self.model() is Object) && e.model() == (SpecError::InvalidType {
                    expected: Shape::Object,
                    actual: self.model(),
                }),
            },
    {
        match self {
            Value::Object(o) => Ok(o),
            _ => Err(Error::InvalidType { expected: Shape::Object, actual: self.deep_clone() }),
        }
    }

    /// Narrow to a function, or fail with an `InvalidType` error.
    pub fn as_function(&self) -> (r: Result<&Function, Error>)
        ensures
            match r {
                Ok(f) => self.model() == SpecValue::Function(f.model()),
                Err(e) => !(self.model() is Function) && e.model() == (SpecError::InvalidType {
                    expected: Shape::Function,
                    actual: self.model(),
                }),
            },
    {
        match self {
            Value::Function(f) => Ok(f),
            _ => Err(Error::InvalidType { expected: Shape::Function, actual: self.deep_clone() }),
        }
    }
}


/// Whether two names lists are the same names in the same order.
pub fn names_eq(a: &Vec<Vec<u8>>, b: &Vec<Vec<u8>>) -> (r: bool)
    ensures
        r == (names_model(a@) == names_model(b@)),
{
    if a.len() != b.len() {
        proof {
            assert(names_model(a@).len() != names_model(b@).len());
        }
        return false;
    }
    let mut i: usize = 0;
    while i < a.len()
        invariant
            i <= a.len(),
            a.len() == b.len(),
            forall|j: int| 0 <= j < i ==> a@[j]@ == b@[j]@,
        decreases a.len() - i,
    {
        if !bytes_eq(&a[i], &b[i]) {
            proof {
                assert(names_model(a@)[i as int] != names_model(b@)[i as int]);
            }
            return false;
        }
        i += 1;
    }
    proof {
        assert(names_model(a@) =~= names_model(b@));
    }
    true
}

/// Structural, type-sensitive equality: values of different variants are
/// never equal; arrays and objects are equal when they agree element by
/// element, in order; lambdas compare their captured environments,
/// formals and bodies.
pub fn value_eq(a: &Value, b: &Value) -> (r: bool)
    ensures
        r == (a.model() == b.model()),
    decreases a,
{
    match (a, b) {
        (Value::Null, Value::Null) => true,
        (Value::Bool(x), Value::Bool(y)) => *x == *y,
        (Value::Number(x), Value::Number(y)) => *x == *y,
        (Value::Text(x), Value::Text(y)) => bytes_eq(x, y),
        (Value::Array(xs), Value::Array(ys)) => {
            if xs.len() != ys.len() {
                proof {
                    assert(elems_model(xs@).len() != elems_model(ys@).len());
                }
                false
            } else {
                let r = elems_eq(xs, ys, 0);
                proof {
                    assert(elems_model(xs@).skip(0) =~= elems_model(xs@));
                    assert(elems_model(ys@).skip(0) =~= elems_model(ys@));
                }
                r
            }
        },
        (Value::Object(x), Value::Object(y)) => {
            if x.entries.len() != y.entries.len() {
                proof {
                    assert(x.model().len() != y.model().len());
                }
                false
            } else {
                let r = entries_eq(&x.entries, &y.entries, 0);
                proof {
                    assert(entries_model(x.entries@).skip(0) =~= x.model());
                    assert(entries_model(y.entries@).skip(0) =~= y.model());
                }
                r
            }
        },
        (Value::Function(f), Value::Function(g)) => function_eq(f, g),
        _ => false,
    }
}

/// Element-wise equality of two equally long arrays, from `i` on.
pub fn elems_eq(xs: &Vec<Value>, ys: &Vec<Value>, i: usize) -> (r: bool)
    requires
        xs@.len() == ys@.len(),
        i <= xs@.len(),
    ensures
        r == (elems_model(xs@).skip(i as int) == elems_model(ys@).skip(i as int)),
    decreases xs, xs.len() - i,
{
    if i >= xs.len() {
        proof {
            assert(elems_model(xs@).skip(i as int) =~= elems_model(ys@).skip(i as int));
        }
        true
    } else {
        if !value_eq(&xs[i], &ys[i]) {
            proof {
                assert(elems_model(xs@).skip(i as int)[0] != elems_model(ys@).skip(i as int)[0]);
            }
            false
        } else {
            let r = elems_eq(xs, ys, i + 1);
            proof {
                if r {
                    assert(elems_model(xs@)[i as int] == xs@[i as int].model());
                    assert(elems_model(ys@)[i as int] == ys@[i as int].model());
                    assert forall|k: int|
                        0 <= k < elems_model(xs@).skip(i as int).len() implies elems_model(
                        xs@,
                    ).skip(i as int)[k] == elems_model(ys@).skip(i as int)[k] by {
                        if k > 0 {
                            assert(elems_model(xs@).skip(i as int)[k] == elems_model(xs@).skip(
                                i + 1,
                            )[k - 1]);
                            assert(elems_model(ys@).skip(i as int)[k] == elems_model(ys@).skip(
                                i + 1,
                            )[k - 1]);
                        }
                    }
                    assert(elems_model(xs@).skip(i as int) =~= elems_model(ys@).skip(i as int));
                } else {
                    assert(elems_model(xs@).skip(i as int).drop_first() =~= elems_model(
                        xs@,
                    ).skip(i + 1));
                    assert(elems_model(ys@).skip(i as int).drop_first() =~= elems_model(
                        ys@,
                    ).skip(i + 1));
                }
            }
            r
        }
    }
}

/// Entry-wise equality of two equally long objects, from `i` on: keys and
/// values both, in order.
pub fn entries_eq(xs: &Vec<(Vec<u8>, Value)>, ys: &Vec<(Vec<u8>, Value)>, i: usize) -> (r: bool)
    requires
        xs@.len() == ys@.len(),
        i <= xs@.len(),
    ensures
        r == (entries_model(xs@).skip(i as int) == entries_model(ys@).skip(i as int)),
    decreases xs, xs.len() - i,
{
    if i >= xs.len() {
        proof {
            assert(entries_model(xs@).skip(i as int) =~= entries_model(ys@).skip(i as int));
        }
        true
    } else {
        if !bytes_eq(&xs[i].0, &ys[i].0) || !value_eq(&xs[i].1, &ys[i].1) {
            proof {
                assert(entries_model(xs@).skip(i as int)[0] != entries_model(ys@).skip(
                    i as int,
                )[0]);
            }
            false
        } else {
            let r = entries_eq(xs, ys, i + 1);
            proof {
                if r {
                    let ghost xi = xs@[i as int];
                    let ghost yi = ys@[i as int];
                    assert(entries_model(xs@)[i as int] == (xi.0@, xi.1.model()));
                    assert(entries_model(ys@)[i as int] == (yi.0@, yi.1.model()));
                    assert forall|k: int|
                        0 <= k < entries_model(xs@).skip(i as int).len() implies entries_model(
                        xs@,
                    ).skip(i as int)[k] == entries_model(ys@).skip(i as int)[k] by {
                        if k > 0 {
                            assert(entries_model(xs@).skip(i as int)[k] == entries_model(xs@).skip(
                                i + 1,
                            )[k - 1]);
                            assert(entries_model(ys@).skip(i as int)[k] == entries_model(ys@).skip(
                                i + 1,
                            )[k - 1]);
                        }
                    }
                    assert(entries_model(xs@).skip(i as int) =~= entries_model(ys@).skip(
                        i as int,
                    ));
                } else {
                    assert(entries_model(xs@).skip(i as int).drop_first() =~= entries_model(
                        xs@,
                    ).skip(i + 1));
                    assert(entries_model(ys@).skip(i as int).drop_first() =~= entries_model(
                        ys@,
                    ).skip(i + 1));
                }
            }
            r
        }
    }
}

/// Structural equality of two functions.
pub fn function_eq(f: &Function, g: &Function) -> (r: bool)
    ensures
        r == (f.model() == g.model()),
    decreases f,
{
    match (f, g) {
        (Function::Lambda(x), Function::Lambda(y)) => {
            let envs = env_eq(&x.env, &y.env);
            let formals = formals_eq(&x.formals, &y.formals);
            let bodies = value_eq(&x.body, &y.body);
            envs && formals && bodies
        },
        (Function::Native(x), Function::Native(y)) => *x == *y,
        _ => false,
    }
}

/// Structural equality of two formals.
pub fn formals_eq(f: &Formals, g: &Formals) -> (r: bool)
    ensures
        r == (f.model() == g.model()),
{
    match (f, g) {
        (Formals::Singleton(x), Formals::Singleton(y)) => bytes_eq(x, y),
        (Formals::Positional(x), Formals::Positional(y)) => names_eq(x, y),
        (Formals::Named(x), Formals::Named(y)) => names_eq(x, y),
        _ => false,
    }
}

/// Structural equality of two scope chains: same frames, in order, to the
/// same depth.
pub fn env_eq(a: &Env, b: &Env) -> (r: bool)
    ensures
        r == (a.model() == b.model()),
    decreases a,
{
    proof {
        match &a.parent {
            None => assert(a.model().drop_first() =~= Seq::<Seq<(Seq<u8>, SpecValue)>>::empty()),
            Some(p) => assert(a.model().drop_first() =~= (**p).model()),
        }
        match &b.parent {
            None => assert(b.model().drop_first() =~= Seq::<Seq<(Seq<u8>, SpecValue)>>::empty()),
            Some(p) => assert(b.model().drop_first() =~= (**p).model()),
        }
        assert(a.model()[0] == a.bindings.model());
        assert(b.model()[0] == b.bindings.model());
    }
    let frames = if a.bindings.entries.len() != b.bindings.entries.len() {
        proof {
            assert(a.model()[0].len() != b.model()[0].len());
        }
        false
    } else {
        let e = entries_eq(&a.bindings.entries, &b.bindings.entries, 0);
        proof {
            assert(entries_model(a.bindings.entries@).skip(0) =~= a.bindings.model());
            assert(entries_model(b.bindings.entries@).skip(0) =~= b.bindings.model());
        }
        e
    };
    if !frames {
        proof {
            assert(a.model()[0] != b.model()[0]);
        }
        return false;
    }
    match (&a.parent, &b.parent) {
        (None, None) => {
            proof {
                assert(a.model() =~= b.model());
            }
            true
        },
        (Some(p), Some(q)) => {
            let r = env_eq(p, q);
            proof {
                if r {
                    assert(a.model() =~= b.model());
                } else {
                    assert(a.model().drop_first() != b.model().drop_first());
                }
            }
            r
        },
        _ => {
            proof {
                assert(a.model().len() != b.model().len());
            }
            false
        },
    }
}

} // verus!\n