//! Environments: ordered binding tables with an optional shared parent.
//!
//! A parent may be shared by many children (every call of the same closure
//! shares the closure's captured environment as an ancestor), so parents are
//! held by reference count.  Environments are immutable after construction:
//! scope extension always builds a new child.

use crate::keys;
use crate::value::{
    clone_bytes, env_lookup, Env, Error, Function, Native, Object, SpecEnv, SpecError,
    SpecFunction, SpecValue, Value,
};
use std::sync::Arc;
use vstd::prelude::*;

verus! {

/// Relies on `std::sync::Arc::clone`: the clone refers to the same value.
#[verifier::external_body]
pub fn arc_env_clone(e: &Arc<Env>) -> (r: Arc<Env>)
    ensures
        r == *e,
{
    Arc::clone(e)
}

/// The bindings of every root environment: the eager builtins, plus the
/// reserved file-path binding consumed by `import`.
pub open spec fn root_frame(path: Seq<u8>) -> Seq<(Seq<u8>, SpecValue)> {
    seq![
        (keys::plus_name(), SpecValue::Function(SpecFunction::Native(Native::Plus))),
        (keys::eq_name(), SpecValue::Function(SpecFunction::Native(Native::Eq))),
        (keys::map_name(), SpecValue::Function(SpecFunction::Native(Native::MapArray))),
        (keys::serialize_name(), SpecValue::Function(SpecFunction::Native(Native::Serialize))),
        (keys::deserialize_name(), SpecValue::Function(SpecFunction::Native(Native::Deserialize))),
        (keys::println_name(), SpecValue::Function(SpecFunction::Native(Native::Println))),
        (keys::print_name(), SpecValue::Function(SpecFunction::Native(Native::Print))),
        (keys::file_key(), SpecValue::Text(path)),
    ]
}

/// The scope chain of a fresh root environment for the file at `path`.
pub open spec fn root_env_model(path: Seq<u8>) -> SpecEnv {
    seq![root_frame(path)]
}

impl Env {
    /// A child scope: its own bindings in front of the parent chain.
    pub fn new(bindings: Object, parent: Option<Arc<Env>>) -> (r: Arc<Env>)
        ensures
            (*r).model() == (match parent {
                None => seq![bindings.model()],
                Some(p) => seq![bindings.model()] + (*p).model(),
            }),
    {
        Arc::new(Env { bindings, parent })
    }

    /// The root environment for the file at `file_path`: the builtin table
    /// plus the reserved file-path binding, and no parent.
    pub fn builtin(file_path: Vec<u8>) -> (r: Arc<Env>)
        ensures
            (*r).model() == root_env_model(file_path@),
    {
        let mut entries: Vec<(Vec<u8>, Value)> = Vec::new();
        entries.push((keys::plus_name_bytes(), Value::Function(Function::Native(Native::Plus))));
        entries.push((keys::eq_name_bytes(), Value::Function(Function::Native(Native::Eq))));
        entries.push(
            (keys::map_name_bytes(), Value::Function(Function::Native(Native::MapArray))),
        );
        entries.push(
            (keys::serialize_name_bytes(), Value::Function(Function::Native(Native::Serialize))),
        );
        entries.push(
            (
                keys::deserialize_name_bytes(),
                Value::Function(Function::Native(Native::Deserialize)),
            ),
        );
        entries.push(
            (keys::println_name_bytes(), Value::Function(Function::Native(Native::Println))),
        );
        entries.push(
            (keys::print_name_bytes(), Value::Function(Function::Native(Native::Print))),
        );
        entries.push((keys::file_key_bytes(), Value::Text(file_path)));
        let bindings = Object { entries };
        proof {
            assert(Function::Native(Native::Plus).model() == SpecFunction::Native(Native::Plus));
            assert(Function::Native(Native::Eq).model() == SpecFunction::Native(Native::Eq));
            assert(Function::Native(Native::MapArray).model() == SpecFunction::Native(
                Native::MapArray,
            ));
            assert(Function::Native(Native::Serialize).model() == SpecFunction::Native(
                Native::Serialize,
            ));
            assert(Function::Native(Native::Deserialize).model() == SpecFunction::Native(
                Native::Deserialize,
            ));
            assert(bindings.model()[0]
                == (keys::plus_name(), SpecValue::Function(SpecFunction::Native(Native::Plus))));
            assert(bindings.model()[1]
                == (keys::eq_name(), SpecValue::Function(SpecFunction::Native(Native::Eq))));
            assert(bindings.model()[2]
                == (keys::map_name(), SpecValue::Function(SpecFunction::Native(Native::MapArray))));
            assert(bindings.model()[3] == (
                keys::serialize_name(),
                SpecValue::Function(SpecFunction::Native(Native::Serialize)),
            ));
            assert(bindings.model()[4] == (
                keys::deserialize_name(),
                SpecValue::Function(SpecFunction::Native(Native::Deserialize)),
            ));
            assert(Function::Native(Native::Println).model() == SpecFunction::Native(
                Native::Println,
            ));
            assert(Function::Native(Native::Print).model() == SpecFunction::Native(Native::Print));
            assert(bindings.model()[5] == (
                keys::println_name(),
                SpecValue::Function(SpecFunction::Native(Native::Println)),
            ));
            assert(bindings.model()[6] == (
                keys::print_name(),
                SpecValue::Function(SpecFunction::Native(Native::Print)),
            ));
            assert(bindings.model()[7] == (keys::file_key(), SpecValue::Text(file_path@)));
            assert(bindings.model() =~= root_frame(file_path@));
        }
        Arc::new(Env { bindings, parent: None })
    }

    /// Look `name` up along the scope chain, innermost frame first; an
    /// exhausted chain is a `Lookup` error naming the symbol.
    pub fn lookup<'a>(&'a self, name: &Vec<u8>) -> (r: Result<&'a Value, Error>)
        ensures
            match r {
                Ok(v) => env_lookup(self.model(), name@) == Some(v.model()),
                Err(e) => env_lookup(self.model(), name@) is None && e.model()
                    == (SpecError::Lookup { symbol: name@ }),
            },
        decreases self,
    {
        proof {
            assert(self.model().len() >= 1);
            assert(self.model()[0] == self.bindings.model());
            match &self.parent {
                None => assert(self.model().drop_first() =~= Seq::<
                    Seq<(Seq<u8>, SpecValue)>,
                >::empty()),
                Some(p) => assert(self.model().drop_first() =~= (**p).model()),
            }
        }
        match self.bindings.get(name) {
            Some(v) => Ok(v),
            None => match &self.parent {
                Some(p) => p.lookup(name),
                None => {
                    proof {
                        assert(env_lookup(
                            Seq::<Seq<(Seq<u8>, SpecValue)>>::empty(),
                            name@,
                        ) is None);
                    }
                    Err(Error::Lookup { symbol: clone_bytes(name) })
                },
            },
        }
    }
}

} // verus!
