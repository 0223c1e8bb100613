//! The reserved names of the language: marker-prefixed operator keys that
//! identify special forms, their required sibling keys, the reserved
//! file-path binding, the names of the eager builtins, and the module file
//! extension.  Each name exists twice: as a ghost byte sequence used by
//! contracts, and as an executable constructor proved to agree with it.
//! (Byte values are ASCII; the text of each name is given in its comment.)

use vstd::prelude::*;

verus! {

/// The marker character `'+'` that prefixes every special-form key.
pub const MARKER: u8 = 43u8;

/// Ghost bytes of `"+lambda"`: the `lambda` special form.
pub open spec fn lambda_key() -> Seq<u8> {
    seq![43u8, 108u8, 97u8, 109u8, 98u8, 100u8, 97u8]
}

/// The bytes of `"+lambda"`.
pub fn lambda_key_bytes() -> (r: Vec<u8>)
    ensures
        r@ == lambda_key(),
{
    let r: Vec<u8> = vec![43u8, 108u8, 97u8, 109u8, 98u8, 100u8, 97u8];
    proof {
        assert(r@ =~= lambda_key());
    }
    r
}

/// Ghost bytes of `"+quote"`: the `quote` special form.
pub open spec fn quote_key() -> Seq<u8> {
    seq![43u8, 113u8, 117u8, 111u8, 116u8, 101u8]
}

/// The bytes of `"+quote"`.
pub fn quote_key_bytes() -> (r: Vec<u8>)
    ensures
        r@ == quote_key(),
{
    let r: Vec<u8> = vec![43u8, 113u8, 117u8, 111u8, 116u8, 101u8];
    proof {
        assert(r@ =~= quote_key());
    }
    r
}

/// Ghost bytes of `"+lookup"`: the `lookup` special form.
pub open spec fn lookup_key() -> Seq<u8> {
    seq![43u8, 108u8, 111u8, 111u8, 107u8, 117u8, 112u8]
}

/// The bytes of `"+lookup"`.
pub fn lookup_key_bytes() -> (r: Vec<u8>)
    ensures
        r@ == lookup_key(),
{
    let r: Vec<u8> = vec![43u8, 108u8, 111u8, 111u8, 107u8, 117u8, 112u8];
    proof {
        assert(r@ =~= lookup_key());
    }
    r
}

/// Ghost bytes of `"+let"`: the `let` special form.
pub open spec fn let_key() -> Seq<u8> {
    seq![43u8, 108u8, 101u8, 116u8]
}

/// The bytes of `"+let"`.
pub fn let_key_bytes() -> (r: Vec<u8>)
    ensures
        r@ == let_key(),
{
    let r: Vec<u8> = vec![43u8, 108u8, 101u8, 116u8];
    proof {
        assert(r@ =~= let_key());
    }
    r
}

/// Ghost bytes of `"+if"`: the `if` special form.
pub open spec fn if_key() -> Seq<u8> {
    seq![43u8, 105u8, 102u8]
}

/// The bytes of `"+if"`.
pub fn if_key_bytes() -> (r: Vec<u8>)
    ensures
        r@ == if_key(),
{
    let r: Vec<u8> = vec![43u8, 105u8, 102u8];
    proof {
        assert(r@ =~= if_key());
    }
    r
}

/// Ghost bytes of `"+import"`: the `import` special form.
pub open spec fn import_key() -> Seq<u8> {
    seq![43u8, 105u8, 109u8, 112u8, 111u8, 114u8, 116u8]
}

/// The bytes of `"+import"`.
pub fn import_key_bytes() -> (r: Vec<u8>)
    ensures
        r@ == import_key(),
{
    let r: Vec<u8> = vec![43u8, 105u8, 109u8, 112u8, 111u8, 114u8, 116u8];
    proof {
        assert(r@ =~= import_key());
    }
    r
}

/// Ghost bytes of `"+export"`: the `export` special form.
pub open spec fn export_key() -> Seq<u8> {
    seq![43u8, 101u8, 120u8, 112u8, 111u8, 114u8, 116u8]
}

/// The bytes of `"+export"`.
pub fn export_key_bytes() -> (r: Vec<u8>)
    ensures
        r@ == export_key(),
{
    let r: Vec<u8> = vec![43u8, 101u8, 120u8, 112u8, 111u8, 114u8, 116u8];
    proof {
        assert(r@ =~= export_key());
    }
    r
}

/// Ghost bytes of `"+call"`: the function-application special form.
pub open spec fn call_key() -> Seq<u8> {
    seq![43u8, 99u8, 97u8, 108u8, 108u8]
}

/// The bytes of `"+call"`.
pub fn call_key_bytes() -> (r: Vec<u8>)
    ensures
        r@ == call_key(),
{
    let r: Vec<u8> = vec![43u8, 99u8, 97u8, 108u8, 108u8];
    proof {
        assert(r@ =~= call_key());
    }
    r
}

/// Ghost bytes of `"+in"`: the required body sibling key.
pub open spec fn in_key() -> Seq<u8> {
    seq![43u8, 105u8, 110u8]
}

/// The bytes of `"+in"`.
pub fn in_key_bytes() -> (r: Vec<u8>)
    ensures
        r@ == in_key(),
{
    let r: Vec<u8> = vec![43u8, 105u8, 110u8];
    proof {
        assert(r@ =~= in_key());
    }
    r
}

/// Ghost bytes of `"+then"`: the taken-branch sibling key of `if`.
pub open spec fn then_key() -> Seq<u8> {
    seq![43u8, 116u8, 104u8, 101u8, 110u8]
}

/// The bytes of `"+then"`.
pub fn then_key_bytes() -> (r: Vec<u8>)
    ensures
        r@ == then_key(),
{
    let r: Vec<u8> = vec![43u8, 116u8, 104u8, 101u8, 110u8];
    proof {
        assert(r@ =~= then_key());
    }
    r
}

/// Ghost bytes of `"+else"`: the untaken-branch sibling key of `if`.
pub open spec fn else_key() -> Seq<u8> {
    seq![43u8, 101u8, 108u8, 115u8, 101u8]
}

/// The bytes of `"+else"`.
pub fn else_key_bytes() -> (r: Vec<u8>)
    ensures
        r@ == else_key(),
{
    let r: Vec<u8> = vec![43u8, 101u8, 108u8, 115u8, 101u8];
    proof {
        assert(r@ =~= else_key());
    }
    r
}

/// Ghost bytes of `"+with"`: the argument sibling key of `+call`.
pub open spec fn with_key() -> Seq<u8> {
    seq![43u8, 119u8, 105u8, 116u8, 104u8]
}

/// The bytes of `"+with"`.
pub fn with_key_bytes() -> (r: Vec<u8>)
    ensures
        r@ == with_key(),
{
    let r: Vec<u8> = vec![43u8, 119u8, 105u8, 116u8, 104u8];
    proof {
        assert(r@ =~= with_key());
    }
    r
}

/// Ghost bytes of `"+file"`: the reserved binding holding the current file path.
pub open spec fn file_key() -> Seq<u8> {
    seq![43u8, 102u8, 105u8, 108u8, 101u8]
}

/// The bytes of `"+file"`.
pub fn file_key_bytes() -> (r: Vec<u8>)
    ensures
        r@ == file_key(),
{
    let r: Vec<u8> = vec![43u8, 102u8, 105u8, 108u8, 101u8];
    proof {
        assert(r@ =~= file_key());
    }
    r
}

/// Ghost bytes of `"plus"`: the `plus` builtin binding.
pub open spec fn plus_name() -> Seq<u8> {
    seq![112u8, 108u8, 117u8, 115u8]
}

/// The bytes of `"plus"`.
pub fn plus_name_bytes() -> (r: Vec<u8>)
    ensures
        r@ == plus_name(),
{
    let r: Vec<u8> = vec![112u8, 108u8, 117u8, 115u8];
    proof {
        assert(r@ =~= plus_name());
    }
    r
}

/// Ghost bytes of `"eq"`: the `eq` builtin binding.
pub open spec fn eq_name() -> Seq<u8> {
    seq![101u8, 113u8]
}

/// The bytes of `"eq"`.
pub fn eq_name_bytes() -> (r: Vec<u8>)
    ensures
        r@ == eq_name(),
{
    let r: Vec<u8> = vec![101u8, 113u8];
    proof {
        assert(r@ =~= eq_name());
    }
    r
}

/// Ghost bytes of `"map"`: the `map` builtin binding.
pub open spec fn map_name() -> Seq<u8> {
    seq![109u8, 97u8, 112u8]
}

/// The bytes of `"map"`.
pub fn map_name_bytes() -> (r: Vec<u8>)
    ensures
        r@ == map_name(),
{
    let r: Vec<u8> = vec![109u8, 97u8, 112u8];
    proof {
        assert(r@ =~= map_name());
    }
    r
}

/// Ghost bytes of `"serialize"`: the `serialize` builtin binding.
pub open spec fn serialize_name() -> Seq<u8> {
    seq![115u8, 101u8, 114u8, 105u8, 97u8, 108u8, 105u8, 122u8, 101u8]
}

/// The bytes of `"serialize"`.
pub fn serialize_name_bytes() -> (r: Vec<u8>)
    ensures
        r@ == serialize_name(),
{
    let r: Vec<u8> = vec![115u8, 101u8, 114u8, 105u8, 97u8, 108u8, 105u8, 122u8, 101u8];
    proof {
        assert(r@ =~= serialize_name());
    }
    r
}

/// Ghost bytes of `"deserialize"`: the `deserialize` builtin binding.
pub open spec fn deserialize_name() -> Seq<u8> {
    seq![100u8, 101u8, 115u8, 101u8, 114u8, 105u8, 97u8, 108u8, 105u8, 122u8, 101u8]
}

/// The bytes of `"deserialize"`.
pub fn deserialize_name_bytes() -> (r: Vec<u8>)
    ensures
        r@ == deserialize_name(),
{
    let r: Vec<u8> = vec![100u8, 101u8, 115u8, 101u8, 114u8, 105u8, 97u8, 108u8, 105u8, 122u8, 101u8];
    proof {
        assert(r@ =~= deserialize_name());
    }
    r
}

/// Ghost bytes of `"println"`: the `println` builtin binding.
pub open spec fn println_name() -> Seq<u8> {
    seq![112u8, 114u8, 105u8, 110u8, 116u8, 108u8, 110u8]
}

/// The bytes of `"println"`.
pub fn println_name_bytes() -> (r: Vec<u8>)
    ensures
        r@ == println_name(),
{
    let r: Vec<u8> = vec![112u8, 114u8, 105u8, 110u8, 116u8, 108u8, 110u8];
    proof {
        assert(r@ =~= println_name());
    }
    r
}

/// Ghost bytes of `"print"`: the `print` builtin binding.
pub open spec fn print_name() -> Seq<u8> {
    seq![112u8, 114u8, 105u8, 110u8, 116u8]
}

/// The bytes of `"print"`.
pub fn print_name_bytes() -> (r: Vec<u8>)
    ensures
        r@ == print_name(),
{
    let r: Vec<u8> = vec![112u8, 114u8, 105u8, 110u8, 116u8];
    proof {
        assert(r@ =~= print_name());
    }
    r
}

/// Ghost bytes of `".yapl"`: the module file extension.
pub open spec fn module_ext() -> Seq<u8> {
    seq![46u8, 121u8, 97u8, 112u8, 108u8]
}

/// The bytes of `".yapl"`.
pub fn module_ext_bytes() -> (r: Vec<u8>)
    ensures
        r@ == module_ext(),
{
    let r: Vec<u8> = vec![46u8, 121u8, 97u8, 112u8, 108u8];
    proof {
        assert(r@ =~= module_ext());
    }
    r
}

} // verus!
