//! Serialization of values to canonical program text, and parsing of
//! program text back to values, both at the byte level.
//!
//! The grammar is JSON-like: `null`, `true`, `false`, decimal numbers,
//! quoted text (with backslash escapes for the quote and the backslash
//! itself), square-bracketed comma-separated arrays and curly-bracketed
//! objects.  The serializer is canonical (no whitespace); the parser reads
//! exactly this grammar.

use crate::value::{
    elems_model, entries_model, Error, Object, Shape, SpecError, SpecValue, Value,
};
use vstd::prelude::*;

verus! {

broadcast use vstd::std_specs::vec::axiom_vec_index_decreases,
    vstd::std_specs::vec::axiom_vec_decreases_to_view, vstd::seq::axiom_seq_index_decreases;

/// An ASCII decimal digit.
pub open spec fn is_digit(b: u8) -> bool {
    48 <= b <= 57
}

/// Decimal digits of a non-negative integer, most significant first.
pub open spec fn ser_nat(n: int) -> Seq<u8>
    decreases n,
{
    if n < 0 {
        Seq::empty()
    } else if n < 10 {
        seq![(48 + n) as u8]
    } else {
        ser_nat(n / 10) + seq![(48 + n % 10) as u8]
    }
}

/// Decimal text of an integer: an optional minus sign, then digits.
pub open spec fn ser_int(n: int) -> Seq<u8> {
    if n < 0 {
        seq![45u8] + ser_nat(-n)
    } else {
        ser_nat(n)
    }
}

/// Escaped text bytes from position `i` on: quote and backslash get a
/// backslash prefix, every other byte stands for itself.
pub open spec fn esc(t: Seq<u8>, i: int) -> Seq<u8>
    decreases t.len() - i,
{
    if i < 0 || i >= t.len() {
        Seq::empty()
    } else if t[i] == 34 || t[i] == 92 {
        seq![92u8, t[i]] + esc(t, i + 1)
    } else {
        seq![t[i]] + esc(t, i + 1)
    }
}

/// A quoted, escaped text literal.
pub open spec fn ser_text(t: Seq<u8>) -> Seq<u8> {
    seq![34u8] + esc(t, 0) + seq![34u8]
}

/// Whether a value can be written as program text: functions cannot, and a
/// number must fit the machine representation.
pub open spec fn representable(v: SpecValue) -> bool
    decreases v, 0int,
{
    match v {
        SpecValue::Null => true,
        SpecValue::Bool(_) => true,
        SpecValue::Number(n) => i64::MIN <= n <= i64::MAX,
        SpecValue::Text(_) => true,
        SpecValue::Array(es) => all_representable(es, 0),
        SpecValue::Object(ens) => entries_representable(ens, 0),
        SpecValue::Function(_) => false,
    }
}

/// Every element from `i` on is representable.
pub open spec fn all_representable(es: Seq<SpecValue>, i: int) -> bool
    decreases es, es.len() - i,
{
    if i < 0 || i >= es.len() {
        true
    } else {
        representable(es[i]) && all_representable(es, i + 1)
    }
}

/// Every entry value from `i` on is representable.
pub open spec fn entries_representable(ens: Seq<(Seq<u8>, SpecValue)>, i: int) -> bool
    decreases ens, ens.len() - i,
{
    if i < 0 || i >= ens.len() {
        true
    } else {
        representable(ens[i].1) && entries_representable(ens, i + 1)
    }
}

/// Canonical program text of a value.  Meaningful only for representable
/// values; a function serializes to nothing.
pub open spec fn ser(v: SpecValue) -> Seq<u8>
    decreases v, 0int,
{
    match v {
        SpecValue::Null => seq![110u8, 117u8, 108u8, 108u8],
        SpecValue::Bool(b) => if b {
            seq![116u8, 114u8, 117u8, 101u8]
        } else {
            seq![102u8, 97u8, 108u8, 115u8, 101u8]
        },
        SpecValue::Number(n) => ser_int(n),
        SpecValue::Text(t) => ser_text(t),
        SpecValue::Array(es) => seq![91u8] + ser_items(es, 0) + seq![93u8],
        SpecValue::Object(ens) => seq![123u8] + ser_entries(ens, 0) + seq![125u8],
        SpecValue::Function(_) => Seq::empty(),
    }
}

/// Comma-separated serialized elements from `i` on.
pub open spec fn ser_items(es: Seq<SpecValue>, i: int) -> Seq<u8>
    decreases es, es.len() - i,
{
    if i < 0 || i >= es.len() {
        Seq::empty()
    } else if i + 1 == es.len() {
        ser(es[i])
    } else {
        ser(es[i]) + seq![44u8] + ser_items(es, i + 1)
    }
}

/// Comma-separated serialized `"key":value` entries from `i` on.
pub open spec fn ser_entries(ens: Seq<(Seq<u8>, SpecValue)>, i: int) -> Seq<u8>
    decreases ens, ens.len() - i,
{
    if i < 0 || i >= ens.len() {
        Seq::empty()
    } else if i + 1 == ens.len() {
        ser_text(ens[i].0) + seq![58u8] + ser(ens[i].1)
    } else {
        ser_text(ens[i].0) + seq![58u8] + ser(ens[i].1) + seq![44u8] + ser_entries(ens, i + 1)
    }
}

/// The node count of a value tree, counting one per element separator as
/// well; parsing consumes at most this much fuel.
pub open spec fn sz(v: SpecValue) -> nat
    decreases v, 0int,
{
    match v {
        SpecValue::Array(es) => 1 + sz_items(es, 0),
        SpecValue::Object(ens) => 1 + sz_entries(ens, 0),
        _ => 1,
    }
}

/// Fuel needed for the elements of an array from `i` on.
pub open spec fn sz_items(es: Seq<SpecValue>, i: int) -> nat
    decreases es, es.len() - i,
{
    if i < 0 || i >= es.len() {
        0
    } else {
        sz(es[i]) + 1 + sz_items(es, i + 1)
    }
}

/// Fuel needed for the entries of an object from `i` on.
pub open spec fn sz_entries(ens: Seq<(Seq<u8>, SpecValue)>, i: int) -> nat
    decreases ens, ens.len() - i,
{
    if i < 0 || i >= ens.len() {
        0
    } else {
        sz(ens[i].1) + 1 + sz_entries(ens, i + 1)
    }
}

/// Text scan from `i` (just after an opening quote) to the closing quote:
/// the unescaped bytes and the position after the closing quote.
pub open spec fn parse_text(s: Seq<u8>, i: int) -> Option<(Seq<u8>, int)>
    decreases s.len() - i,
{
    if i < 0 || i >= s.len() {
        None
    } else if s[i] == 34 {
        Some((Seq::empty(), i + 1))
    } else if s[i] == 92 {
        if i + 1 < s.len() {
            match parse_text(s, i + 2) {
                Some((t, j)) => Some((seq![s[i + 1]] + t, j)),
                None => None,
            }
        } else {
            None
        }
    } else {
        match parse_text(s, i + 1) {
            Some((t, j)) => Some((seq![s[i]] + t, j)),
            None => None,
        }
    }
}

/// Digit scan from `i`: the accumulated value and the position after the
/// last digit.
pub open spec fn scan_digits(s: Seq<u8>, i: int, acc: int) -> (int, int)
    decreases s.len() - i,
{
    if 0 <= i < s.len() && is_digit(s[i]) {
        scan_digits(s, i + 1, acc * 10 + (s[i] - 48))
    } else {
        (acc, i)
    }
}

/// A number literal at `i`: an optional minus sign, then at least one
/// digit; fails if the value does not fit the machine representation.
pub open spec fn parse_num(s: Seq<u8>, i: int) -> Option<(SpecValue, int)> {
    let ds = if 0 <= i < s.len() && s[i] == 45 {
        i + 1
    } else {
        i
    };
    if !(0 <= ds < s.len() && is_digit(s[ds])) {
        None
    } else {
        let (mag, j) = scan_digits(s, ds, 0);
        let n = if ds == i {
            mag
        } else {
            -mag
        };
        if i64::MIN <= n <= i64::MAX {
            Some((SpecValue::Number(n), j))
        } else {
            None
        }
    }
}

/// A value at position `i`, with the position just after it.  `fuel`
/// bounds the work; the length of the input always suffices.
pub open spec fn parse_val(s: Seq<u8>, i: int, fuel: nat) -> Option<(SpecValue, int)>
    decreases fuel, 0int,
{
    if fuel == 0 || i < 0 || i >= s.len() {
        None
    } else if s[i] == 110 {
        // null
        if i + 4 <= s.len() && s[i + 1] == 117 && s[i + 2] == 108 && s[i + 3] == 108 {
            Some((SpecValue::Null, i + 4))
        } else {
            None
        }
    } else if s[i] == 116 {
        // true
        if i + 4 <= s.len() && s[i + 1] == 114 && s[i + 2] == 117 && s[i + 3] == 101 {
            Some((SpecValue::Bool(true), i + 4))
        } else {
            None
        }
    } else if s[i] == 102 {
        // false
        if i + 5 <= s.len() && s[i + 1] == 97 && s[i + 2] == 108 && s[i + 3] == 115 && s[i + 4]
            == 101 {
            Some((SpecValue::Bool(false), i + 5))
        } else {
            None
        }
    } else if s[i] == 34 {
        match parse_text(s, i + 1) {
            Some((t, j)) => Some((SpecValue::Text(t), j)),
            None => None,
        }
    } else if s[i] == 45 || is_digit(s[i]) {
        parse_num(s, i)
    } else if s[i] == 91 {
        // array
        if i + 1 < s.len() && s[i + 1] == 93 {
            Some((SpecValue::Array(Seq::empty()), i + 2))
        } else {
            match parse_items(s, i + 1, (fuel - 1) as nat) {
                Some((es, j)) => Some((SpecValue::Array(es), j)),
                None => None,
            }
        }
    } else if s[i] == 123 {
        // object
        if i + 1 < s.len() && s[i + 1] == 125 {
            Some((SpecValue::Object(Seq::empty()), i + 2))
        } else {
            match parse_entries(s, i + 1, (fuel - 1) as nat) {
                Some((ens, j)) => Some((SpecValue::Object(ens), j)),
                None => None,
            }
        }
    } else {
        None
    }
}

/// One or more comma-separated elements from `i` on, consuming the closing
/// square bracket.
pub open spec fn parse_items(s: Seq<u8>, i: int, fuel: nat) -> Option<(Seq<SpecValue>, int)>
    decreases fuel, 1int,
{
    match parse_val(s, i, fuel) {
        None => None,
        Some((v, j)) => if j < s.len() && s[j] == 93 {
            Some((seq![v], j + 1))
        } else if j < s.len() && s[j] == 44 && fuel > 0 {
            match parse_items(s, j + 1, (fuel - 1) as nat) {
                Some((es, k)) => Some((seq![v] + es, k)),
                None => None,
            }
        } else {
            None
        },
    }
}

/// One or more comma-separated `"key":value` entries from `i` on,
/// consuming the closing curly bracket.
pub open spec fn parse_entries(s: Seq<u8>, i: int, fuel: nat) -> Option<
    (Seq<(Seq<u8>, SpecValue)>, int),
>
    decreases fuel, 1int,
{
    if !(0 <= i < s.len() && s[i] == 34) {
        None
    } else {
        match parse_text(s, i + 1) {
            None => None,
            Some((key, j)) => if !(j < s.len() && s[j] == 58) {
                None
            } else {
                match parse_val(s, j + 1, fuel) {
                    None => None,
                    Some((v, k)) => if k < s.len() && s[k] == 125 {
                        Some((seq![(key, v)], k + 1))
                    } else if k < s.len() && s[k] == 44 && fuel > 0 {
                        match parse_entries(s, k + 1, (fuel - 1) as nat) {
                            Some((ens, m)) => Some((seq![(key, v)] + ens, m)),
                            None => None,
                        }
                    } else {
                        None
                    },
                }
            },
        }
    }
}

/// A whole program: one value covering the entire text.
pub open spec fn parse_program(s: Seq<u8>) -> Option<SpecValue> {
    match parse_val(s, 0, s.len()) {
        Some((v, j)) => if j == s.len() {
            Some(v)
        } else {
            None
        },
        None => None,
    }
}

} // verus!

verus! {

/// Append a copy of `add` to `out`.
pub fn push_bytes(out: &mut Vec<u8>, add: &Vec<u8>)
    ensures
        final(out)@ == old(out)@ + add@,
{
    let mut i: usize = 0;
    while i < add.len()
        invariant
            i <= add.len(),
            out@ == old(out)@ + add@.subrange(0, i as int),
        decreases add.len() - i,
    {
        out.push(add[i]);
        proof {
            assert(old(out)@ + add@.subrange(0, i as int) + seq![add@[i as int]] =~= old(out)@
                + add@.subrange(0, i + 1));
        }
        i += 1;
    }
    proof {
        assert(add@.subrange(0, add@.len() as int) =~= add@);
    }
}

/// Decimal digits of `n`, most significant first.
pub fn ser_nat_bytes(n: u64) -> (r: Vec<u8>)
    ensures
        r@ == ser_nat(n as int),
    decreases n,
{
    if n < 10 {
        let r: Vec<u8> = vec![48 + (n as u8)];
        proof {
            assert(r@ =~= ser_nat(n as int));
        }
        r
    } else {
        let mut r = ser_nat_bytes(n / 10);
        r.push(48 + ((n % 10) as u8));
        proof {
            assert(r@ =~= ser_nat((n / 10) as int) + seq![(48 + (n as int) % 10) as u8]);
        }
        r
    }
}

/// Decimal text of `n`: an optional minus sign, then digits.
pub fn ser_int_bytes(n: i64) -> (r: Vec<u8>)
    ensures
        r@ == ser_int(n as int),
{
    if n >= 0 {
        ser_nat_bytes(n as u64)
    } else {
        let m: u64 = (-(n as i128)) as u64;
        let mut r: Vec<u8> = vec![45u8];
        let mag = ser_nat_bytes(m);
        push_bytes(&mut r, &mag);
        proof {
            assert(m as int == -(n as int));
            assert(r@ =~= seq![45u8] + ser_nat(-(n as int)));
        }
        r
    }
}

/// The escaped bytes of `t` from `i` on.
pub fn esc_bytes(t: &Vec<u8>, i: usize) -> (r: Vec<u8>)
    ensures
        r@ == esc(t@, i as int),
    decreases t.len() - i,
{
    if i >= t.len() {
        let r: Vec<u8> = Vec::new();
        proof {
            assert(r@ =~= esc(t@, i as int));
        }
        r
    } else {
        let b = t[i];
        let rest = esc_bytes(t, i + 1);
        let mut r: Vec<u8> = Vec::new();
        if b == 34 || b == 92 {
            r.push(92);
        }
        r.push(b);
        push_bytes(&mut r, &rest);
        proof {
            if b == 34 || b == 92 {
                assert(r@ =~= seq![92u8, t@[i as int]] + esc(t@, i + 1));
            } else {
                assert(r@ =~= seq![t@[i as int]] + esc(t@, i + 1));
            }
        }
        r
    }
}

/// A quoted, escaped text literal.
pub fn ser_text_bytes(t: &Vec<u8>) -> (r: Vec<u8>)
    ensures
        r@ == ser_text(t@),
{
    let mut r: Vec<u8> = vec![34u8];
    let body = esc_bytes(t, 0);
    push_bytes(&mut r, &body);
    r.push(34);
    proof {
        assert(r@ =~= ser_text(t@));
    }
    r
}

/// Canonical program text of `v`, or nothing if `v` holds a function
/// anywhere.
pub fn ser_val(v: &Value) -> (r: Option<Vec<u8>>)
    ensures
        match r {
            Some(b) => representable(v.model()) && b@ == ser(v.model()),
            None => !representable(v.model()),
        },
    decreases v, 0int,
{
    match v {
        Value::Null => {
            let r: Vec<u8> = vec![110u8, 117u8, 108u8, 108u8];
            proof {
                assert(r@ =~= ser(SpecValue::Null));
            }
            Some(r)
        },
        Value::Bool(b) => {
            let r: Vec<u8> = if *b {
                vec![116u8, 114u8, 117u8, 101u8]
            } else {
                vec![102u8, 97u8, 108u8, 115u8, 101u8]
            };
            proof {
                assert(r@ =~= ser(SpecValue::Bool(*b)));
            }
            Some(r)
        },
        Value::Number(n) => Some(ser_int_bytes(*n)),
        Value::Text(t) => Some(ser_text_bytes(t)),
        Value::Array(elems) => {
            if elems.len() == 0 {
                let r: Vec<u8> = vec![91u8, 93u8];
                proof {
                    assert(elems_model(elems@) =~= Seq::<SpecValue>::empty());
                    assert(r@ =~= ser(v.model()));
                }
                Some(r)
            } else {
                match ser_items_bytes(elems, 0) {
                    Some(body) => {
                        let mut r: Vec<u8> = vec![91u8];
                        push_bytes(&mut r, &body);
                        r.push(93);
                        proof {
                            assert(r@ =~= ser(v.model()));
                        }
                        Some(r)
                    },
                    None => None,
                }
            }
        },
        Value::Object(obj) => {
            if obj.entries.len() == 0 {
                let r: Vec<u8> = vec![123u8, 125u8];
                proof {
                    assert(obj.model() =~= Seq::<(Seq<u8>, SpecValue)>::empty());
                    assert(r@ =~= ser(v.model()));
                }
                Some(r)
            } else {
                match ser_entries_bytes(&obj.entries, 0) {
                    Some(body) => {
                        let mut r: Vec<u8> = vec![123u8];
                        push_bytes(&mut r, &body);
                        r.push(125);
                        proof {
                            assert(r@ =~= ser(v.model()));
                        }
                        Some(r)
                    },
                    None => None,
                }
            }
        },
        Value::Function(_) => None,
    }
}

/// Comma-separated serialized elements from `i` on.
pub fn ser_items_bytes(elems: &Vec<Value>, i: usize) -> (r: Option<Vec<u8>>)
    requires
        i < elems@.len(),
    ensures
        match r {
            Some(b) => all_representable(elems_model(elems@), i as int) && b@ == ser_items(
                elems_model(elems@),
                i as int,
            ),
            None => !all_representable(elems_model(elems@), i as int),
        },
    decreases elems, elems.len() - i, 1int,
{
    let ghost m = elems_model(elems@);
    match ser_val(&elems[i]) {
        None => None,
        Some(mut b) => {
            if i + 1 == elems.len() {
                proof {
                    assert(all_representable(m, i + 1));
                }
                Some(b)
            } else {
                match ser_items_bytes(elems, i + 1) {
                    None => None,
                    Some(rest) => {
                        b.push(44);
                        push_bytes(&mut b, &rest);
                        proof {
                            assert(b@ =~= ser(m[i as int]) + seq![44u8] + ser_items(m, i + 1));
                        }
                        Some(b)
                    },
                }
            }
        },
    }
}

/// Comma-separated serialized `"key":value` entries from `i` on.
pub fn ser_entries_bytes(entries: &Vec<(Vec<u8>, Value)>, i: usize) -> (r: Option<Vec<u8>>)
    requires
        i < entries@.len(),
    ensures
        match r {
            Some(b) => entries_representable(entries_model(entries@), i as int) && b@
                == ser_entries(entries_model(entries@), i as int),
            None => !entries_representable(entries_model(entries@), i as int),
        },
    decreases entries, entries.len() - i, 1int,
{
    let ghost m = entries_model(entries@);
    let mut b = ser_text_bytes(&entries[i].0);
    b.push(58);
    match ser_val(&entries[i].1) {
        None => None,
        Some(inner) => {
            push_bytes(&mut b, &inner);
            if i + 1 == entries.len() {
                proof {
                    assert(entries_representable(m, i + 1));
                    assert(b@ =~= ser_text(m[i as int].0) + seq![58u8] + ser(m[i as int].1));
                }
                Some(b)
            } else {
                match ser_entries_bytes(entries, i + 1) {
                    None => None,
                    Some(rest) => {
                        b.push(44);
                        push_bytes(&mut b, &rest);
                        proof {
                            assert(b@ =~= ser_text(m[i as int].0) + seq![58u8] + ser(m[i as int].1)
                                + seq![44u8] + ser_entries(m, i + 1));
                        }
                        Some(b)
                    },
                }
            }
        },
    }
}

} // verus!

verus! {

/// Scanning digits never lowers the accumulated value, never moves left,
/// and never leaves the input.
pub proof fn lemma_scan_digits_ge(s: Seq<u8>, i: int, acc: int)
    requires
        acc >= 0,
    ensures
        scan_digits(s, i, acc).0 >= acc,
        scan_digits(s, i, acc).1 >= i,
        i <= s.len() ==> scan_digits(s, i, acc).1 <= s.len(),
    decreases s.len() - i,
{
    if 0 <= i < s.len() && is_digit(s[i]) {
        lemma_scan_digits_ge(s, i + 1, acc * 10 + (s[i] - 48));
    }
}

/// Digit scan: the accumulated magnitude (bailing out once it can no
/// longer fit a machine number) and the position after the last digit.
pub fn scan_digits_bytes(s: &Vec<u8>, i: usize) -> (r: Option<(u128, usize)>)
    ensures
        match r {
            Some((acc, j)) => scan_digits(s@, i as int, 0) == (acc as int, j as int) && acc
                <= 9223372036854775808u128 && (i <= s@.len() ==> j <= s@.len()),
            None => scan_digits(s@, i as int, 0).0 > 9223372036854775808,
        },
{
    let mut acc: u128 = 0;
    let mut j: usize = i;
    while j < s.len() && 48 <= s[j] && s[j] <= 57
        invariant
            i <= j,
            j <= s.len() || j == i,
            acc <= 9223372036854775808u128,
            scan_digits(s@, i as int, 0) == scan_digits(s@, j as int, acc as int),
        decreases s.len() - j,
    {
        let d: u128 = (s[j] - 48) as u128;
        let next: u128 = acc * 10 + d;
        proof {
            assert(scan_digits(s@, j as int, acc as int) == scan_digits(
                s@,
                j + 1,
                acc as int * 10 + (s@[j as int] - 48),
            ));
        }
        if next > 9223372036854775808u128 {
            proof {
                lemma_scan_digits_ge(s@, j + 1, next as int);
            }
            return None;
        }
        acc = next;
        j += 1;
    }
    Some((acc, j))
}

/// A number literal at `i`.
pub fn parse_num_bytes(s: &Vec<u8>, i: usize) -> (r: Option<(Value, usize)>)
    ensures
        match r {
            Some((v, j)) => parse_num(s@, i as int) == Some((v.model(), j as int)) && j <= s@.len(),
            None => parse_num(s@, i as int) is None,
        },
{
    let neg = i < s.len() && s[i] == 45;
    let ds = if neg {
        i + 1
    } else {
        i
    };
    if !(ds < s.len() && 48 <= s[ds] && s[ds] <= 57) {
        return None;
    }
    match scan_digits_bytes(s, ds) {
        None => None,
        Some((mag, j)) => {
            if neg {
                let n: i64 = (-(mag as i128)) as i64;
                proof {
                    assert(n as int == -(mag as int));
                }
                Some((Value::Number(n), j))
            } else {
                if mag > 9223372036854775807u128 {
                    None
                } else {
                    Some((Value::Number(mag as i64), j))
                }
            }
        },
    }
}

/// Text scan from `i` (just after an opening quote).
pub fn parse_text_bytes(s: &Vec<u8>, i: usize) -> (r: Option<(Vec<u8>, usize)>)
    ensures
        match r {
            Some((t, j)) => parse_text(s@, i as int) == Some((t@, j as int)) && j <= s@.len(),
            None => parse_text(s@, i as int) is None,
        },
    decreases s.len() - i,
{
    if i >= s.len() {
        None
    } else if s[i] == 34 {
        let t: Vec<u8> = Vec::new();
        proof {
            assert(t@ =~= Seq::<u8>::empty());
        }
        Some((t, i + 1))
    } else if s[i] == 92 {
        if i + 1 < s.len() {
            match parse_text_bytes(s, i + 2) {
                Some((rest, j)) => {
                    let mut t: Vec<u8> = vec![s[i + 1]];
                    push_bytes(&mut t, &rest);
                    proof {
                        assert(t@ =~= seq![s@[i as int + 1]] + rest@);
                    }
                    Some((t, j))
                },
                None => None,
            }
        } else {
            None
        }
    } else {
        match parse_text_bytes(s, i + 1) {
            Some((rest, j)) => {
                let mut t: Vec<u8> = vec![s[i]];
                push_bytes(&mut t, &rest);
                proof {
                    assert(t@ =~= seq![s@[i as int]] + rest@);
                }
                Some((t, j))
            },
            None => None,
        }
    }
}

/// A value at position `i`.
pub fn parse_val_bytes(s: &Vec<u8>, i: usize, fuel: u64) -> (r: Option<(Value, usize)>)
    ensures
        match r {
            Some((v, j)) => parse_val(s@, i as int, fuel as nat) == Some((v.model(), j as int))
                && j <= s@.len(),
            None => parse_val(s@, i as int, fuel as nat) is None,
        },
    decreases fuel, 0int,
{
    if fuel == 0 || i >= s.len() {
        None
    } else if s[i] == 110 {
        if s.len() - i >= 4 && s[i + 1] == 117 && s[i + 2] == 108 && s[i + 3] == 108 {
            Some((Value::Null, i + 4))
        } else {
            None
        }
    } else if s[i] == 116 {
        if s.len() - i >= 4 && s[i + 1] == 114 && s[i + 2] == 117 && s[i + 3] == 101 {
            Some((Value::Bool(true), i + 4))
        } else {
            None
        }
    } else if s[i] == 102 {
        if s.len() - i >= 5 && s[i + 1] == 97 && s[i + 2] == 108 && s[i + 3] == 115 && s[i + 4]
            == 101 {
            Some((Value::Bool(false), i + 5))
        } else {
            None
        }
    } else if s[i] == 34 {
        match parse_text_bytes(s, i + 1) {
            Some((t, j)) => Some((Value::Text(t), j)),
            None => None,
        }
    } else if s[i] == 45 || (48 <= s[i] && s[i] <= 57) {
        parse_num_bytes(s, i)
    } else if s[i] == 91 {
        if s.len() - i >= 2 && s[i + 1] == 93 {
            let v = Value::Array(Vec::new());
            proof {
                assert(v.model() == SpecValue::Array(elems_model(Seq::<Value>::empty())));
                assert(elems_model(Seq::<Value>::empty()) =~= Seq::<SpecValue>::empty());
            }
            Some((v, i + 2))
        } else {
            match parse_items_bytes(s, i + 1, fuel - 1) {
                Some((es, j)) => Some((Value::Array(es), j)),
                None => None,
            }
        }
    } else if s[i] == 123 {
        if s.len() - i >= 2 && s[i + 1] == 125 {
            let v = Value::Object(Object { entries: Vec::new() });
            proof {
                assert(v.model() == SpecValue::Object(entries_model(Seq::<(Vec<u8>, Value)>::empty())));
                assert(entries_model(Seq::<(Vec<u8>, Value)>::empty()) =~= Seq::<
                    (Seq<u8>, SpecValue),
                >::empty());
            }
            Some((v, i + 2))
        } else {
            match parse_entries_bytes(s, i + 1, fuel - 1) {
                Some((ens, j)) => Some((Value::Object(Object { entries: ens }), j)),
                None => None,
            }
        }
    } else {
        None
    }
}

/// One or more comma-separated elements, consuming the closing bracket.
pub fn parse_items_bytes(s: &Vec<u8>, i: usize, fuel: u64) -> (r: Option<(Vec<Value>, usize)>)
    ensures
        match r {
            Some((es, j)) => parse_items(s@, i as int, fuel as nat) == Some(
                (elems_model(es@), j as int),
            ) && j <= s@.len(),
            None => parse_items(s@, i as int, fuel as nat) is None,
        },
    decreases fuel, 1int,
{
    match parse_val_bytes(s, i, fuel) {
        None => None,
        Some((v, j)) => {
            if j < s.len() && s[j] == 93 {
                let mut es: Vec<Value> = Vec::new();
                es.push(v);
                proof {
                    assert(elems_model(es@) =~= seq![es@[0].model()]);
                }
                Some((es, j + 1))
            } else if j < s.len() && s[j] == 44 && fuel > 0 {
                match parse_items_bytes(s, j + 1, fuel - 1) {
                    Some((rest, k)) => {
                        let ghost old_rest = rest@;
                        let mut es = rest;
                        es.insert(0, v);
                        proof {
                            assert(elems_model(es@) =~= seq![es@[0].model()] + elems_model(
                                old_rest,
                            ));
                        }
                        Some((es, k))
                    },
                    None => None,
                }
            } else {
                None
            }
        },
    }
}

/// One or more comma-separated `"key":value` entries, consuming the
/// closing bracket.
pub fn parse_entries_bytes(s: &Vec<u8>, i: usize, fuel: u64) -> (r: Option<
    (Vec<(Vec<u8>, Value)>, usize),
>)
    ensures
        match r {
            Some((ens, j)) => parse_entries(s@, i as int, fuel as nat) == Some(
                (entries_model(ens@), j as int),
            ) && j <= s@.len(),
            None => parse_entries(s@, i as int, fuel as nat) is None,
        },
    decreases fuel, 1int,
{
    if !(i < s.len() && s[i] == 34) {
        return None;
    }
    match parse_text_bytes(s, i + 1) {
        None => None,
        Some((key, j)) => {
            if !(j < s.len() && s[j] == 58) {
                return None;
            }
            match parse_val_bytes(s, j + 1, fuel) {
                None => None,
                Some((v, k)) => {
                    if k < s.len() && s[k] == 125 {
                        let mut ens: Vec<(Vec<u8>, Value)> = Vec::new();
                        ens.push((key, v));
                        proof {
                            assert(entries_model(ens@) =~= seq![
                                (ens@[0].0@, ens@[0].1.model()),
                            ]);
                        }
                        Some((ens, k + 1))
                    } else if k < s.len() && s[k] == 44 && fuel > 0 {
                        match parse_entries_bytes(s, k + 1, fuel - 1) {
                            Some((rest, m)) => {
                                let ghost old_rest = rest@;
                                let mut ens = rest;
                                ens.insert(0, (key, v));
                                proof {
                                    assert(entries_model(ens@) =~= seq![
                                        (ens@[0].0@, ens@[0].1.model()),
                                    ] + entries_model(old_rest));
                                }
                                Some((ens, m))
                            },
                            None => None,
                        }
                    } else {
                        None
                    }
                },
            }
        },
    }
}

/// Parse a whole program: one value covering the entire text, or a
/// `Parse` error.
pub fn parse(s: &Vec<u8>) -> (r: Result<Value, Error>)
    ensures
        match r {
            Ok(v) => parse_program(s@) == Some(v.model()),
            Err(e) => parse_program(s@) is None && e.model() == SpecError::Parse,
        },
{
    match parse_val_bytes(s, 0, s.len() as u64) {
        Some((v, j)) => {
            if j == s.len() {
                Ok(v)
            } else {
                Err(Error::Parse)
            }
        },
        None => Err(Error::Parse),
    }
}

/// Serialize a value to its canonical program text; a value holding a
/// function anywhere cannot be written and is an `InvalidType` error.
pub fn serialize_bytes(v: &Value) -> (r: Result<Vec<u8>, Error>)
    ensures
        match r {
            Ok(b) => representable(v.model()) && b@ == ser(v.model()),
            Err(e) => !representable(v.model()) && e.model() == (SpecError::InvalidType {
                expected: Shape::Serializable,
                actual: v.model(),
            }),
        },
{
    match ser_val(v) {
        Some(b) => Ok(b),
        None => Err(
            Error::InvalidType { expected: Shape::Serializable, actual: v.deep_clone() },
        ),
    }
}

} // verus!

verus! {

/// Powers of ten.
pub open spec fn pow10(k: nat) -> int
    decreases k,
{
    if k == 0 {
        1
    } else {
        10 * pow10((k - 1) as nat)
    }
}

/// Every byte a non-negative number serializes to is a digit, there is at
/// least one, and scanning them through transforms the accumulator
/// exactly.
pub proof fn lemma_scan_ser_nat(s: Seq<u8>, i: int, n: int, acc: int)
    requires
        n >= 0,
        0 <= i,
        i + ser_nat(n).len() <= s.len(),
        s.subrange(i, i + ser_nat(n).len()) == ser_nat(n),
    ensures
        ser_nat(n).len() >= 1,
        is_digit(ser_nat(n)[0]),
        scan_digits(s, i, acc) == scan_digits(
            s,
            i + ser_nat(n).len(),
            acc * pow10(ser_nat(n).len() as nat) + n,
        ),
    decreases n,
{
    if n < 10 {
        assert(ser_nat(n) == seq![(48 + n) as u8]);
        assert(s.subrange(i, i + ser_nat(n).len())[0] == ser_nat(n)[0]);
        assert(s[i] == (48 + n) as u8);
        assert(is_digit(s[i]));
        assert(scan_digits(s, i, acc) == scan_digits(s, i + 1, acc * 10 + n));
        assert(pow10(0) == 1);
        assert(pow10(1) == 10);
    } else {
        let hi = ser_nat(n / 10);
        let lo = seq![(48 + n % 10) as u8];
        let l0 = hi.len() as int;
        assert(ser_nat(n) == hi + lo);
        assert(s.subrange(i, i + ser_nat(n).len())[l0] == ser_nat(n)[l0]) by {
            assert(ser_nat(n).len() > hi.len());
        }
        assert(s.subrange(i, i + hi.len()) =~= hi) by {
            assert forall|k: int| 0 <= k < hi.len() implies s.subrange(i, i + hi.len())[k] == hi[k]
                by {
                assert(s.subrange(i, i + ser_nat(n).len())[k] == ser_nat(n)[k]);
            }
        }
        lemma_scan_ser_nat(s, i, n / 10, acc);
        let l1 = hi.len() as int;
        let acc1 = acc * pow10(hi.len()) + n / 10;
        assert(s.subrange(i, i + ser_nat(n).len())[l1] == ser_nat(n)[l1]);
        assert(s[i + l1] == ser_nat(n)[l1]);
        assert(ser_nat(n)[l1] == (48 + n % 10) as u8);
        assert(is_digit(s[i + l1]));
        assert(scan_digits(s, i + l1, acc1) == scan_digits(s, i + l1 + 1, acc1 * 10 + n % 10));
        assert(acc1 * 10 + n % 10 == acc * pow10(ser_nat(n).len() as nat) + n) by {
            assert(pow10(ser_nat(n).len() as nat) == pow10(hi.len()) * 10) by {
                assert(ser_nat(n).len() == hi.len() + 1);
                assert(pow10((hi.len() + 1) as nat) == 10 * pow10(hi.len()));
            }
            assert((acc * pow10(hi.len()) + n / 10) * 10 == acc * (pow10(hi.len()) * 10) + (n / 10)
                * 10) by (nonlinear_arith);
            assert(n / 10 * 10 + n % 10 == n);
        }
        assert(is_digit(ser_nat(n)[0])) by {
            assert(ser_nat(n)[0] == hi[0]);
        }
    }
}

/// A serialized number, followed by no byte or a non-digit, parses back
/// to exactly that number.
pub proof fn lemma_parse_ser_num(s: Seq<u8>, i: int, n: int)
    requires
        i64::MIN <= n <= i64::MAX,
        0 <= i,
        i + ser_int(n).len() <= s.len(),
        s.subrange(i, i + ser_int(n).len()) == ser_int(n),
        i + ser_int(n).len() < s.len() ==> !is_digit(s[i + ser_int(n).len()]),
    ensures
        parse_num(s, i) == Some((SpecValue::Number(n), i + ser_int(n).len())),
{
    if n >= 0 {
        assert(ser_int(n) == ser_nat(n));
        lemma_scan_ser_nat(s, i, n, 0);
        assert(s[i] == ser_nat(n)[0]);
        assert(s[i] != 45);
        let e = i + ser_nat(n).len();
        assert(scan_digits(s, e, 0 * pow10(ser_nat(n).len() as nat) + n) == (n, e));
        assert(scan_digits(s, i, 0) == (n, e));
    } else {
        let m = -n;
        assert(ser_int(n) == seq![45u8] + ser_nat(m));
        assert(s.subrange(i, i + ser_int(n).len())[0] == ser_int(n)[0]);
        assert(s[i] == 45);
        assert(s.subrange(i + 1, i + 1 + ser_nat(m).len()) =~= ser_nat(m)) by {
            assert forall|k: int|
                0 <= k < ser_nat(m).len() implies s.subrange(i + 1, i + 1 + ser_nat(m).len())[k]
                == ser_nat(m)[k] by {
                assert(s.subrange(i, i + ser_int(n).len())[k + 1] == ser_int(n)[k + 1]);
            }
        }
        lemma_scan_ser_nat(s, i + 1, m, 0);
        let e = i + 1 + ser_nat(m).len();
        assert(scan_digits(s, e, 0 * pow10(ser_nat(m).len() as nat) + m) == (m, e));
        assert(scan_digits(s, i + 1, 0) == (m, e));
        assert(is_digit(s[i + 1])) by {
            assert(s[i + 1] == ser_nat(m)[0]);
        }
    }
}

/// Escaped text followed by a closing quote scans back to exactly the
/// original bytes.
pub proof fn lemma_parse_ser_text(t: Seq<u8>, j: int, s: Seq<u8>, i: int)
    requires
        0 <= j <= t.len(),
        0 <= i,
        i + esc(t, j).len() + 1 <= s.len(),
        s.subrange(i, i + esc(t, j).len() + 1) == esc(t, j) + seq![34u8],
    ensures
        parse_text(s, i) == Some((t.skip(j), i + esc(t, j).len() + 1)),
    decreases t.len() - j,
{
    let chunk = esc(t, j) + seq![34u8];
    if j >= t.len() {
        assert(esc(t, j).len() == 0);
        assert(s[i] == chunk[0]);
        assert(s[i] == 34);
        assert(t.skip(j) =~= Seq::<u8>::empty());
    } else {
        let head: Seq<u8> = if t[j] == 34 || t[j] == 92 {
            seq![92u8, t[j]]
        } else {
            seq![t[j]]
        };
        assert(esc(t, j) == head + esc(t, j + 1));
        let i2 = i + head.len();
        assert(s.subrange(i2, i2 + esc(t, j + 1).len() + 1) =~= esc(t, j + 1) + seq![34u8]) by {
            assert forall|k: int|
                0 <= k < esc(t, j + 1).len() + 1 implies #[trigger] (s.subrange(
                i2,
                i2 + esc(t, j + 1).len() + 1,
            )[k]) == (esc(t, j + 1) + seq![34u8])[k] by {
                assert(s.subrange(i, i + esc(t, j).len() + 1)[k + head.len()] == chunk[k
                    + head.len()]);
            }
        }
        lemma_parse_ser_text(t, j + 1, s, i2);
        if t[j] == 34 || t[j] == 92 {
            assert(s[i] == chunk[0]);
            assert(s[i] == 92);
            assert(s[i + 1] == chunk[1]);
            assert(s[i + 1] == t[j]);
            assert(parse_text(s, i) == Some((seq![t[j]] + t.skip(j + 1), i + esc(t, j).len() + 1)));
        } else {
            assert(s[i] == chunk[0]);
            assert(s[i] == t[j]);
            assert(s[i] != 34 && s[i] != 92);
            assert(parse_text(s, i) == Some((seq![t[j]] + t.skip(j + 1), i + esc(t, j).len() + 1)));
        }
        assert(seq![t[j]] + t.skip(j + 1) =~= t.skip(j));
    }
}

/// Serialized text of a representable value is never empty and never
/// begins with a separator or closing bracket.
pub proof fn lemma_ser_first_byte(v: SpecValue)
    requires
        representable(v),
    ensures
        ser(v).len() >= 1,
        ser(v)[0] == 110 || ser(v)[0] == 116 || ser(v)[0] == 102 || ser(v)[0] == 34 || ser(v)[0]
            == 45 || is_digit(ser(v)[0]) || ser(v)[0] == 91 || ser(v)[0] == 123,
{
    match v {
        SpecValue::Number(n) => {
            if n >= 0 {
                lemma_ser_nat_first(n);
            } else {
                lemma_ser_nat_first(-n);
            }
        },
        _ => {},
    }
}

/// The first serialized digit of a non-negative number is a digit.
pub proof fn lemma_ser_nat_first(n: int)
    requires
        n >= 0,
    ensures
        ser_nat(n).len() >= 1,
        is_digit(ser_nat(n)[0]),
    decreases n,
{
    if n >= 10 {
        lemma_ser_nat_first(n / 10);
        assert(ser_nat(n)[0] == ser_nat(n / 10)[0]);
    }
}

/// Parsing needs no more fuel than the length of the serialized text.
pub proof fn lemma_sz_le_ser_len(v: SpecValue)
    requires
        representable(v),
    ensures
        sz(v) <= ser(v).len(),
    decreases v, 0int,
{
    match v {
        SpecValue::Array(es) => {
            if es.len() > 0 {
                lemma_sz_items_le(es, 0);
            }
        },
        SpecValue::Object(ens) => {
            if ens.len() > 0 {
                lemma_sz_entries_le(ens, 0);
            }
        },
        SpecValue::Number(n) => {
            if n >= 0 {
                lemma_ser_nat_first(n);
            } else {
                lemma_ser_nat_first(-n);
            }
        },
        _ => {},
    }
}

/// Fuel bound for a non-empty element suffix.
pub proof fn lemma_sz_items_le(es: Seq<SpecValue>, k: int)
    requires
        all_representable(es, k),
        0 <= k < es.len(),
    ensures
        sz_items(es, k) <= ser_items(es, k).len() + 1,
    decreases es, es.len() - k,
{
    lemma_sz_le_ser_len(es[k]);
    if k + 1 < es.len() {
        lemma_sz_items_le(es, k + 1);
    } else {
        assert(sz_items(es, k + 1) == 0);
    }
}

/// Fuel bound for a non-empty entry suffix.
pub proof fn lemma_sz_entries_le(ens: Seq<(Seq<u8>, SpecValue)>, k: int)
    requires
        entries_representable(ens, k),
        0 <= k < ens.len(),
    ensures
        sz_entries(ens, k) <= ser_entries(ens, k).len() + 1,
    decreases ens, ens.len() - k,
{
    lemma_sz_le_ser_len(ens[k].1);
    if k + 1 < ens.len() {
        lemma_sz_entries_le(ens, k + 1);
    } else {
        assert(sz_entries(ens, k + 1) == 0);
    }
}

} // verus!

verus! {

/// A window into a window: the inner subrange of a matched region
/// matches the region's own subrange.
pub proof fn lemma_sub_sub(s: Seq<u8>, i: int, a: Seq<u8>, off: int, m: int)
    requires
        0 <= i,
        i + a.len() <= s.len(),
        s.subrange(i, i + a.len()) == a,
        0 <= off,
        0 <= m,
        off + m <= a.len(),
    ensures
        s.subrange(i + off, i + off + m) == a.subrange(off, off + m),
{
    assert forall|k: int|
        0 <= k < m implies #[trigger] (s.subrange(i + off, i + off + m)[k]) == a.subrange(
        off,
        off + m,
    )[k] by {
        assert(s.subrange(i, i + a.len())[off + k] == a[off + k]);
    }
    assert(s.subrange(i + off, i + off + m) =~= a.subrange(off, off + m));
}

/// Serialized representable values parse back to themselves: the central
/// induction behind the round-trip law.
pub proof fn lemma_parse_ser(s: Seq<u8>, i: int, v: SpecValue, fuel: nat)
    requires
        representable(v),
        0 <= i,
        i + ser(v).len() <= s.len(),
        s.subrange(i, i + ser(v).len()) == ser(v),
        fuel >= sz(v),
        i + ser(v).len() < s.len() ==> !is_digit(s[i + ser(v).len()]),
    ensures
        parse_val(s, i, fuel) == Some((v, i + ser(v).len())),
    decreases v, 0int,
{
    let a = ser(v);
    lemma_ser_first_byte(v);
    assert(s.subrange(i, i + a.len())[0] == a[0]);
    match v {
        SpecValue::Null => {
            assert(s.subrange(i, i + a.len())[1] == a[1]);
            assert(s.subrange(i, i + a.len())[2] == a[2]);
            assert(s.subrange(i, i + a.len())[3] == a[3]);
        },
        SpecValue::Bool(b) => {
            assert(s.subrange(i, i + a.len())[1] == a[1]);
            assert(s.subrange(i, i + a.len())[2] == a[2]);
            assert(s.subrange(i, i + a.len())[3] == a[3]);
            if !b {
                assert(s.subrange(i, i + a.len())[4] == a[4]);
            }
        },
        SpecValue::Number(n) => {
            lemma_parse_ser_num(s, i, n);
        },
        SpecValue::Text(t) => {
            assert(a == seq![34u8] + esc(t, 0) + seq![34u8]);
            lemma_sub_sub(s, i, a, 1, esc(t, 0).len() as int + 1);
            assert(a.subrange(1, 1 + esc(t, 0).len() as int + 1) =~= esc(t, 0) + seq![34u8]);
            lemma_parse_ser_text(t, 0, s, i + 1);
            assert(t.skip(0) =~= t);
        },
        SpecValue::Array(es) => {
            if es.len() == 0 {
                assert(ser_items(es, 0) =~= Seq::<u8>::empty());
                assert(a =~= seq![91u8, 93u8]);
                assert(s.subrange(i, i + a.len())[1] == a[1]);
                assert(parse_val(s, i, fuel) == Some((SpecValue::Array(Seq::empty()), i + 2)));
                assert(SpecValue::Array(Seq::<SpecValue>::empty()) == v) by {
                    assert(es =~= Seq::<SpecValue>::empty());
                }
            } else {
                let items = ser_items(es, 0);
                assert(a == seq![91u8] + items + seq![93u8]);
                assert(representable(es[0])) by {
                    assert(all_representable(es, 0));
                }
                lemma_ser_first_byte(es[0]);
                assert(items[0] == ser(es[0])[0]) by {
                    assert(ser_items(es, 0) == if 0 + 1 == es.len() {
                        ser(es[0])
                    } else {
                        ser(es[0]) + seq![44u8] + ser_items(es, 1)
                    });
                }
                assert(s.subrange(i, i + a.len())[1] == a[1]);
                assert(s[i + 1] == items[0]);
                assert(s[i + 1] != 93);
                lemma_sub_sub(s, i, a, 1, items.len() as int + 1);
                assert(a.subrange(1, 1 + items.len() as int + 1) =~= items + seq![93u8]);
                lemma_parse_ser_items(s, i + 1, es, 0, (fuel - 1) as nat);
                assert(es.skip(0) =~= es);
            }
        },
        SpecValue::Object(ens) => {
            if ens.len() == 0 {
                assert(ser_entries(ens, 0) =~= Seq::<u8>::empty());
                assert(a =~= seq![123u8, 125u8]);
                assert(s.subrange(i, i + a.len())[1] == a[1]);
                assert(parse_val(s, i, fuel) == Some((SpecValue::Object(Seq::empty()), i + 2)));
                assert(SpecValue::Object(Seq::<(Seq<u8>, SpecValue)>::empty()) == v) by {
                    assert(ens =~= Seq::<(Seq<u8>, SpecValue)>::empty());
                }
            } else {
                let entries = ser_entries(ens, 0);
                assert(a == seq![123u8] + entries + seq![125u8]);
                assert(entries[0] == 34) by {
                    assert(ser_entries(ens, 0) == if 0 + 1 == ens.len() {
                        ser_text(ens[0].0) + seq![58u8] + ser(ens[0].1)
                    } else {
                        ser_text(ens[0].0) + seq![58u8] + ser(ens[0].1) + seq![44u8] + ser_entries(
                            ens,
                            1,
                        )
                    });
                    assert(ser_text(ens[0].0)[0] == 34);
                }
                assert(s.subrange(i, i + a.len())[1] == a[1]);
                assert(s[i + 1] == 34);
                assert(s[i + 1] != 125);
                lemma_sub_sub(s, i, a, 1, entries.len() as int + 1);
                assert(a.subrange(1, 1 + entries.len() as int + 1) =~= entries + seq![125u8]);
                lemma_parse_ser_entries(s, i + 1, ens, 0, (fuel - 1) as nat);
                assert(ens.skip(0) =~= ens);
            }
        },
        SpecValue::Function(_) => {},
    }
}

/// Serialized element suffixes, closed by a square bracket, parse back
/// to themselves.
pub proof fn lemma_parse_ser_items(s: Seq<u8>, i: int, es: Seq<SpecValue>, k: int, fuel: nat)
    requires
        all_representable(es, k),
        0 <= k < es.len(),
        0 <= i,
        i + ser_items(es, k).len() + 1 <= s.len(),
        s.subrange(i, i + ser_items(es, k).len() + 1) == ser_items(es, k) + seq![93u8],
        fuel >= sz_items(es, k),
    ensures
        parse_items(s, i, fuel) == Some((es.skip(k), i + ser_items(es, k).len() + 1)),
    decreases es, es.len() - k,
{
    let chunk = ser_items(es, k) + seq![93u8];
    let e = ser(es[k]);
    assert(representable(es[k]));
    lemma_sub_sub(s, i, chunk, 0, e.len() as int);
    assert(chunk.subrange(0, e.len() as int) =~= e);
    let j = i + e.len();
    if k + 1 == es.len() {
        assert(ser_items(es, k) == e);
        assert(s.subrange(i, i + chunk.len())[e.len() as int] == chunk[e.len() as int]);
        assert(s[j] == 93);
        lemma_parse_ser(s, i, es[k], fuel);
        assert(parse_items(s, i, fuel) == Some((seq![es[k]], j + 1)));
        assert(seq![es[k]] =~= es.skip(k));
    } else {
        assert(ser_items(es, k) == e + seq![44u8] + ser_items(es, k + 1));
        assert(s.subrange(i, i + chunk.len())[e.len() as int] == chunk[e.len() as int]);
        assert(s[j] == 44);
        lemma_parse_ser(s, i, es[k], fuel);
        assert(fuel > 0);
        lemma_sub_sub(s, i, chunk, e.len() as int + 1, ser_items(es, k + 1).len() as int + 1);
        assert(chunk.subrange(
            e.len() as int + 1,
            e.len() as int + 1 + ser_items(es, k + 1).len() + 1,
        ) =~= ser_items(es, k + 1) + seq![93u8]);
        assert(all_representable(es, k + 1));
        lemma_parse_ser_items(s, j + 1, es, k + 1, (fuel - 1) as nat);
        assert(parse_items(s, i, fuel) == Some(
            (seq![es[k]] + es.skip(k + 1), i + ser_items(es, k).len() + 1),
        ));
        assert(seq![es[k]] + es.skip(k + 1) =~= es.skip(k));
    }
}

/// Serialized entry suffixes, closed by a curly bracket, parse back to
/// themselves.
pub proof fn lemma_parse_ser_entries(
    s: Seq<u8>,
    i: int,
    ens: Seq<(Seq<u8>, SpecValue)>,
    k: int,
    fuel: nat,
)
    requires
        entries_representable(ens, k),
        0 <= k < ens.len(),
        0 <= i,
        i + ser_entries(ens, k).len() + 1 <= s.len(),
        s.subrange(i, i + ser_entries(ens, k).len() + 1) == ser_entries(ens, k) + seq![125u8],
        fuel >= sz_entries(ens, k),
    ensures
        parse_entries(s, i, fuel) == Some((ens.skip(k), i + ser_entries(ens, k).len() + 1)),
    decreases ens, ens.len() - k,
{
    let chunk = ser_entries(ens, k) + seq![125u8];
    let key = ens[k].0;
    let kt = ser_text(key);
    let e = ser(ens[k].1);
    assert(representable(ens[k].1));
    assert(ser_entries(ens, k) == if k + 1 == ens.len() {
        kt + seq![58u8] + e
    } else {
        kt + seq![58u8] + e + seq![44u8] + ser_entries(ens, k + 1)
    });
    assert(s.subrange(i, i + chunk.len())[0] == chunk[0]);
    assert(s[i] == 34);
    lemma_sub_sub(s, i, chunk, 1, esc(key, 0).len() as int + 1);
    assert(chunk.subrange(1, 1 + esc(key, 0).len() as int + 1) =~= esc(key, 0) + seq![34u8]);
    lemma_parse_ser_text(key, 0, s, i + 1);
    assert(key.skip(0) =~= key);
    let j = i + kt.len();
    assert(s.subrange(i, i + chunk.len())[kt.len() as int] == chunk[kt.len() as int]);
    assert(s[j] == 58);
    lemma_sub_sub(s, i, chunk, kt.len() as int + 1, e.len() as int);
    assert(chunk.subrange(kt.len() as int + 1, kt.len() as int + 1 + e.len()) =~= e);
    let m = j + 1 + e.len();
    assert(s.subrange(i, i + chunk.len())[kt.len() as int + 1 + e.len()] == chunk[kt.len() as int
        + 1 + e.len()]);
    if k + 1 == ens.len() {
        assert(s[m] == 125);
        lemma_parse_ser(s, j + 1, ens[k].1, fuel);
        assert(parse_entries(s, i, fuel) == Some((seq![(key, ens[k].1)], m + 1)));
        assert(seq![(key, ens[k].1)] =~= ens.skip(k));
    } else {
        assert(s[m] == 44);
        lemma_parse_ser(s, j + 1, ens[k].1, fuel);
        assert(fuel > 0);
        let off = kt.len() as int + 1 + e.len() + 1;
        lemma_sub_sub(s, i, chunk, off, ser_entries(ens, k + 1).len() as int + 1);
        assert(chunk.subrange(off, off + ser_entries(ens, k + 1).len() as int + 1) =~= ser_entries(
            ens,
            k + 1,
        ) + seq![125u8]);
        assert(entries_representable(ens, k + 1));
        lemma_parse_ser_entries(s, m + 1, ens, k + 1, (fuel - 1) as nat);
        assert(parse_entries(s, i, fuel) == Some(
            (seq![(key, ens[k].1)] + ens.skip(k + 1), i + ser_entries(ens, k).len() + 1),
        ));
        assert(seq![(key, ens[k].1)] + ens.skip(k + 1) =~= ens.skip(k));
    }
}

/// Round trip: every representable value, serialized and parsed back, is
/// itself — object key order, array order and numeric value exactly.
pub proof fn lemma_round_trip(v: SpecValue)
    requires
        representable(v),
    ensures
        parse_program(ser(v)) == Some(v),
{
    let s = ser(v);
    lemma_sz_le_ser_len(v);
    assert(s.subrange(0, s.len() as int) =~= s);
    lemma_parse_ser(s, 0, v, s.len());
}

} // verus!
