//! Resolved literal values: the canonical value a variant stands for.
//!
//! After resolution every variant owns one value of the schema's unified
//! literal type.  An integer annotation's suffix only fixes the type, so
//! the canonical value of an integer literal is its numeric value alone.

use vstd::prelude::*;
use vstd::utf8::encode_utf8;
use crate::schema::{Lit, LitView, LiteralType, lit_type};

verus! {

/// The canonical value of one resolved literal.
#[derive(Debug)]
pub enum Value {
    /// Text.
    Str(String),
    /// A byte sequence.
    Bytes(Vec<u8>),
    /// A nul-terminated byte sequence, without the terminator.
    CBytes(Vec<u8>),
    /// A byte.
    Byte(u8),
    /// A character.
    Char(char),
    /// An integer.
    Int(u128),
    /// A boolean.
    Bool(bool),
}

/// Specification-level image of [`Value`].
pub enum ValueView {
    Str(Seq<char>),
    Bytes(Seq<u8>),
    CBytes(Seq<u8>),
    Byte(u8),
    Char(char),
    Int(u128),
    Bool(bool),
}

impl View for Value {
    type V = ValueView;

    open spec fn view(&self) -> ValueView {
        match self {
            Value::Str(s) => ValueView::Str(s@),
            Value::Bytes(b) => ValueView::Bytes(b@),
            Value::CBytes(b) => ValueView::CBytes(b@),
            Value::Byte(b) => ValueView::Byte(*b),
            Value::Char(c) => ValueView::Char(*c),
            Value::Int(n) => ValueView::Int(*n),
            Value::Bool(b) => ValueView::Bool(*b),
        }
    }
}

/// Whether a canonical value belongs to a literal type.
pub open spec fn fits(v: ValueView, t: LiteralType) -> bool {
    match (v, t) {
        (ValueView::Str(_), LiteralType::StrView) => true,
        (ValueView::Bytes(_), LiteralType::ByteView) => true,
        (ValueView::CBytes(_), LiteralType::CStrView) => true,
        (ValueView::Byte(_), LiteralType::Byte) => true,
        (ValueView::Char(_), LiteralType::Char) => true,
        (ValueView::Int(_), LiteralType::Int { .. }) => true,
        (ValueView::Bool(_), LiteralType::Bool) => true,
        _ => false,
    }
}

/// The canonical value of an explicit literal.  Only called on supported
/// literal kinds; the unsupported kind is mapped to an arbitrary value.
pub open spec fn lit_value(l: LitView) -> ValueView {
    match l {
        LitView::Str(s) => ValueView::Str(s),
        LitView::ByteStr(b) => ValueView::Bytes(b),
        LitView::CStr(b) => ValueView::CBytes(b),
        LitView::Byte(b) => ValueView::Byte(b),
        LitView::Char(c) => ValueView::Char(c),
        LitView::Int { value, suffix: _ } => ValueView::Int(value),
        LitView::Bool(b) => ValueView::Bool(b),
        LitView::Unsupported => ValueView::Bool(false),
    }
}

/// A value fits the type of its own literal.
pub proof fn lemma_lit_value_fits(l: LitView)
    requires
        lit_type(l) is Some,
    ensures
        fits(lit_value(l), lit_type(l)->Some_0),
{
}


/// An owned copy of a byte sequence.
pub fn bytes_clone(b: &Vec<u8>) -> (r: Vec<u8>)
    ensures
        r@ == b@,
{
    let n = b.len();
    let mut r: Vec<u8> = Vec::new();
    let mut i: usize = 0;
    while i < n
        invariant
            i <= n,
            n == b@.len(),
            r@ == b@.subrange(0, i as int),
        decreases n - i,
    {
        r.push(b[i]);
        proof {
            assert(r@ =~= b@.subrange(0, i + 1));
        }
        i += 1;
    }
    proof {
        assert(b@.subrange(0, n as int) =~= b@);
    }
    r
}

/// Executable counterpart of [`lit_value`].
pub fn value_of_lit(l: &Lit) -> (v: Value)
    ensures
        v@ == lit_value(l@),
{
    match l {
        Lit::Str(s) => Value::Str(s.clone()),
        Lit::ByteStr(b) => Value::Bytes(bytes_clone(b)),
        Lit::CStr(b) => Value::CBytes(bytes_clone(b)),
        Lit::Byte(b) => Value::Byte(*b),
        Lit::Char(c) => Value::Char(*c),
        Lit::Int { value, suffix: _ } => Value::Int(*value),
        Lit::Bool(b) => Value::Bool(*b),
        Lit::Unsupported => Value::Bool(false),
    }
}

/// The default literal value inferred from a variant identifier under an
/// already fixed literal type, or `None` when the identifier does not fit:
/// a byte default needs a single one-byte character, a character default a
/// single character, and integer and boolean types admit no inference.
pub open spec fn default_value(t: LiteralType, ident: Seq<char>) -> Option<ValueView> {
    match t {
        LiteralType::StrView => Some(ValueView::Str(ident)),
        LiteralType::ByteView => Some(ValueView::Bytes(encode_utf8(ident))),
        LiteralType::CStrView => Some(ValueView::CBytes(encode_utf8(ident))),
        LiteralType::Byte => if encode_utf8(ident).len() == 1 {
            Some(ValueView::Byte(encode_utf8(ident)[0]))
        } else {
            None
        },
        LiteralType::Char => if ident.len() == 1 {
            Some(ValueView::Char(ident[0]))
        } else {
            None
        },
        LiteralType::Int { .. } => None,
        LiteralType::Bool => None,
    }
}

/// An inferred default fits the type it was inferred under.
pub proof fn lemma_default_value_fits(t: LiteralType, ident: Seq<char>)
    requires
        default_value(t, ident) is Some,
    ensures
        fits(default_value(t, ident)->Some_0, t),
{
}

/// Byte-sequence equality.
pub fn bytes_eq(a: &Vec<u8>, b: &Vec<u8>) -> (r: bool)
    ensures
        r == (a@ == b@),
{
    if a.len() != b.len() {
        assert(a@ != b@);
        return false;
    }
    let n = a.len();
    let mut i: usize = 0;
    while i < n
        invariant
            i <= n,
            n == a@.len() == b@.len(),
            forall|j: int| 0 <= j < i ==> a@[j] == b@[j],
        decreases n - i,
    {
        if a[i] != b[i] {
            return false;
        }
        i += 1;
    }
    proof {
        assert(a@ =~= b@);
    }
    true
}

/// Structural equality of canonical values.
pub fn value_eq(a: &Value, b: &Value) -> (r: bool)
    ensures
        r == (a@ == b@),
{
    match (a, b) {
        (Value::Str(x), Value::Str(y)) => {
            let r = *x == *y;
            assert(r == (a@ == b@));
            r
        },
        (Value::Bytes(x), Value::Bytes(y)) => bytes_eq(x, y),
        (Value::CBytes(x), Value::CBytes(y)) => bytes_eq(x, y),
        (Value::Byte(x), Value::Byte(y)) => x == y,
        (Value::Char(x), Value::Char(y)) => x == y,
        (Value::Int(x), Value::Int(y)) => x == y,
        (Value::Bool(x), Value::Bool(y)) => x == y,
        _ => {
            assert(a@ != b@);
            false
        },
    }
}

} // verus!
