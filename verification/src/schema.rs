//! The input model: a pre-parsed enumeration schema.
//!
//! A schema arrives from the host front end as plain values: the enum
//! identifier, whether generic parameters were declared, and one entry per
//! variant holding the variant identifier, whether the variant is payload
//! free, and the state of its literal annotation.

use vstd::prelude::*;

verus! {

/// Width of an integer literal type.
#[derive(Clone, Copy, PartialEq, Eq, Structural, Debug)]
pub enum IntWidth {
    W8,
    W16,
    W32,
    W64,
    W128,
    WSize,
}

/// An explicit integer suffix: width and signedness.
#[derive(Clone, Copy, PartialEq, Eq, Structural, Debug)]
pub struct IntSuffix {
    pub width: IntWidth,
    pub signed: bool,
}

/// The underlying literal type fixed for a whole schema.
#[derive(Clone, Copy, PartialEq, Eq, Structural, Debug)]
pub enum LiteralType {
    /// A borrowed text view.
    StrView,
    /// A borrowed byte-sequence view.
    ByteView,
    /// A borrowed nul-terminated text view.
    CStrView,
    /// A single byte.
    Byte,
    /// A single character.
    Char,
    /// An integer of the given width and signedness.
    Int { width: IntWidth, signed: bool },
    /// A boolean.
    Bool,
}

/// True for the borrowed view types, which cannot stand in a value match
/// and need a borrow-scope parameter on the generated conversions.
pub open spec fn is_view_type(t: LiteralType) -> bool {
    match t {
        LiteralType::StrView => true,
        LiteralType::ByteView => true,
        LiteralType::CStrView => true,
        _ => false,
    }
}

/// Executable test for [`is_view_type`].
pub fn view_type(t: &LiteralType) -> (r: bool)
    ensures
        r == is_view_type(*t),
{
    match t {
        LiteralType::StrView => true,
        LiteralType::ByteView => true,
        LiteralType::CStrView => true,
        _ => false,
    }
}

/// One literal annotation value, as the host front end parsed it.
pub enum Lit {
    /// A text literal.
    Str(String),
    /// A byte-string literal.
    ByteStr(Vec<u8>),
    /// A C-string literal; the bytes hold no interior nul.
    CStr(Vec<u8>),
    /// A byte literal.
    Byte(u8),
    /// A character literal.
    Char(char),
    /// An integer literal: its digits' value and its optional suffix.
    Int { value: u128, suffix: Option<IntSuffix> },
    /// A boolean literal.
    Bool(bool),
    /// Any literal kind outside the supported set.
    Unsupported,
}

/// Specification-level image of [`Lit`].
pub enum LitView {
    Str(Seq<char>),
    ByteStr(Seq<u8>),
    CStr(Seq<u8>),
    Byte(u8),
    Char(char),
    Int { value: u128, suffix: Option<IntSuffix> },
    Bool(bool),
    Unsupported,
}

impl View for Lit {
    type V = LitView;

    open spec fn view(&self) -> LitView {
        match self {
            Lit::Str(s) => LitView::Str(s@),
            Lit::ByteStr(b) => LitView::ByteStr(b@),
            Lit::CStr(b) => LitView::CStr(b@),
            Lit::Byte(b) => LitView::Byte(*b),
            Lit::Char(c) => LitView::Char(*c),
            Lit::Int { value, suffix } => LitView::Int { value: *value, suffix: *suffix },
            Lit::Bool(b) => LitView::Bool(*b),
            Lit::Unsupported => LitView::Unsupported,
        }
    }
}

/// The literal type of one annotation value, or `None` for a literal kind
/// that the generator does not support.  An unsuffixed integer literal
/// defaults to a 32-bit unsigned type.
pub open spec fn lit_type(l: LitView) -> Option<LiteralType> {
    match l {
        LitView::Str(_) => Some(LiteralType::StrView),
        LitView::ByteStr(_) => Some(LiteralType::ByteView),
        LitView::CStr(_) => Some(LiteralType::CStrView),
        LitView::Byte(_) => Some(LiteralType::Byte),
        LitView::Char(_) => Some(LiteralType::Char),
        LitView::Int { value: _, suffix } => match suffix {
            Some(sf) => Some(LiteralType::Int { width: sf.width, signed: sf.signed }),
            None => Some(LiteralType::Int { width: IntWidth::W32, signed: false }),
        },
        LitView::Bool(_) => Some(LiteralType::Bool),
        LitView::Unsupported => None,
    }
}

/// Executable counterpart of [`lit_type`].
pub fn lit_type_of(l: &Lit) -> (r: Option<LiteralType>)
    ensures
        r == lit_type(l@),
{
    match l {
        Lit::Str(_) => Some(LiteralType::StrView),
        Lit::ByteStr(_) => Some(LiteralType::ByteView),
        Lit::CStr(_) => Some(LiteralType::CStrView),
        Lit::Byte(_) => Some(LiteralType::Byte),
        Lit::Char(_) => Some(LiteralType::Char),
        Lit::Int { value: _, suffix } => match suffix {
            Some(sf) => Some(LiteralType::Int { width: sf.width, signed: sf.signed }),
            None => Some(LiteralType::Int { width: IntWidth::W32, signed: false }),
        },
        Lit::Bool(_) => Some(LiteralType::Bool),
        Lit::Unsupported => None,
    }
}

/// Why an annotation that is present is still unusable.
#[derive(Clone, Copy, PartialEq, Eq, Structural, Debug)]
pub enum MalformedKind {
    /// The annotation is not a single name-value pair.
    MissingValue,
    /// The annotation value is not a literal token.
    NotLiteral,
    /// The variant carries more than one annotation.
    Repeated,
}

/// The state of one variant's literal annotation.
pub enum Attr {
    /// No annotation: the literal is inferred from the identifier.
    Absent,
    /// A well-formed annotation with its literal value.
    Lit(Lit),
    /// An annotation of the wrong shape.
    Malformed(MalformedKind),
}

/// Specification-level image of [`Attr`].
pub enum AttrView {
    Absent,
    Lit(LitView),
    Malformed(MalformedKind),
}

impl View for Attr {
    type V = AttrView;

    open spec fn view(&self) -> AttrView {
        match self {
            Attr::Absent => AttrView::Absent,
            Attr::Lit(l) => AttrView::Lit(l@),
            Attr::Malformed(k) => AttrView::Malformed(*k),
        }
    }
}

/// One variant of the schema.
pub struct Variant {
    /// The variant identifier.
    pub ident: String,
    /// Whether the variant carries no data.
    pub is_unit: bool,
    /// The state of the variant's literal annotation.
    pub attr: Attr,
}

/// Specification-level image of [`Variant`].
pub struct VariantView {
    pub ident: Seq<char>,
    pub is_unit: bool,
    pub attr: AttrView,
}

impl View for Variant {
    type V = VariantView;

    open spec fn view(&self) -> VariantView {
        VariantView { ident: self.ident@, is_unit: self.is_unit, attr: self.attr@ }
    }
}

/// A whole enumeration schema, in declaration order.
pub struct Schema {
    /// The enum identifier.
    pub ident: String,
    /// Whether the enum declares type or lifetime parameters.
    pub has_generics: bool,
    /// The variants, in declaration order.
    pub variants: Vec<Variant>,
}

/// Specification-level image of [`Schema`].
pub struct SchemaView {
    pub ident: Seq<char>,
    pub has_generics: bool,
    pub variants: Seq<VariantView>,
}

impl View for Schema {
    type V = SchemaView;

    open spec fn view(&self) -> SchemaView {
        SchemaView {
            ident: self.ident@,
            has_generics: self.has_generics,
            variants: self.variants@.map_values(|v: Variant| v@),
        }
    }
}

} // verus!
