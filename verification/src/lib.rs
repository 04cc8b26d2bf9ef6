//! Generation of literal-backed conversions for payload-free enums.
//!
//! A schema names a closed enum whose variants each stand for one literal
//! value of a single underlying type.  The pipeline validates the schema,
//! resolves one literal per variant (explicit or inferred from the variant
//! identifier), unifies the literal types, rejects repeated literals, and
//! emits the source text of the two conversions: projecting a variant to
//! its literal, and parsing a literal back into a variant.

pub mod schema;
pub mod value;
pub mod resolve;
pub mod convert;
pub mod text;
pub mod emit;
