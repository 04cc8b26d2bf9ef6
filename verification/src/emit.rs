//! The emitter: the source text of the two generated conversions.
//!
//! Projection is a total match over the closed variant set.  Parsing
//! dispatches on the input: the value-matchable types get one match with a
//! fallback arm, the borrowed view types — which cannot stand in a value
//! pattern — get a sequential equality chain in declaration order.  Either
//! way a failed parse hands the input back.  View-typed conversions are
//! parameterized by the borrow scope of the literal.

use vstd::prelude::*;
use vstd::string::StringExecFns;
use crate::resolve::{Resolved, ResolvedView, ResolvedVariant, ResolvedVariantView, Diag, resolve, resolve_spec, rv_views};
use crate::schema::{LiteralType, Schema, is_view_type, view_type};
use crate::text::{type_str, type_text, value_text, push_value_text};

verus! {

/// The borrow-scope parameter list of the generated impls: present
/// exactly for the view types.
pub open spec fn lt_text(t: LiteralType) -> Seq<char> {
    if is_view_type(t) {
        "<'a>"@
    } else {
        Seq::empty()
    }
}

/// One arm of the value-match parse dispatch.
pub open spec fn match_arm_text(v: ResolvedVariantView) -> Seq<char> {
    "            "@ + value_text(v.value) + " => Ok(Self::"@ + v.ident + "),\n"@
}

/// The arms of the value-match parse dispatch, in declaration order.
pub open spec fn match_arms_text(vars: Seq<ResolvedVariantView>) -> Seq<char>
    decreases vars.len(),
{
    if vars.len() == 0 {
        Seq::empty()
    } else {
        match_arms_text(vars.drop_last()) + match_arm_text(vars.last())
    }
}

/// One test of the sequential equality chain for view types.
pub open spec fn if_arm_text(v: ResolvedVariantView) -> Seq<char> {
    "        if "@ + value_text(v.value) + " == value {\n            return Ok(Self::"@ + v.ident
        + ");\n        }\n"@
}

/// The sequential equality chain, in declaration order.
pub open spec fn if_arms_text(vars: Seq<ResolvedVariantView>) -> Seq<char>
    decreases vars.len(),
{
    if vars.len() == 0 {
        Seq::empty()
    } else {
        if_arms_text(vars.drop_last()) + if_arm_text(vars.last())
    }
}

/// One arm of the projection match.
pub open spec fn into_arm_text(v: ResolvedVariantView) -> Seq<char> {
    "            Self::"@ + v.ident + " => "@ + value_text(v.value) + ",\n"@
}

/// The arms of the projection match, in declaration order.
pub open spec fn into_arms_text(vars: Seq<ResolvedVariantView>) -> Seq<char>
    decreases vars.len(),
{
    if vars.len() == 0 {
        Seq::empty()
    } else {
        into_arms_text(vars.drop_last()) + into_arm_text(vars.last())
    }
}

/// The parse conversion: an impl of the fallible conversion from the
/// literal type, with the literal type itself as the failure payload.
pub open spec fn try_from_text(r: ResolvedView) -> Seq<char> {
    "impl"@ + lt_text(r.ty) + " TryFrom<"@ + type_text(r.ty) + "> for "@ + r.ident
        + " {\n    type Error = "@ + type_text(r.ty) + ";\n    fn try_from(value: "@ + type_text(
        r.ty,
    ) + ") -> Result<Self, Self::Error> {\n"@ + (if is_view_type(r.ty) {
        if_arms_text(r.variants) + "        Err(value)\n"@
    } else {
        "        match value {\n"@ + match_arms_text(r.variants)
            + "            _ => Err(value),\n        }\n"@
    }) + "    }\n}\n"@
}

/// The projection conversion: an impl of the total conversion into the
/// literal type, one arm per variant, no fallback.
pub open spec fn into_text(r: ResolvedView) -> Seq<char> {
    "impl"@ + lt_text(r.ty) + " Into<"@ + type_text(r.ty) + "> for "@ + r.ident
        + " {\n    fn into(self) -> "@ + type_text(r.ty) + " {\n        match self {\n"@
        + into_arms_text(r.variants) + "        }\n    }\n}\n"@
}

/// The whole emitted output: the parse conversion, then the projection.
pub open spec fn emit_spec(r: ResolvedView) -> Seq<char> {
    try_from_text(r) + into_text(r)
}

/// Append the value-match arms.
fn push_match_arms(out: &mut String, vars: &Vec<ResolvedVariant>)
    ensures
        final(out)@ == old(out)@ + match_arms_text(rv_views(vars@)),
{
    let n = vars.len();
    let mut i: usize = 0;
    proof {
        assert(out@ =~= old(out)@ + match_arms_text(rv_views(vars@).subrange(0, 0)));
    }
    while i < n
        invariant
            i <= n,
            n == vars@.len(),
            out@ == old(out)@ + match_arms_text(rv_views(vars@).subrange(0, i as int)),
        decreases n - i,
    {
        out.append("            ");
        push_value_text(out, &vars[i].value);
        out.append(" => Ok(Self::");
        out.append(vars[i].ident.as_str());
        out.append("),\n");
        proof {
            let vs = rv_views(vars@);
            let cur = vs.subrange(0, i + 1);
            assert(cur.drop_last() =~= vs.subrange(0, i as int));
            assert(cur.last() == vs[i as int]);
            assert(out@ =~= old(out)@ + match_arms_text(cur));
        }
        i += 1;
    }
    proof {
        assert(rv_views(vars@).subrange(0, n as int) =~= rv_views(vars@));
    }
}

/// Append the equality-chain tests.
fn push_if_arms(out: &mut String, vars: &Vec<ResolvedVariant>)
    ensures
        final(out)@ == old(out)@ + if_arms_text(rv_views(vars@)),
{
    let n = vars.len();
    let mut i: usize = 0;
    proof {
        assert(out@ =~= old(out)@ + if_arms_text(rv_views(vars@).subrange(0, 0)));
    }
    while i < n
        invariant
            i <= n,
            n == vars@.len(),
            out@ == old(out)@ + if_arms_text(rv_views(vars@).subrange(0, i as int)),
        decreases n - i,
    {
        out.append("        if ");
        push_value_text(out, &vars[i].value);
        out.append(" == value {\n            return Ok(Self::");
        out.append(vars[i].ident.as_str());
        out.append(");\n        }\n");
        proof {
            let vs = rv_views(vars@);
            let cur = vs.subrange(0, i + 1);
            assert(cur.drop_last() =~= vs.subrange(0, i as int));
            assert(cur.last() == vs[i as int]);
            assert(out@ =~= old(out)@ + if_arms_text(cur));
        }
        i += 1;
    }
    proof {
        assert(rv_views(vars@).subrange(0, n as int) =~= rv_views(vars@));
    }
}

/// Append the projection arms.
fn push_into_arms(out: &mut String, vars: &Vec<ResolvedVariant>)
    ensures
        final(out)@ == old(out)@ + into_arms_text(rv_views(vars@)),
{
    let n = vars.len();
    let mut i: usize = 0;
    proof {
        assert(out@ =~= old(out)@ + into_arms_text(rv_views(vars@).subrange(0, 0)));
    }
    while i < n
        invariant
            i <= n,
            n == vars@.len(),
            out@ == old(out)@ + into_arms_text(rv_views(vars@).subrange(0, i as int)),
        decreases n - i,
    {
        out.append("            Self::");
        out.append(vars[i].ident.as_str());
        out.append(" => ");
        push_value_text(out, &vars[i].value);
        out.append(",\n");
        proof {
            let vs = rv_views(vars@);
            let cur = vs.subrange(0, i + 1);
            assert(cur.drop_last() =~= vs.subrange(0, i as int));
            assert(cur.last() == vs[i as int]);
            assert(out@ =~= old(out)@ + into_arms_text(cur));
        }
        i += 1;
    }
    proof {
        assert(rv_views(vars@).subrange(0, n as int) =~= rv_views(vars@));
    }
}

/// Emit the source text of both conversions for a resolved schema.
pub fn emit(r: &Resolved) -> (out: String)
    ensures
        out@ == emit_spec(r@),
{
    let ty = type_str(&r.ty);
    let view = view_type(&r.ty);
    let mut out = String::new();
    out.append("impl");
    if view {
        out.append("<'a>");
    }
    out.append(" TryFrom<");
    out.append(ty);
    out.append("> for ");
    out.append(r.ident.as_str());
    out.append(" {\n    type Error = ");
    out.append(ty);
    out.append(";\n    fn try_from(value: ");
    out.append(ty);
    out.append(") -> Result<Self, Self::Error> {\n");
    if view {
        push_if_arms(&mut out, &r.variants);
        out.append("        Err(value)\n");
    } else {
        out.append("        match value {\n");
        push_match_arms(&mut out, &r.variants);
        out.append("            _ => Err(value),\n        }\n");
    }
    out.append("    }\n}\n");
    proof {
        assert(out@ =~= try_from_text(r@));
    }
    let ghost mid = out@;
    out.append("impl");
    if view {
        out.append("<'a>");
    }
    out.append(" Into<");
    out.append(ty);
    out.append("> for ");
    out.append(r.ident.as_str());
    out.append(" {\n    fn into(self) -> ");
    out.append(ty);
    out.append(" {\n        match self {\n");
    push_into_arms(&mut out, &r.variants);
    out.append("        }\n    }\n}\n");
    proof {
        assert(out@ =~= mid + into_text(r@));
        assert(out@ =~= emit_spec(r@));
    }
    out
}

/// The whole pipeline: resolve a schema and emit both conversions, the
/// empty text for a schema with no variants, or the first diagnostic.
pub fn generate(s: &Schema) -> (res: Result<String, Diag>)
    ensures
        match resolve_spec(s@) {
            Err(d) => res matches Err(d2) && d2 == d,
            Ok(opt) => res matches Ok(out) && (match opt {
                None => out@ == Seq::<char>::empty(),
                Some(rv) => out@ == emit_spec(rv),
            }),
        },
{
    match resolve(s) {
        Err(d) => Err(d),
        Ok(None) => {
            let out = String::new();
            proof {
                assert(out@ =~= Seq::<char>::empty());
            }
            Ok(out)
        },
        Ok(Some(r)) => Ok(emit(&r)),
    }
}

} // verus!
