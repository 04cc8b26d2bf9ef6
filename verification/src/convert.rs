//! The reference semantics of the two generated conversions.
//!
//! The emitted source text projects a variant to its literal and parses a
//! literal back by first match in declaration order.  These functions state
//! that behaviour over a resolved schema, and the round-trip laws hold of
//! it.

use vstd::prelude::*;
use crate::resolve::{Resolved, ResolvedView, distinct_values, find_first, find_first_in, lemma_find_first, lemma_find_first_at, lemma_resolved_invariants, resolve_spec};
use crate::schema::SchemaView;
use crate::value::{Value, ValueView};

verus! {

/// Project: the literal value of the variant at index `i`.  Total over the
/// variants of a resolved schema.
pub fn project<'a>(r: &'a Resolved, i: usize) -> (v: &'a Value)
    requires
        i < r@.variants.len(),
    ensures
        v@ == r@.variants[i as int].value,
{
    &r.variants[i].value
}

/// Parse: the first variant, in declaration order, whose literal value
/// equals the input, or `None` — the generated code then hands the input
/// back as the failure payload.
pub fn parse(r: &Resolved, input: &Value) -> (res: Option<usize>)
    ensures
        match find_first(r@.variants, input@) {
            None => res is None,
            Some(k) => res == Some(k as usize),
        },
{
    find_first_in(&r.variants, input)
}

/// Round trip, projection direction: parsing the projection of any variant
/// of a duplicate-free resolved schema yields that variant back.
pub proof fn lemma_parse_of_project(r: ResolvedView, i: int)
    requires
        distinct_values(r.variants),
        0 <= i < r.variants.len(),
    ensures
        find_first(r.variants, r.variants[i].value) == Some(i),
{
    lemma_find_first_at(r.variants, r.variants[i].value, i);
}

/// Round trip, projection direction, from the schema: every resolved
/// schema is duplicate-free, so the round trip holds of each its variants.
pub proof fn lemma_round_trip(s: SchemaView, i: int)
    requires
        resolve_spec(s) is Ok,
        resolve_spec(s)->Ok_0 is Some,
        0 <= i < resolve_spec(s)->Ok_0->Some_0.variants.len(),
    ensures
        ({
            let r = resolve_spec(s)->Ok_0->Some_0;
            find_first(r.variants, r.variants[i].value) == Some(i)
        }),
{
    lemma_resolved_invariants(s);
    lemma_parse_of_project(resolve_spec(s)->Ok_0->Some_0, i);
}

/// Round trip, parse direction: whatever parses to a variant is exactly
/// that variant's projection.
pub proof fn lemma_project_of_parse(r: ResolvedView, v: ValueView)
    requires
        find_first(r.variants, v) is Some,
    ensures
        r.variants[find_first(r.variants, v)->Some_0].value == v,
{
    lemma_find_first(r.variants, v);
}

} // verus!
