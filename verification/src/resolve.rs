//! The pipeline core: validation, literal resolution, type unification and
//! duplicate detection, in one pass over the variants in declaration order.

use vstd::prelude::*;
use vstd::string::StrSliceExecFns;
use crate::schema::{Attr, AttrView, LiteralType, MalformedKind, Schema, SchemaView, lit_type, lit_type_of};
use crate::value::{Value, ValueView, default_value, fits, lit_value, value_of_lit, value_eq, lemma_lit_value_fits, lemma_default_value_fits};

verus! {

/// A structured diagnostic.  Every location is the index of a variant in
/// the schema's declaration order.
#[derive(Clone, Copy, PartialEq, Eq, Structural, Debug)]
pub enum Diag {
    /// The schema declares type or lifetime parameters.
    GenericsForbidden,
    /// The named variant carries data.
    NonUnitVariant { variant: usize },
    /// The named variant's annotation has the wrong shape.
    MalformedAttr { variant: usize, kind: MalformedKind },
    /// The named variant's literal is of an unsupported kind.
    UnsupportedLiteral { variant: usize },
    /// The named variant has no annotation and the fixed type admits no
    /// inferred default.
    CannotInferLiteral { variant: usize },
    /// The named variant has no annotation and its identifier does not fit
    /// the fixed type's inferred default.
    BadImplicitLiteral { variant: usize },
    /// The named variant's literal type differs from the type established
    /// by the variant at `first`.
    TypeMismatch { variant: usize, first: usize },
    /// The named variant's literal repeats the literal of the variant at
    /// `first`.
    DuplicateLiteral { variant: usize, first: usize },
}

/// One variant with its resolved canonical literal value.
#[derive(Debug)]
pub struct ResolvedVariant {
    /// The variant identifier.
    pub ident: String,
    /// The canonical literal value the variant stands for.
    pub value: Value,
}

/// Specification-level image of [`ResolvedVariant`].
pub struct ResolvedVariantView {
    pub ident: Seq<char>,
    pub value: ValueView,
}

impl View for ResolvedVariant {
    type V = ResolvedVariantView;

    open spec fn view(&self) -> ResolvedVariantView {
        ResolvedVariantView { ident: self.ident@, value: self.value@ }
    }
}

/// Specification-level image of a sequence of resolved variants.
pub open spec fn rv_views(v: Seq<ResolvedVariant>) -> Seq<ResolvedVariantView> {
    v.map_values(|x: ResolvedVariant| x@)
}

/// A successfully resolved, non-empty schema: the unified literal type and
/// the resolved variants in declaration order.
#[derive(Debug)]
pub struct Resolved {
    /// The enum identifier.
    pub ident: String,
    /// The unified literal type.
    pub ty: LiteralType,
    /// The resolved variants, in declaration order.
    pub variants: Vec<ResolvedVariant>,
}

/// Specification-level image of [`Resolved`].
pub struct ResolvedView {
    pub ident: Seq<char>,
    pub ty: LiteralType,
    pub variants: Seq<ResolvedVariantView>,
}

impl View for Resolved {
    type V = ResolvedView;

    open spec fn view(&self) -> ResolvedView {
        ResolvedView { ident: self.ident@, ty: self.ty, variants: rv_views(self.variants@) }
    }
}

/// The index of the first resolved variant whose value equals `v`.
pub open spec fn find_first(s: Seq<ResolvedVariantView>, v: ValueView) -> Option<int>
    decreases s.len(),
{
    if s.len() == 0 {
        None
    } else if s[0].value == v {
        Some(0)
    } else {
        match find_first(s.drop_first(), v) {
            Some(j) => Some(j + 1),
            None => None,
        }
    }
}

/// What [`find_first`] returns: the least matching index, or `None` when
/// no value matches.
pub proof fn lemma_find_first(s: Seq<ResolvedVariantView>, v: ValueView)
    ensures
        match find_first(s, v) {
            None => forall|j: int| 0 <= j < s.len() ==> s[j].value != v,
            Some(i) => 0 <= i < s.len() && s[i].value == v && forall|j: int|
                0 <= j < i ==> s[j].value != v,
        },
    decreases s.len(),
{
    if s.len() > 0 && s[0].value != v {
        let d = s.drop_first();
        lemma_find_first(d, v);
        match find_first(d, v) {
            None => {
                assert forall|j: int| 0 <= j < s.len() implies s[j].value != v by {
                    if j > 0 {
                        assert(d[j - 1] == s[j]);
                    }
                }
            },
            Some(i) => {
                assert(d[i] == s[i + 1]);
                assert forall|j: int| 0 <= j < i + 1 implies s[j].value != v by {
                    if j > 0 {
                        assert(d[j - 1] == s[j]);
                    }
                }
            },
        }
    }
}

/// The converse: a least matching index is what [`find_first`] returns.
pub proof fn lemma_find_first_at(s: Seq<ResolvedVariantView>, v: ValueView, i: int)
    requires
        0 <= i < s.len(),
        s[i].value == v,
        forall|j: int| 0 <= j < i ==> s[j].value != v,
    ensures
        find_first(s, v) == Some(i),
    decreases s.len(),
{
    if i > 0 {
        assert(forall|j: int| 0 <= j < s.drop_first().len() ==> s.drop_first()[j] == s[j + 1]);
        lemma_find_first_at(s.drop_first(), v, i - 1);
    }
}

/// The fixed literal type and the variant that established it.
pub struct FixedView {
    pub ty: LiteralType,
    pub at: int,
}

/// The resolver's running state: the fixed type, if one is established,
/// and the variants resolved so far.
pub struct RunState {
    pub fixed: Option<FixedView>,
    pub done: Seq<ResolvedVariantView>,
}

/// The state before the first variant.
pub open spec fn init_state() -> RunState {
    RunState { fixed: None, done: Seq::empty() }
}

/// The fixed literal type alone, without the index that established it.
pub open spec fn fixed_ty_of(fixed: Option<FixedView>) -> Option<LiteralType> {
    match fixed {
        None => None,
        Some(f) => Some(f.ty),
    }
}

/// The literal type and canonical value of one variant: the explicit
/// annotation if present, else the default inferred from the identifier
/// under the fixed type (a text literal of the identifier when no type is
/// fixed yet).
pub open spec fn resolved_pair(
    attr: AttrView,
    ident: Seq<char>,
    fixed_ty: Option<LiteralType>,
    i: int,
) -> Result<(LiteralType, ValueView), Diag> {
    match attr {
        AttrView::Malformed(k) => Err(Diag::MalformedAttr { variant: i as usize, kind: k }),
        AttrView::Lit(l) => match lit_type(l) {
            None => Err(Diag::UnsupportedLiteral { variant: i as usize }),
            Some(t) => Ok((t, lit_value(l))),
        },
        AttrView::Absent => match fixed_ty {
            None => Ok((LiteralType::StrView, ValueView::Str(ident))),
            Some(ft) => match ft {
                LiteralType::Int { .. } => Err(Diag::CannotInferLiteral { variant: i as usize }),
                LiteralType::Bool => Err(Diag::CannotInferLiteral { variant: i as usize }),
                _ => match default_value(ft, ident) {
                    Some(v) => Ok((ft, v)),
                    None => Err(Diag::BadImplicitLiteral { variant: i as usize }),
                },
            },
        },
    }
}

/// Record one resolved value: reject a repeat of an earlier value, else
/// append it to the state.  Values of one literal type share a canonical
/// source text exactly when they are equal, so comparing values detects
/// exactly the repeats of canonical text forms.
pub open spec fn record(
    st: RunState,
    fixed2: Option<FixedView>,
    ident: Seq<char>,
    v: ValueView,
    i: int,
) -> Result<RunState, Diag> {
    match find_first(st.done, v) {
        Some(j) => Err(Diag::DuplicateLiteral { variant: i as usize, first: j as usize }),
        None => Ok(
            RunState {
                fixed: fixed2,
                done: st.done.push(ResolvedVariantView { ident, value: v }),
            },
        ),
    }
}

/// Process the variant at index `i`: structural check, literal resolution,
/// type unification, duplicate check.
pub open spec fn step(s: SchemaView, i: int, st: RunState) -> Result<RunState, Diag> {
    let var = s.variants[i];
    if !var.is_unit {
        Err(Diag::NonUnitVariant { variant: i as usize })
    } else {
        match resolved_pair(var.attr, var.ident, fixed_ty_of(st.fixed), i) {
            Err(d) => Err(d),
            Ok((t, v)) => match st.fixed {
                Some(f) => if t != f.ty {
                    Err(Diag::TypeMismatch { variant: i as usize, first: f.at as usize })
                } else {
                    record(st, st.fixed, var.ident, v, i)
                },
                None => record(st, Some(FixedView { ty: t, at: i }), var.ident, v, i),
            },
        }
    }
}

/// Process the variants from index `i` on.
pub open spec fn run_from(s: SchemaView, i: int, st: RunState) -> Result<RunState, Diag>
    decreases s.variants.len() - i,
{
    if i < 0 || i >= s.variants.len() {
        Ok(st)
    } else {
        match step(s, i, st) {
            Err(d) => Err(d),
            Ok(st2) => run_from(s, i + 1, st2),
        }
    }
}

/// The whole resolution pass over a schema: `Ok(None)` for a schema with
/// no variants, `Ok(Some(..))` with the unified type and the resolved
/// variants otherwise, and the first diagnostic in declaration order on
/// failure.
pub open spec fn resolve_spec(s: SchemaView) -> Result<Option<ResolvedView>, Diag> {
    if s.has_generics {
        Err(Diag::GenericsForbidden)
    } else {
        match run_from(s, 0, init_state()) {
            Err(d) => Err(d),
            Ok(st) => match st.fixed {
                None => Ok(None),
                Some(f) => Ok(
                    Some(ResolvedView { ident: s.ident, ty: f.ty, variants: st.done }),
                ),
            },
        }
    }
}

/// The index of the first resolved variant whose value equals `v`, as an
/// executable scan.
pub fn find_first_in(done: &Vec<ResolvedVariant>, v: &Value) -> (r: Option<usize>)
    ensures
        match find_first(rv_views(done@), v@) {
            None => r is None,
            Some(k) => r == Some(k as usize),
        },
{
    proof {
        lemma_find_first(rv_views(done@), v@);
    }
    let n = done.len();
    let mut i: usize = 0;
    while i < n
        invariant
            i <= n,
            n == done@.len(),
            forall|j: int| 0 <= j < i ==> rv_views(done@)[j].value != v@,
        decreases n - i,
    {
        if value_eq(&done[i].value, v) {
            proof {
                lemma_find_first_at(rv_views(done@), v@, i as int);
            }
            return Some(i);
        }
        proof {
            assert(rv_views(done@)[i as int].value != v@);
        }
        i += 1;
    }
    None
}

/// Executable counterpart of [`resolved_pair`].
fn pair_of(attr: &Attr, ident: &String, fixed_ty: Option<LiteralType>, i: usize) -> (r: Result<
    (LiteralType, Value),
    Diag,
>)
    ensures
        match (r, resolved_pair(attr@, ident@, fixed_ty, i as int)) {
            (Ok((t, v)), Ok((ts, vs))) => t == ts && v@ == vs,
            (Err(d), Err(ds)) => d == ds,
            _ => false,
        },
{
    match attr {
        Attr::Malformed(k) => Err(Diag::MalformedAttr { variant: i, kind: *k }),
        Attr::Lit(l) => match lit_type_of(l) {
            None => Err(Diag::UnsupportedLiteral { variant: i }),
            Some(t) => Ok((t, value_of_lit(l))),
        },
        Attr::Absent => match fixed_ty {
            None => Ok((LiteralType::StrView, Value::Str(ident.clone()))),
            Some(ft) => match ft {
                LiteralType::Int { .. } => Err(Diag::CannotInferLiteral { variant: i }),
                LiteralType::Bool => Err(Diag::CannotInferLiteral { variant: i }),
                LiteralType::StrView => Ok((ft, Value::Str(ident.clone()))),
                LiteralType::ByteView => Ok((ft, Value::Bytes(ident.as_str().as_bytes_vec()))),
                LiteralType::CStrView => Ok((ft, Value::CBytes(ident.as_str().as_bytes_vec()))),
                LiteralType::Byte => {
                    let bs = ident.as_str().as_bytes_vec();
                    if bs.len() == 1 {
                        Ok((ft, Value::Byte(bs[0])))
                    } else {
                        Err(Diag::BadImplicitLiteral { variant: i })
                    }
                },
                LiteralType::Char => {
                    let n = ident.as_str().unicode_len();
                    if n == 1 {
                        Ok((ft, Value::Char(ident.as_str().get_char(0))))
                    } else {
                        Err(Diag::BadImplicitLiteral { variant: i })
                    }
                },
            },
        },
    }
}

/// The resolver's executable running state, as a specification value.
pub open spec fn cur_state(
    fixed_ty: Option<LiteralType>,
    fixed_at: usize,
    done: Seq<ResolvedVariant>,
) -> RunState {
    RunState {
        fixed: match fixed_ty {
            None => None,
            Some(t) => Some(FixedView { ty: t, at: fixed_at as int }),
        },
        done: rv_views(done),
    }
}

/// Run the whole pipeline over a schema: structural validation, literal
/// resolution, type unification and duplicate detection.  Returns exactly
/// what [`resolve_spec`] describes: `Ok(None)` for an empty schema,
/// `Ok(Some(..))` with the unified type and the resolved variants in
/// declaration order, or the first diagnostic.
pub fn resolve(s: &Schema) -> (res: Result<Option<Resolved>, Diag>)
    ensures
        match resolve_spec(s@) {
            Err(d) => res matches Err(d2) && d2 == d,
            Ok(opt) => res matches Ok(o) && (match (o, opt) {
                (None, None) => true,
                (Some(r), Some(rv)) => r@ == rv,
                _ => false,
            }),
        },
{
    if s.has_generics {
        return Err(Diag::GenericsForbidden);
    }
    let ghost sv = s@;
    let n = s.variants.len();
    let mut fixed_ty: Option<LiteralType> = None;
    let mut fixed_at: usize = 0;
    let mut done: Vec<ResolvedVariant> = Vec::new();
    let mut i: usize = 0;
    proof {
        assert(rv_views(done@) =~= Seq::<ResolvedVariantView>::empty());
        assert(cur_state(fixed_ty, fixed_at, done@) == init_state());
    }
    while i < n
        invariant
            i <= n,
            n == sv.variants.len(),
            sv == s@,
            !sv.has_generics,
            done@.len() == i,
            run_from(sv, 0, init_state()) == run_from(
                sv,
                i as int,
                cur_state(fixed_ty, fixed_at, done@),
            ),
        decreases n - i,
    {
        let ghost st = cur_state(fixed_ty, fixed_at, done@);
        let var = &s.variants[i];
        proof {
            assert(sv.variants[i as int] == s.variants@[i as int]@);
        }
        if !var.is_unit {
            proof {
                assert(step(sv, i as int, st) == Err::<RunState, Diag>(
                    Diag::NonUnitVariant { variant: i },
                ));
                assert(run_from(sv, i as int, st) == Err::<RunState, Diag>(
                    Diag::NonUnitVariant { variant: i },
                ));
                assert(resolve_spec(sv) == Err::<Option<ResolvedView>, Diag>(
                    Diag::NonUnitVariant { variant: i },
                ));
            }
            return Err(Diag::NonUnitVariant { variant: i });
        }
        let pr = pair_of(&var.attr, &var.ident, fixed_ty, i);
        match pr {
            Err(d) => {
                proof {
                    assert(step(sv, i as int, st) == Err::<RunState, Diag>(d));
                    assert(run_from(sv, i as int, st) == Err::<RunState, Diag>(d));
                    assert(resolve_spec(sv) == Err::<Option<ResolvedView>, Diag>(d));
                }
                return Err(d);
            },
            Ok((t, v)) => {
                let nft: LiteralType;
                let new_at: usize;
                match fixed_ty {
                    Some(ft) => {
                        if t != ft {
                            proof {
                                assert(step(sv, i as int, st) == Err::<RunState, Diag>(
                                    Diag::TypeMismatch { variant: i, first: fixed_at },
                                ));
                            }
                            return Err(Diag::TypeMismatch { variant: i, first: fixed_at });
                        }
                        nft = ft;
                        new_at = fixed_at;
                    },
                    None => {
                        nft = t;
                        new_at = i;
                    },
                }
                match find_first_in(&done, &v) {
                    Some(j) => {
                        proof {
                            assert(step(sv, i as int, st) == Err::<RunState, Diag>(
                                Diag::DuplicateLiteral { variant: i, first: j },
                            ));
                        }
                        return Err(Diag::DuplicateLiteral { variant: i, first: j });
                    },
                    None => {},
                }
                let ghost prev = done@;
                done.push(ResolvedVariant { ident: var.ident.clone(), value: v });
                fixed_ty = Some(nft);
                fixed_at = new_at;
                proof {
                    let st2 = cur_state(fixed_ty, fixed_at, done@);
                    assert(rv_views(done@) =~= rv_views(prev).push(
                        ResolvedVariantView { ident: sv.variants[i as int].ident, value: v@ },
                    ));
                    assert(step(sv, i as int, st) == Ok::<RunState, Diag>(st2));
                    assert(run_from(sv, i as int, st) == run_from(sv, i + 1, st2));
                }
                i += 1;
            },
        }
    }
    let ghost stf = cur_state(fixed_ty, fixed_at, done@);
    proof {
        assert(run_from(sv, n as int, stf) == Ok::<RunState, Diag>(stf));
    }
    match fixed_ty {
        None => Ok(None),
        Some(t) => {
            let r = Resolved { ident: s.ident.clone(), ty: t, variants: done };
            proof {
                assert(r@ == ResolvedView { ident: sv.ident, ty: t, variants: stf.done });
            }
            Ok(Some(r))
        },
    }
}

/// No two resolved variants share a value.
pub open spec fn distinct_values(done: Seq<ResolvedVariantView>) -> bool {
    forall|i: int, j: int|
        0 <= i < j < done.len() ==> done[i].value != done[j].value
}

/// Every resolved value belongs to one literal type.
pub open spec fn all_fit(done: Seq<ResolvedVariantView>, ty: LiteralType) -> bool {
    forall|i: int| 0 <= i < done.len() ==> fits(#[trigger] done[i].value, ty)
}

/// The resolver's state invariant: no type fixed only while nothing is
/// resolved, every resolved value of the fixed type, and no repeats.
pub open spec fn state_inv(st: RunState) -> bool {
    &&& match st.fixed {
        None => st.done.len() == 0,
        Some(f) => all_fit(st.done, f.ty),
    }
    &&& distinct_values(st.done)
}

/// What a successful run from index `i` guarantees: it keeps the prefix,
/// resolves every remaining variant under the one fixed type, infers the
/// default for every unannotated variant, takes every annotated variant's
/// literal verbatim, and preserves the state invariant.
pub proof fn lemma_run_ok(s: SchemaView, i: int, st: RunState)
    requires
        0 <= i <= s.variants.len(),
        st.done.len() == i,
        state_inv(st),
        run_from(s, i, st) is Ok,
    ensures
        ({
            let stf = run_from(s, i, st)->Ok_0;
            &&& stf.done.len() == s.variants.len()
            &&& forall|j: int| 0 <= j < i ==> stf.done[j] == st.done[j]
            &&& (i == s.variants.len() ==> stf == st)
            &&& (i < s.variants.len() ==> stf.fixed is Some)
            &&& (st.fixed is Some ==> stf.fixed == st.fixed)
            &&& state_inv(stf)
            &&& forall|k: int|
                i <= k < s.variants.len() ==> (#[trigger] stf.done[k]).ident
                    == s.variants[k].ident
            &&& forall|k: int|
                i <= k < s.variants.len() && (#[trigger] s.variants[k].attr) is Absent
                    ==> Some(stf.done[k].value) == default_value(
                    stf.fixed->Some_0.ty,
                    s.variants[k].ident,
                )
            &&& forall|k: int|
                i <= k < s.variants.len() && (#[trigger] s.variants[k].attr) is Lit
                    ==> stf.done[k].value == lit_value(s.variants[k].attr->Lit_0)
                    && lit_type(s.variants[k].attr->Lit_0) == Some(stf.fixed->Some_0.ty)
        }),
    decreases s.variants.len() - i,
{
    if i < s.variants.len() {
        let var = s.variants[i];
        let stp = step(s, i, st);
        assert(stp is Ok);
        let st2 = stp->Ok_0;
        let pr = resolved_pair(var.attr, var.ident, fixed_ty_of(st.fixed), i);
        assert(pr is Ok);
        let (t, v) = pr->Ok_0;
        assert(find_first(st.done, v) is None);
        lemma_find_first(st.done, v);
        assert(st2.done == st.done.push(ResolvedVariantView { ident: var.ident, value: v }));
        assert(st2.fixed is Some && st2.fixed->Some_0.ty == t);
        assert(fits(v, t)) by {
            match var.attr {
                AttrView::Lit(l) => {
                    lemma_lit_value_fits(l);
                },
                AttrView::Absent => {
                    match fixed_ty_of(st.fixed) {
                        None => {},
                        Some(ft) => {
                            lemma_default_value_fits(ft, var.ident);
                        },
                    }
                },
                AttrView::Malformed(_) => {},
            }
        }
        assert(state_inv(st2));
        lemma_run_ok(s, i + 1, st2);
        let stf = run_from(s, i, st)->Ok_0;
        assert(stf == run_from(s, i + 1, st2)->Ok_0);
        assert(stf.done[i] == st2.done[i]);
    }
}

/// On success the resolved schema has one resolved variant per schema
/// variant, under the schema's identifiers, every value of the one unified
/// type, and no two variants sharing a value.
pub proof fn lemma_resolved_invariants(s: SchemaView)
    requires
        resolve_spec(s) is Ok,
        resolve_spec(s)->Ok_0 is Some,
    ensures
        ({
            let r = resolve_spec(s)->Ok_0->Some_0;
            &&& r.variants.len() == s.variants.len()
            &&& distinct_values(r.variants)
            &&& all_fit(r.variants, r.ty)
            &&& forall|i: int|
                0 <= i < s.variants.len() ==> (#[trigger] r.variants[i]).ident
                    == s.variants[i].ident
        }),
{
    lemma_run_ok(s, 0, init_state());
}

/// A schema resolves to the empty outcome exactly when it declares no
/// generics and has no variants.
pub proof fn lemma_empty_schema(s: SchemaView)
    ensures
        (resolve_spec(s) == Ok::<Option<ResolvedView>, Diag>(None)) <==> (!s.has_generics
            && s.variants.len() == 0),
{
    if !s.has_generics && run_from(s, 0, init_state()) is Ok {
        lemma_run_ok(s, 0, init_state());
    }
}

/// Implicit chaining: on success, every unannotated variant's value is the
/// default derived from its identifier in the schema's unified type.
pub proof fn lemma_inferred_defaults(s: SchemaView, k: int)
    requires
        resolve_spec(s) is Ok,
        resolve_spec(s)->Ok_0 is Some,
        0 <= k < s.variants.len(),
        s.variants[k].attr is Absent,
    ensures
        ({
            let r = resolve_spec(s)->Ok_0->Some_0;
            Some(r.variants[k].value) == default_value(r.ty, s.variants[k].ident)
        }),
{
    lemma_run_ok(s, 0, init_state());
}

/// Single-character inference: when the unified type is the character
/// type, an unannotated variant only resolves if its identifier is exactly
/// one character long, and its value is that character.
pub proof fn lemma_char_default_single(s: SchemaView, k: int)
    requires
        resolve_spec(s) is Ok,
        resolve_spec(s)->Ok_0 is Some,
        resolve_spec(s)->Ok_0->Some_0.ty == LiteralType::Char,
        0 <= k < s.variants.len(),
        s.variants[k].attr is Absent,
    ensures
        s.variants[k].ident.len() == 1,
        resolve_spec(s)->Ok_0->Some_0.variants[k].value == ValueView::Char(
            s.variants[k].ident[0],
        ),
{
    lemma_inferred_defaults(s, k);
}

/// A failed run cites variants of the schema: the offending variant is
/// the one the run stopped at, and a diagnostic with two locations cites
/// an earlier variant as its first.
pub proof fn lemma_run_err_locations(s: SchemaView, i: int, st: RunState)
    requires
        0 <= i <= s.variants.len() <= usize::MAX,
        st.done.len() == i,
        match st.fixed {
            None => true,
            Some(f) => 0 <= f.at < i,
        },
        run_from(s, i, st) is Err,
    ensures
        match run_from(s, i, st)->Err_0 {
            Diag::GenericsForbidden => false,
            Diag::NonUnitVariant { variant } => i <= variant < s.variants.len(),
            Diag::MalformedAttr { variant, kind: _ } => i <= variant < s.variants.len(),
            Diag::UnsupportedLiteral { variant } => i <= variant < s.variants.len(),
            Diag::CannotInferLiteral { variant } => i <= variant < s.variants.len(),
            Diag::BadImplicitLiteral { variant } => i <= variant < s.variants.len(),
            Diag::TypeMismatch { variant, first } => first < variant && i <= variant
                < s.variants.len(),
            Diag::DuplicateLiteral { variant, first } => first < variant && i <= variant
                < s.variants.len(),
        },
    decreases s.variants.len() - i,
{
    let var = s.variants[i];
    let stp = step(s, i, st);
    match stp {
        Err(_) => {
            let v_res = resolved_pair(var.attr, var.ident, fixed_ty_of(st.fixed), i);
            if var.is_unit && v_res is Ok {
                let (t, v) = v_res->Ok_0;
                lemma_find_first(st.done, v);
            }
        },
        Ok(st2) => {
            lemma_run_err_locations(s, i + 1, st2);
        },
    }
}

/// Every diagnostic cites variants of the schema, and one that carries
/// two locations cites the earlier variant as its first.
pub proof fn lemma_diag_locations(s: SchemaView)
    requires
        s.variants.len() <= usize::MAX,
        resolve_spec(s) is Err,
    ensures
        match resolve_spec(s)->Err_0 {
            Diag::GenericsForbidden => s.has_generics,
            Diag::NonUnitVariant { variant } => variant < s.variants.len(),
            Diag::MalformedAttr { variant, kind: _ } => variant < s.variants.len(),
            Diag::UnsupportedLiteral { variant } => variant < s.variants.len(),
            Diag::CannotInferLiteral { variant } => variant < s.variants.len(),
            Diag::BadImplicitLiteral { variant } => variant < s.variants.len(),
            Diag::TypeMismatch { variant, first } => first < variant && variant
                < s.variants.len(),
            Diag::DuplicateLiteral { variant, first } => first < variant && variant
                < s.variants.len(),
        },
{
    if !s.has_generics {
        lemma_run_err_locations(s, 0, init_state());
    }
}

/// Uniqueness: a schema in which two variants carry annotations with the
/// same canonical value never resolves.
pub proof fn lemma_duplicate_rejected(s: SchemaView, i: int, j: int)
    requires
        0 <= i < j < s.variants.len(),
        s.variants[i].attr is Lit,
        s.variants[j].attr is Lit,
        lit_value(s.variants[i].attr->Lit_0) == lit_value(s.variants[j].attr->Lit_0),
    ensures
        resolve_spec(s) is Err,
{
    if resolve_spec(s) is Ok {
        lemma_empty_schema(s);
        assert(resolve_spec(s)->Ok_0 is Some);
        lemma_run_ok(s, 0, init_state());
    }
}

/// Type coherence: a schema in which two variants carry annotations of
/// different literal types never resolves.
pub proof fn lemma_mixed_types_rejected(s: SchemaView, i: int, j: int)
    requires
        0 <= i < s.variants.len(),
        0 <= j < s.variants.len(),
        i != j,
        s.variants[i].attr is Lit,
        s.variants[j].attr is Lit,
        lit_type(s.variants[i].attr->Lit_0) != lit_type(s.variants[j].attr->Lit_0),
    ensures
        resolve_spec(s) is Err,
{
    if resolve_spec(s) is Ok {
        lemma_empty_schema(s);
        assert(resolve_spec(s)->Ok_0 is Some);
        lemma_run_ok(s, 0, init_state());
    }
}

} // verus!
