//! The checker: it finds every `unify` call of a typed body and reports the
//! calls whose source and target units differ.
use vstd::prelude::*;
use crate::canonical::{lemma_canonical_text, unit_text};
use crate::classify::{
    classify, lemma_occurrences_within_size, type_size, unit_of, ClassifyError, HostType,
};
use crate::expr::normal_form;
use crate::normal::{normalize, same_unit};
use crate::render::describe;

verus! {

/// A region of source text.
#[derive(Clone, Copy, Debug, PartialEq, Eq, Structural)]
pub struct Span {
    pub lo: u64,
    pub hi: u64,
}

/// What an expression of a typed body is, as far as the checker cares.
#[derive(Debug)]
pub enum ExprKind {
    /// A method call: whether its resolved callee carries the unify marker,
    /// and the call's generic arguments (the value type, the source unit and
    /// the target unit, for a call of `unify`).
    MethodCall { callee_is_unify: bool, type_args: Vec<HostType> },
    /// Any other expression.
    Other,
}

/// An expression of a typed body, with its subexpressions.
#[derive(Debug)]
pub struct TypedExpr {
    pub span: Span,
    pub kind: ExprKind,
    pub children: Vec<TypedExpr>,
}

/// The typed body of one declaration, as the host type checker left it.
#[derive(Debug)]
pub struct TypedBody {
    /// The span of the declaration that owns the body.
    pub decl_span: Span,
    /// The body is a closure's: it belongs to its outermost function.
    pub is_closure: bool,
    /// The host type checker already found errors in the body.
    pub has_prior_errors: bool,
    pub root: TypedExpr,
}

/// A `unify` call whose two units differ.
#[derive(Debug)]
pub struct Mismatch {
    /// The call.
    pub span: Span,
    /// The declaration that holds the call.
    pub decl_span: Span,
    /// The text of the source unit.
    pub expected: String,
    /// The text of the target unit.
    pub found: String,
}

impl View for Mismatch {
    type V = (Span, Span, Seq<char>, Seq<char>);

    open spec fn view(&self) -> Self::V {
        (self.span, self.decl_span, self.expected@, self.found@)
    }
}

/// A `unify` call: its span and its generic arguments.
pub type Site = (Span, Seq<HostType>);

/// The `unify` call that `e` itself is, if it is one.
pub open spec fn own_site(e: TypedExpr) -> Seq<Site> {
    match e.kind {
        ExprKind::MethodCall { callee_is_unify, type_args } => if callee_is_unify {
            seq![(e.span, type_args@)]
        } else {
            seq![]
        },
        ExprKind::Other => seq![],
    }
}

/// The `unify` calls of `e`, in pre-order.
pub open spec fn sites(e: TypedExpr) -> Seq<Site>
    decreases e,
{
    own_site(e) + sites_in(e.children@)
}

/// The `unify` calls of a list of expressions, in order.
pub open spec fn sites_in(es: Seq<TypedExpr>) -> Seq<Site>
    decreases es,
{
    if es.len() == 0 {
        seq![]
    } else {
        sites_in(es.drop_last()) + sites(es.last())
    }
}

/// What one `unify` call comes to: `Ok(None)` where it is sound or is
/// skipped for an unresolved type, `Ok(Some((source text, target text)))`
/// where its units differ, and an error where a marker is misused.
pub open spec fn site_outcome(args: Seq<HostType>) -> Result<
    Option<(Seq<char>, Seq<char>)>,
    ClassifyError,
> {
    if args.len() < 3 {
        Err(ClassifyError::MarkerShapeViolation)
    } else {
        match unit_of(args[1]) {
            Err(ClassifyError::TypeUnresolved) => Ok(None),
            Err(err) => Err(err),
            Ok(source) => match unit_of(args[2]) {
                Err(ClassifyError::TypeUnresolved) => Ok(None),
                Err(err) => Err(err),
                Ok(target) => if normal_form(source) == normal_form(target) {
                    Ok(None)
                } else {
                    Ok(Some((unit_text(source), unit_text(target))))
                },
            },
        }
    }
}

/// The mismatches of a list of `unify` calls, in order, or the first marker
/// misuse met.
pub open spec fn outcomes(s: Seq<Site>, decl_span: Span) -> Result<
    Seq<(Span, Span, Seq<char>, Seq<char>)>,
    ClassifyError,
>
    decreases s.len(),
{
    if s.len() == 0 {
        Ok(seq![])
    } else {
        match outcomes(s.drop_last(), decl_span) {
            Err(err) => Err(err),
            Ok(found) => match site_outcome(s.last().1) {
                Err(err) => Err(err),
                Ok(None) => Ok(found),
                Ok(Some(texts)) => Ok(found.push((s.last().0, decl_span, texts.0, texts.1))),
            },
        }
    }
}

/// What the checker reports for a body: nothing for a closure's body or for
/// one with earlier type errors, else the outcomes of its `unify` calls.
pub open spec fn analysis(body: TypedBody) -> Result<
    Seq<(Span, Span, Seq<char>, Seq<char>)>,
    ClassifyError,
> {
    if body.has_prior_errors || body.is_closure {
        Ok(seq![])
    } else {
        outcomes(sites(body.root), body.decl_span)
    }
}

/// Every type that a list of `unify` calls names has fewer nodes than the
/// largest `i64`: no type held in memory has more.
pub open spec fn sizes_bounded(s: Seq<Site>) -> bool {
    forall|i: int, j: int|
        0 <= i < s.len() && 0 <= j < s[i].1.len() ==> type_size(#[trigger] s[i].1[j]) <= i64::MAX
}

/// The views of a list of mismatches.
pub open spec fn views(v: Seq<Mismatch>) -> Seq<(Span, Span, Seq<char>, Seq<char>)> {
    v.map_values(|m: Mismatch| m@)
}

/// Whether a result of the checker is the one that `expected` gives.
pub open spec fn reports(
    r: Result<Vec<Mismatch>, ClassifyError>,
    expected: Result<Seq<(Span, Span, Seq<char>, Seq<char>)>, ClassifyError>,
) -> bool {
    match r {
        Ok(v) => expected == Ok::<Seq<(Span, Span, Seq<char>, Seq<char>)>, ClassifyError>(
            views(v@),
        ),
        Err(err) => expected == Err::<Seq<(Span, Span, Seq<char>, Seq<char>)>, ClassifyError>(
            err,
        ),
    }
}

proof fn lemma_sites_in_concat(a: Seq<TypedExpr>, b: Seq<TypedExpr>)
    ensures
        sites_in(a + b) == sites_in(a) + sites_in(b),
    decreases b.len(),
{
    if b.len() == 0 {
        assert(a + b =~= a);
        assert(sites_in(a) + sites_in(b) =~= sites_in(a));
    } else {
        assert((a + b).drop_last() =~= a + b.drop_last());
        assert((a + b).last() == b.last());
        lemma_sites_in_concat(a, b.drop_last());
        assert(sites_in(a + b) =~= sites_in(a) + sites_in(b));
    }
}

/// Once a marker misuse is met, later calls change nothing.
proof fn lemma_outcomes_stop(p: Seq<Site>, q: Seq<Site>, decl_span: Span)
    requires
        outcomes(p, decl_span) is Err,
    ensures
        outcomes(p + q, decl_span) == outcomes(p, decl_span),
    decreases q.len(),
{
    if q.len() == 0 {
        assert(p + q =~= p);
    } else {
        assert((p + q).drop_last() =~= p + q.drop_last());
        lemma_outcomes_stop(p, q.drop_last(), decl_span);
    }
}

/// Checks one `unify` call with generic arguments `args`.
fn check_site(span: Span, args: &Vec<HostType>, decl_span: Span) -> (r: Result<
    Option<Mismatch>,
    ClassifyError,
>)
    requires
        forall|j: int| 0 <= j < args@.len() ==> type_size(#[trigger] args@[j]) <= i64::MAX,
    ensures
        match r {
            Err(err) => site_outcome(args@) == Err::<Option<(Seq<char>, Seq<char>)>, ClassifyError>(
                err,
            ),
            Ok(None) => site_outcome(args@) == Ok::<Option<(Seq<char>, Seq<char>)>, ClassifyError>(
                None,
            ),
            Ok(Some(m)) => m.span == span && m.decl_span == decl_span && site_outcome(args@) == Ok::<
                Option<(Seq<char>, Seq<char>)>,
                ClassifyError,
            >(Some((m.expected@, m.found@))),
        },
{
    if args.len() < 3 {
        return Err(ClassifyError::MarkerShapeViolation);
    }
    let source = match classify(&args[1]) {
        Ok(e) => e,
        Err(ClassifyError::TypeUnresolved) => {
            return Ok(None);
        },
        Err(err) => {
            return Err(err);
        },
    };
    let target = match classify(&args[2]) {
        Ok(e) => e,
        Err(ClassifyError::TypeUnresolved) => {
            return Ok(None);
        },
        Err(err) => {
            return Err(err);
        },
    };
    proof {
        lemma_occurrences_within_size(args@[1]);
        lemma_occurrences_within_size(args@[2]);
    }
    let source_form = normalize(&source);
    let target_form = normalize(&target);
    if same_unit(&source_form, &target_form) {
        Ok(None)
    } else {
        let expected = describe(&source_form);
        let found = describe(&target_form);
        proof {
            lemma_canonical_text(source_form.factors@, source);
            lemma_canonical_text(target_form.factors@, target);
        }
        Ok(Some(Mismatch { span, decl_span, expected, found }))
    }
}

/// Checks the `unify` calls of `e`, in pre-order, after those of `prefix`,
/// whose mismatches `out` holds.
fn gather(
    e: &TypedExpr,
    decl_span: Span,
    out: &mut Vec<Mismatch>,
    Ghost(prefix): Ghost<Seq<Site>>,
) -> (r: Result<(), ClassifyError>)
    requires
        outcomes(prefix, decl_span) == Ok::<Seq<(Span, Span, Seq<char>, Seq<char>)>, ClassifyError>(
            views(old(out)@),
        ),
        sizes_bounded(sites(*e)),
    ensures
        match r {
            Ok(()) => outcomes(prefix + sites(*e), decl_span) == Ok::<
                Seq<(Span, Span, Seq<char>, Seq<char>)>,
                ClassifyError,
            >(views(final(out)@)),
            Err(err) => outcomes(prefix + sites(*e), decl_span) == Err::<
                Seq<(Span, Span, Seq<char>, Seq<char>)>,
                ClassifyError,
            >(err),
        },
    decreases e,
{
    let ghost all = sites(*e);
    let ghost own = own_site(*e);
    let ghost rest = sites_in(e.children@);
    match &e.kind {
        ExprKind::MethodCall { callee_is_unify, type_args } => {
            if *callee_is_unify {
                proof {
                    assert(all[0] == (e.span, type_args@));
                    assert forall|j: int| 0 <= j < type_args@.len() implies type_size(
                        #[trigger] type_args@[j],
                    ) <= i64::MAX by {
                        assert(all[0].1[j] == type_args@[j]);
                    }
                    assert((prefix + own).drop_last() =~= prefix);
                    assert((prefix + own).last() == (e.span, type_args@));
                }
                let outcome = check_site(e.span, type_args, decl_span);
                match outcome {
                    Err(err) => {
                        proof {
                            lemma_outcomes_stop(prefix + own, rest, decl_span);
                            assert(prefix + own + rest =~= prefix + all);
                        }
                        return Err(err);
                    },
                    Ok(None) => {},
                    Ok(Some(m)) => {
                        out.push(m);
                        proof {
                            assert(views(out@) =~= views(old(out)@).push(m@));
                        }
                    },
                }
            }
        },
        ExprKind::Other => {},
    }
    let ghost mut done = prefix + own;
    let mut i: usize = 0;
    while i < e.children.len()
        invariant
            0 <= i <= e.children@.len(),
            all == sites(*e),
            own == own_site(*e),
            all == own + rest,
            rest == sites_in(e.children@),
            sizes_bounded(all),
            done == prefix + own + sites_in(e.children@.subrange(0, i as int)),
            outcomes(done, decl_span) == Ok::<Seq<(Span, Span, Seq<char>, Seq<char>)>, ClassifyError>(
                views(out@),
            ),
        decreases e.children@.len() - i,
    {
        let ghost child = e.children@[i as int];
        let ghost head = e.children@.subrange(0, i as int);
        let ghost tail = e.children@.subrange(i + 1, e.children@.len() as int);
        proof {
            assert(e.children@.subrange(0, i + 1).drop_last() =~= head);
            assert(e.children@.subrange(0, i + 1).last() == child);
            lemma_sites_in_concat(e.children@.subrange(0, i + 1), tail);
            assert(e.children@.subrange(0, i + 1) + tail =~= e.children@);
            let before = own + sites_in(head);
            assert(all =~= before + sites(child) + sites_in(tail));
            assert forall|a: int, j: int|
                0 <= a < sites(child).len() && 0 <= j < sites(child)[a].1.len() implies type_size(
                #[trigger] sites(child)[a].1[j],
            ) <= i64::MAX by {
                assert(all[before.len() + a] == sites(child)[a]);
            }
        }
        let r = gather(&e.children[i], decl_span, out, Ghost(done));
        proof {
            assert(done + sites(child) =~= prefix + own + sites_in(e.children@.subrange(0, i + 1)));
        }
        match r {
            Err(err) => {
                proof {
                    lemma_outcomes_stop(done + sites(child), sites_in(tail), decl_span);
                    assert(done + sites(child) + sites_in(tail) =~= prefix + all);
                }
                return Err(err);
            },
            Ok(()) => {},
        }
        proof {
            done = done + sites(child);
        }
        i = i + 1;
    }
    proof {
        assert(e.children@.subrange(0, e.children@.len() as int) =~= e.children@);
        assert(done =~= prefix + all);
    }
    Ok(())
}

/// The checker for one typed body.
pub struct DimAnalyzer {
    pub body: TypedBody,
}

impl DimAnalyzer {
    pub fn new(body: TypedBody) -> (r: DimAnalyzer)
        ensures
            r.body == body,
    {
        DimAnalyzer { body }
    }

    /// The mismatched `unify` calls of the body, in pre-order; nothing for a
    /// closure's body or for one with earlier type errors; an error where the
    /// unit library misuses a marker.
    pub fn analyze(&self) -> (r: Result<Vec<Mismatch>, ClassifyError>)
        requires
            sizes_bounded(sites(self.body.root)),
        ensures
            reports(r, analysis(self.body)),
    {
        let mut out: Vec<Mismatch> = Vec::new();
        if self.body.has_prior_errors || self.body.is_closure {
            proof {
                assert(views(out@) =~= Seq::empty());
            }
            return Ok(out);
        }
        proof {
            assert(views(out@) =~= Seq::empty());
            assert(Seq::<Site>::empty() + sites(self.body.root) =~= sites(self.body.root));
        }
        match gather(&self.body.root, self.body.decl_span, &mut out, Ghost(Seq::empty())) {
            Ok(()) => Ok(out),
            Err(err) => Err(err),
        }
    }
}

} // verus!
