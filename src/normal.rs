//! The normalizer: a unit expression becomes the list of its generators with
//! their nonzero signed exponents, ordered by generator key.
use vstd::prelude::*;
use crate::expr::{
    exponent, first_name, lemma_exponent_bounded, normal_form,
    occurrences, Generator, GeneratorKey, UnitExpr,
};

verus! {

/// The order in which the factors of a normalized form are kept: base units
/// first, each kind by its key's numbers.
pub open spec fn key_lt(a: GeneratorKey, b: GeneratorKey) -> bool {
    match (a, b) {
        (GeneratorKey::Base { decl: x }, GeneratorKey::Base { decl: y }) => x < y,
        (GeneratorKey::Base { .. }, GeneratorKey::Param { .. }) => true,
        (GeneratorKey::Param { .. }, GeneratorKey::Base { .. }) => false,
        (
            GeneratorKey::Param { owner: o1, index: i1 },
            GeneratorKey::Param { owner: o2, index: i2 },
        ) => o1 < o2 || (o1 == o2 && i1 < i2),
    }
}

/// `key_lt` is a strict total order.
pub proof fn lemma_key_order()
    ensures
        forall|a: GeneratorKey| !key_lt(a, a),
        forall|a: GeneratorKey, b: GeneratorKey| a != b ==> key_lt(a, b) || key_lt(b, a),
        forall|a: GeneratorKey, b: GeneratorKey, c: GeneratorKey|
            #[trigger] key_lt(a, b) && #[trigger] key_lt(b, c) ==> key_lt(a, c),
{
}

/// Decides `key_lt`.
pub fn key_less(a: &GeneratorKey, b: &GeneratorKey) -> (r: bool)
    ensures
        r == key_lt(*a, *b),
{
    match (a, b) {
        (GeneratorKey::Base { decl: x }, GeneratorKey::Base { decl: y }) => *x < *y,
        (GeneratorKey::Base { .. }, GeneratorKey::Param { .. }) => true,
        (GeneratorKey::Param { .. }, GeneratorKey::Base { .. }) => false,
        (
            GeneratorKey::Param { owner: o1, index: i1 },
            GeneratorKey::Param { owner: o2, index: i2 },
        ) => *o1 < *o2 || (*o1 == *o2 && *i1 < *i2),
    }
}

/// One generator of a normalized form with its exponent.
#[derive(Debug)]
pub struct Factor {
    pub generator: Generator,
    pub exponent: i64,
}

/// Whether some factor of `s` is for generator `k`.
pub open spec fn has_key(s: Seq<Factor>, k: GeneratorKey) -> bool {
    exists|i: int| 0 <= i < s.len() && (#[trigger] s[i]).generator.key == k
}

/// The factors' keys increase strictly, so that each generator appears once.
pub open spec fn sorted_keys(s: Seq<Factor>) -> bool {
    forall|i: int, j: int|
        0 <= i < j < s.len() ==> key_lt((#[trigger] s[i]).generator.key, (#[trigger] s[j]).generator.key)
}

/// The map from generator to exponent that a list of factors stands for.
pub open spec fn factors_map(s: Seq<Factor>) -> Map<GeneratorKey, int> {
    Map::new(
        |k: GeneratorKey| has_key(s, k),
        |k: GeneratorKey|
            s[choose|i: int| 0 <= i < s.len() && (#[trigger] s[i]).generator.key == k].exponent as int,
    )
}

/// `s` is the canonical list of factors of the map `m`: keys in order, one
/// factor for each generator of `m`, with its exponent, and no other.
pub open spec fn represents(s: Seq<Factor>, m: Map<GeneratorKey, int>) -> bool {
    &&& sorted_keys(s)
    &&& forall|i: int|
        0 <= i < s.len() ==> m.contains_key((#[trigger] s[i]).generator.key) && m[s[i].generator.key]
            == s[i].exponent as int
    &&& forall|k: GeneratorKey| #[trigger] m.contains_key(k) ==> has_key(s, k)
}

/// A unit in normalized form: an element of the free abelian group over
/// generators.
#[derive(Debug)]
pub struct NormalForm {
    pub factors: Vec<Factor>,
}

impl NormalForm {
    pub open spec fn view(&self) -> Map<GeneratorKey, int> {
        factors_map(self.factors@)
    }

    /// Keys in order and no zero exponent.
    pub open spec fn wf(&self) -> bool {
        &&& sorted_keys(self.factors@)
        &&& forall|i: int| 0 <= i < self.factors@.len() ==> (#[trigger] self.factors@[i]).exponent != 0
    }
}

/// Where the keys are unique, the map that factors stand for gives each
/// factor's exponent.
pub proof fn lemma_factors_map_at(s: Seq<Factor>, i: int)
    requires
        sorted_keys(s),
        0 <= i < s.len(),
    ensures
        factors_map(s).contains_key(s[i].generator.key),
        factors_map(s)[s[i].generator.key] == s[i].exponent as int,
{
    lemma_key_order();
    let k = s[i].generator.key;
    assert(has_key(s, k));
    let j = choose|j: int| 0 <= j < s.len() && (#[trigger] s[j]).generator.key == k;
    if j < i {
        assert(key_lt(s[j].generator.key, s[i].generator.key));
    } else if i < j {
        assert(key_lt(s[i].generator.key, s[j].generator.key));
    }
}

/// A canonical list of factors of `m` stands for `m`.
pub proof fn lemma_represents_view(s: Seq<Factor>, m: Map<GeneratorKey, int>)
    requires
        represents(s, m),
    ensures
        factors_map(s) == m,
{
    assert forall|k: GeneratorKey| #[trigger] factors_map(s).contains_key(k) implies m.contains_key(
        k,
    ) && m[k] == factors_map(s)[k] by {
        let i = choose|i: int| 0 <= i < s.len() && (#[trigger] s[i]).generator.key == k;
        lemma_factors_map_at(s, i);
    }
    assert(factors_map(s) =~= m);
}

/// `s` records, in key order, the exponents `f` and the names `n` of the
/// generators met so far: one factor for each generator that has a name.
pub open spec fn tracks(
    s: Seq<Factor>,
    f: spec_fn(GeneratorKey) -> int,
    n: spec_fn(GeneratorKey) -> Option<Seq<char>>,
) -> bool {
    &&& sorted_keys(s)
    &&& forall|i: int|
        0 <= i < s.len() ==> (#[trigger] s[i]).exponent as int == f(s[i].generator.key) && n(
            s[i].generator.key,
        ) == Some(s[i].generator.name@)
    &&& forall|k: GeneratorKey| (#[trigger] n(k)).is_some() ==> has_key(s, k)
    &&& forall|k: GeneratorKey| #[trigger] f(k) != 0 ==> n(k).is_some()
}

/// The exponent of `k` in `e`, negated where `positive` is false.
pub open spec fn signed_exponent(e: UnitExpr, k: GeneratorKey, positive: bool) -> int {
    if positive { exponent(e, k) } else { -exponent(e, k) }
}

/// The exponents `f` after meeting `e` under the sign `positive`.
pub open spec fn shifted(f: spec_fn(GeneratorKey) -> int, e: UnitExpr, positive: bool) -> spec_fn(
    GeneratorKey,
) -> int {
    |k: GeneratorKey| f(k) + signed_exponent(e, k, positive)
}

/// The names `n` after meeting `e`: a generator keeps the first name met.
pub open spec fn named(
    n: spec_fn(GeneratorKey) -> Option<Seq<char>>,
    e: UnitExpr,
) -> spec_fn(GeneratorKey) -> Option<Seq<char>> {
    |k: GeneratorKey|
        match n(k) {
            Some(x) => Some(x),
            None => first_name(e, k),
        }
}

proof fn lemma_tracks_ext(
    s: Seq<Factor>,
    f1: spec_fn(GeneratorKey) -> int,
    n1: spec_fn(GeneratorKey) -> Option<Seq<char>>,
    f2: spec_fn(GeneratorKey) -> int,
    n2: spec_fn(GeneratorKey) -> Option<Seq<char>>,
)
    requires
        tracks(s, f1, n1),
        forall|k: GeneratorKey| #![trigger f2(k)] #![trigger n2(k)] f1(k) == f2(k) && n1(k) == n2(k),
    ensures
        tracks(s, f2, n2),
{
    assert forall|k: GeneratorKey| (#[trigger] n2(k)).is_some() implies has_key(s, k) by {
        assert(n1(k).is_some());
    }
    assert forall|k: GeneratorKey| #[trigger] f2(k) != 0 implies n2(k).is_some() by {
        assert(f1(k) != 0);
    }
}

/// Adds one occurrence of `g`, under the sign `positive`, to the factors.
fn add_occurrence(
    acc: &mut Vec<Factor>,
    g: &Generator,
    positive: bool,
    Ghost(f): Ghost<spec_fn(GeneratorKey) -> int>,
    Ghost(n): Ghost<spec_fn(GeneratorKey) -> Option<Seq<char>>>,
)
    requires
        tracks(old(acc)@, f, n),
        -(i64::MAX as int) < f(g.key) < i64::MAX,
    ensures
        tracks(
            final(acc)@,
            shifted(f, UnitExpr::Generator(*g), positive),
            named(n, UnitExpr::Generator(*g)),
        ),
{
    let ghost s0 = acc@;
    let ghost e = UnitExpr::Generator(*g);
    let ghost f2 = shifted(f, e, positive);
    let ghost n2 = named(n, e);
    proof {
        lemma_key_order();
    }
    let mut i: usize = 0;
    while i < acc.len() && key_less(&acc[i].generator.key, &g.key)
        invariant
            0 <= i <= acc.len(),
            acc@ == s0,
            forall|j: int| 0 <= j < i ==> key_lt((#[trigger] s0[j]).generator.key, g.key),
        decreases acc.len() - i,
    {
        i = i + 1;
    }
    let delta: i64 = if positive { 1 } else { -1 };
    if i < acc.len() && acc[i].generator.key == g.key {
        let cur = acc[i].exponent;
        acc[i].exponent = cur + delta;
        proof {
            let s1 = acc@;
            assert forall|j: int| 0 <= j < s1.len() implies (#[trigger] s1[j]).exponent as int == f2(
                s1[j].generator.key,
            ) && n2(s1[j].generator.key) == Some(s1[j].generator.name@) by {
                if j != i {
                    assert(s1[j] == s0[j]);
                    if j < i {
                        assert(key_lt(s0[j].generator.key, s0[i as int].generator.key));
                    } else {
                        assert(key_lt(s0[i as int].generator.key, s0[j].generator.key));
                    }
                }
            }
            assert forall|k: GeneratorKey| (#[trigger] n2(k)).is_some() implies has_key(s1, k) by {
                if n(k).is_some() {
                    let j = choose|j: int| 0 <= j < s0.len() && (#[trigger] s0[j]).generator.key == k;
                    assert(s1[j].generator.key == k);
                } else {
                    assert(s1[i as int].generator.key == k);
                }
            }
            assert forall|k: GeneratorKey| #[trigger] f2(k) != 0 implies n2(k).is_some() by {
                if k != g.key {
                    assert(f(k) != 0);
                }
            }
        }
    } else {
        proof {
            if n(g.key).is_some() {
                let j = choose|j: int| 0 <= j < s0.len() && (#[trigger] s0[j]).generator.key == g.key;
                if i < j {
                    assert(key_lt(s0[i as int].generator.key, s0[j].generator.key));
                }
                assert(false);
            }
        }
        acc.insert(i, Factor { generator: g.duplicate(), exponent: delta });
        proof {
            let s1 = acc@;
            assert forall|a: int, b: int| 0 <= a < b < s1.len() implies key_lt(
                (#[trigger] s1[a]).generator.key,
                (#[trigger] s1[b]).generator.key,
            ) by {
                if b < i {
                } else if b == i {
                } else if a < i {
                    assert(s1[b] == s0[b - 1]);
                    if b - 1 > i {
                        assert(key_lt(s0[i as int].generator.key, s0[b - 1].generator.key));
                    }
                } else if a == i {
                    assert(s1[b] == s0[b - 1]);
                    if b - 1 > i {
                        assert(key_lt(s0[i as int].generator.key, s0[b - 1].generator.key));
                    }
                } else {
                    assert(s1[a] == s0[a - 1]);
                    assert(s1[b] == s0[b - 1]);
                }
            }
            assert forall|j: int| 0 <= j < s1.len() implies (#[trigger] s1[j]).exponent as int == f2(
                s1[j].generator.key,
            ) && n2(s1[j].generator.key) == Some(s1[j].generator.name@) by {
                if j < i {
                    assert(s1[j] == s0[j]);
                } else if j > i {
                    assert(s1[j] == s0[j - 1]);
                    if j - 1 > i {
                        assert(key_lt(s0[i as int].generator.key, s0[j - 1].generator.key));
                    }
                }
            }
            assert forall|k: GeneratorKey| (#[trigger] n2(k)).is_some() implies has_key(s1, k) by {
                if n(k).is_some() {
                    let j = choose|j: int| 0 <= j < s0.len() && (#[trigger] s0[j]).generator.key == k;
                    if j < i {
                        assert(s1[j] == s0[j]);
                    } else {
                        assert(s1[j + 1] == s0[j]);
                    }
                } else {
                    assert(s1[i as int].generator.key == k);
                }
            }
            assert forall|k: GeneratorKey| #[trigger] f2(k) != 0 implies n2(k).is_some() by {
                if k != g.key {
                    assert(f(k) != 0);
                }
            }
        }
    }
}

/// Adds the generators of `e`, under the sign `positive`, to the factors.
fn accumulate(
    acc: &mut Vec<Factor>,
    e: &UnitExpr,
    positive: bool,
    Ghost(f): Ghost<spec_fn(GeneratorKey) -> int>,
    Ghost(n): Ghost<spec_fn(GeneratorKey) -> Option<Seq<char>>>,
)
    requires
        tracks(old(acc)@, f, n),
        forall|k: GeneratorKey|
            -(i64::MAX as int) <= #[trigger] f(k) - occurrences(*e) && f(k) + occurrences(*e)
                <= i64::MAX,
    ensures
        tracks(final(acc)@, shifted(f, *e, positive), named(n, *e)),
    decreases e,
{
    match e {
        UnitExpr::Identity => {
            proof {
                lemma_tracks_ext(acc@, f, n, shifted(f, *e, positive), named(n, *e));
            }
        },
        UnitExpr::Generator(g) => {
            add_occurrence(acc, g, positive, Ghost(f), Ghost(n));
        },
        UnitExpr::Product(a, b) => {
            let ghost f1 = shifted(f, **a, positive);
            let ghost n1 = named(n, **a);
            proof {
                assert forall|k: GeneratorKey|
                    -(i64::MAX as int) <= #[trigger] f(k) - occurrences(**a) && f(k) + occurrences(
                        **a,
                    ) <= i64::MAX by {
                    assert(-(i64::MAX as int) <= f(k) - occurrences(*e));
                }
            }
            accumulate(acc, a, positive, Ghost(f), Ghost(n));
            proof {
                assert forall|k: GeneratorKey|
                    -(i64::MAX as int) <= #[trigger] f1(k) - occurrences(**b) && f1(k)
                        + occurrences(**b) <= i64::MAX by {
                    assert(-(i64::MAX as int) <= f(k) - occurrences(*e));
                    lemma_exponent_bounded(**a, k);
                }
            }
            accumulate(acc, b, positive, Ghost(f1), Ghost(n1));
            proof {
                lemma_tracks_ext(
                    acc@,
                    shifted(f1, **b, positive),
                    named(n1, **b),
                    shifted(f, *e, positive),
                    named(n, *e),
                );
            }
        },
        UnitExpr::Inverse(a) => {
            proof {
                assert forall|k: GeneratorKey|
                    -(i64::MAX as int) <= #[trigger] f(k) - occurrences(**a) && f(k) + occurrences(
                        **a,
                    ) <= i64::MAX by {
                    assert(-(i64::MAX as int) <= f(k) - occurrences(*e));
                }
            }
            accumulate(acc, a, !positive, Ghost(f), Ghost(n));
            proof {
                lemma_tracks_ext(
                    acc@,
                    shifted(f, **a, !positive),
                    named(n, **a),
                    shifted(f, *e, positive),
                    named(n, *e),
                );
            }
        },
    }
}

/// The normalized form of `e`: its generators with nonzero exponents, in key
/// order, each with the name of its leftmost occurrence.
pub fn normalize(e: &UnitExpr) -> (r: NormalForm)
    requires
        occurrences(*e) <= i64::MAX,
    ensures
        r.wf(),
        represents(r.factors@, normal_form(*e)),
        r@ == normal_form(*e),
        forall|i: int|
            0 <= i < r.factors@.len() ==> first_name(*e, (#[trigger] r.factors@[i]).generator.key)
                == Some(r.factors@[i].generator.name@),
{
    let mut acc: Vec<Factor> = Vec::new();
    let ghost f0 = |k: GeneratorKey| 0int;
    let ghost n0 = |k: GeneratorKey| None::<Seq<char>>;
    accumulate(&mut acc, e, true, Ghost(f0), Ghost(n0));
    let ghost f = shifted(f0, *e, true);
    let ghost n = named(n0, *e);
    let mut out: Vec<Factor> = Vec::new();
    let mut i: usize = 0;
    while i < acc.len()
        invariant
            0 <= i <= acc.len(),
            tracks(acc@, f, n),
            sorted_keys(out@),
            forall|j: int|
                0 <= j < out@.len() ==> exists|m: int|
                    0 <= m < i && #[trigger] out@[j] == #[trigger] acc@[m],
            forall|j: int| 0 <= j < out@.len() ==> (#[trigger] out@[j]).exponent != 0,
            forall|m: int|
                0 <= m < i && (#[trigger] acc@[m]).exponent != 0 ==> has_key(
                    out@,
                    acc@[m].generator.key,
                ),
        decreases acc.len() - i,
    {
        if acc[i].exponent != 0 {
            let factor = Factor { generator: acc[i].generator.duplicate(), exponent: acc[i].exponent };
            proof {
                assert forall|j: int| 0 <= j < out@.len() implies key_lt(
                    (#[trigger] out@[j]).generator.key,
                    factor.generator.key,
                ) by {
                    let m = choose|m: int| 0 <= m < i && #[trigger] out@[j] == #[trigger] acc@[m];
                }
            }
            let ghost out0 = out@;
            out.push(factor);
            proof {
                assert(out@[out@.len() - 1] == acc@[i as int]);
                assert forall|m: int|
                    0 <= m <= i && (#[trigger] acc@[m]).exponent != 0 implies has_key(
                    out@,
                    acc@[m].generator.key,
                ) by {
                    if m < i {
                        let j = choose|j: int|
                            0 <= j < out0.len() && (#[trigger] out0[j]).generator.key
                                == acc@[m].generator.key;
                        assert(out@[j] == out0[j]);
                    } else {
                        assert(out@[out@.len() - 1].generator.key == acc@[m].generator.key);
                    }
                }
            }
        }
        i = i + 1;
    }
    let r = NormalForm { factors: out };
    proof {
        let m = normal_form(*e);
        assert forall|j: int| 0 <= j < out@.len() implies m.contains_key(
            (#[trigger] out@[j]).generator.key,
        ) && m[out@[j].generator.key] == out@[j].exponent as int && first_name(
            *e,
            out@[j].generator.key,
        ) == Some(out@[j].generator.name@) by {
            let mm = choose|mm: int| 0 <= mm < i && #[trigger] out@[j] == #[trigger] acc@[mm];
        }
        assert forall|k: GeneratorKey| #[trigger] m.contains_key(k) implies has_key(out@, k) by {
            assert(f(k) != 0);
            assert(n(k).is_some());
            let mm = choose|mm: int| 0 <= mm < acc@.len() && (#[trigger] acc@[mm]).generator.key == k;
        }
        lemma_represents_view(out@, m);
    }
    r
}

/// The position of the factor for generator `k`, if there is one.
pub fn find_factor(s: &Vec<Factor>, k: &GeneratorKey) -> (r: Option<usize>)
    ensures
        match r {
            Some(i) => i < s@.len() && s@[i as int].generator.key == *k,
            None => !has_key(s@, *k),
        },
{
    let mut i: usize = 0;
    while i < s.len()
        invariant
            0 <= i <= s@.len(),
            forall|j: int| 0 <= j < i ==> (#[trigger] s@[j]).generator.key != *k,
        decreases s@.len() - i,
    {
        if s[i].generator.key == *k {
            return Some(i);
        }
        i = i + 1;
    }
    None
}

/// Whether every factor of `a` stands in `b` with the same exponent.
fn factors_within(a: &NormalForm, b: &NormalForm) -> (r: bool)
    requires
        b.wf(),
    ensures
        r == forall|i: int|
            0 <= i < a.factors@.len() ==> b@.contains_key((#[trigger] a.factors@[i]).generator.key)
                && b@[a.factors@[i].generator.key] == a.factors@[i].exponent as int,
{
    let mut i: usize = 0;
    while i < a.factors.len()
        invariant
            b.wf(),
            0 <= i <= a.factors@.len(),
            forall|j: int|
                0 <= j < i ==> b@.contains_key((#[trigger] a.factors@[j]).generator.key)
                    && b@[a.factors@[j].generator.key] == a.factors@[j].exponent as int,
        decreases a.factors@.len() - i,
    {
        match find_factor(&b.factors, &a.factors[i].generator.key) {
            Some(p) => {
                proof {
                    lemma_factors_map_at(b.factors@, p as int);
                }
                if b.factors[p].exponent != a.factors[i].exponent {
                    return false;
                }
            },
            None => {
                return false;
            },
        }
        i = i + 1;
    }
    true
}

/// Whether two normalized forms are the same unit: the same generators with
/// the same exponents.
pub fn same_unit(a: &NormalForm, b: &NormalForm) -> (r: bool)
    requires
        a.wf(),
        b.wf(),
    ensures
        r == (a@ == b@),
{
    let ab = factors_within(a, b);
    let ba = factors_within(b, a);
    proof {
        if ab && ba {
            assert forall|k: GeneratorKey| #[trigger] a@.contains_key(k) implies b@.contains_key(k)
                && a@[k] == b@[k] by {
                let i = choose|i: int|
                    0 <= i < a.factors@.len() && (#[trigger] a.factors@[i]).generator.key == k;
                lemma_factors_map_at(a.factors@, i);
            }
            assert forall|k: GeneratorKey| #[trigger] b@.contains_key(k) implies a@.contains_key(
                k,
            ) by {
                let i = choose|i: int|
                    0 <= i < b.factors@.len() && (#[trigger] b.factors@[i]).generator.key == k;
            }
            assert(a@ =~= b@);
        } else if !ab {
            let i = choose|i: int|
                0 <= i < a.factors@.len() && !(b@.contains_key(
                    (#[trigger] a.factors@[i]).generator.key,
                ) && b@[a.factors@[i].generator.key] == a.factors@[i].exponent as int);
            lemma_factors_map_at(a.factors@, i);
        } else {
            let i = choose|i: int|
                0 <= i < b.factors@.len() && !(a@.contains_key(
                    (#[trigger] b.factors@[i]).generator.key,
                ) && a@[b.factors@[i].generator.key] == b.factors@[i].exponent as int);
            lemma_factors_map_at(b.factors@, i);
        }
    }
    ab && ba
}

} // verus!
