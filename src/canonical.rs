//! The normalized form of a unit expression is unique, and so is its text.
use vstd::prelude::*;
use crate::expr::{first_name, normal_form, UnitExpr};
use crate::normal::{has_key, key_lt, lemma_key_order, represents, sorted_keys, Factor};
use crate::render::{factor_text, in_part, part_texts, rendered};

verus! {

/// `s` is the normalized form of `e`: its factors in key order, with their
/// exponents, each named as its leftmost occurrence in `e`.
pub open spec fn canonical_for(s: Seq<Factor>, e: UnitExpr) -> bool {
    &&& represents(s, normal_form(e))
    &&& forall|i: int|
        0 <= i < s.len() ==> first_name(e, (#[trigger] s[i]).generator.key) == Some(
            s[i].generator.name@,
        )
}

/// The text of the normalized form of `e`.
pub open spec fn unit_text(e: UnitExpr) -> Seq<char> {
    rendered(choose|s: Seq<Factor>| canonical_for(s, e))
}

/// Two lists in key order with the same keys hold them at the same places.
pub proof fn lemma_same_keys(s: Seq<Factor>, t: Seq<Factor>)
    requires
        sorted_keys(s),
        sorted_keys(t),
        forall|k| has_key(s, k) == has_key(t, k),
    ensures
        s.len() == t.len(),
        forall|i: int| 0 <= i < s.len() ==> (#[trigger] s[i]).generator.key == t[i].generator.key,
    decreases s.len() + t.len(),
{
    lemma_key_order();
    if s.len() == 0 {
        if t.len() > 0 {
            assert(has_key(t, t[0].generator.key));
        }
    } else if t.len() == 0 {
        assert(has_key(s, s[0].generator.key));
    } else {
        let ls = (s.len() - 1) as int;
        let lt = (t.len() - 1) as int;
        let ks = s[ls].generator.key;
        let kt = t[lt].generator.key;
        if ks != kt {
            if key_lt(ks, kt) {
                assert(has_key(t, kt));
                let i = choose|i: int| 0 <= i < s.len() && (#[trigger] s[i]).generator.key == kt;
                if i < ls {
                    assert(key_lt(s[i].generator.key, s[ls].generator.key));
                }
            } else {
                assert(has_key(s, ks));
                let j = choose|j: int| 0 <= j < t.len() && (#[trigger] t[j]).generator.key == ks;
                if j < lt {
                    assert(key_lt(t[j].generator.key, t[lt].generator.key));
                }
            }
        }
        let s1 = s.drop_last();
        let t1 = t.drop_last();
        assert forall|k| has_key(s1, k) == has_key(t1, k) by {
            if has_key(s1, k) {
                let i = choose|i: int| 0 <= i < s1.len() && (#[trigger] s1[i]).generator.key == k;
                assert(s[i] == s1[i]);
                assert(key_lt(s[i].generator.key, s[ls].generator.key));
                assert(has_key(s, k));
                let j = choose|j: int| 0 <= j < t.len() && (#[trigger] t[j]).generator.key == k;
                assert(j != lt);
                assert(t1[j] == t[j]);
            }
            if has_key(t1, k) {
                let j = choose|j: int| 0 <= j < t1.len() && (#[trigger] t1[j]).generator.key == k;
                assert(t[j] == t1[j]);
                assert(key_lt(t[j].generator.key, t[lt].generator.key));
                assert(has_key(t, k));
                let i = choose|i: int| 0 <= i < s.len() && (#[trigger] s[i]).generator.key == k;
                assert(i != ls);
                assert(s1[i] == s[i]);
            }
        }
        lemma_same_keys(s1, t1);
        assert forall|i: int| 0 <= i < s.len() implies (#[trigger] s[i]).generator.key
            == t[i].generator.key by {
            if i < ls {
                assert(s[i] == s1[i]);
                assert(t[i] == t1[i]);
            }
        }
    }
}

/// The texts of one sign depend on each factor's text alone.
proof fn lemma_parts_agree(s: Seq<Factor>, t: Seq<Factor>, positive: bool)
    requires
        s.len() == t.len(),
        forall|i: int|
            0 <= i < s.len() ==> factor_text(#[trigger] s[i]) == factor_text(t[i]) && in_part(
                s[i],
                positive,
            ) == in_part(t[i], positive),
    ensures
        part_texts(s, positive) == part_texts(t, positive),
    decreases s.len(),
{
    if s.len() > 0 {
        let s1 = s.drop_last();
        let t1 = t.drop_last();
        assert forall|i: int|
            0 <= i < s1.len() implies factor_text(#[trigger] s1[i]) == factor_text(t1[i]) && in_part(
            s1[i],
            positive,
        ) == in_part(t1[i], positive) by {
            assert(s1[i] == s[i]);
            assert(t1[i] == t[i]);
        }
        lemma_parts_agree(s1, t1, positive);
        assert(s.last() == s[s.len() - 1]);
        assert(t.last() == t[t.len() - 1]);
    }
}

/// Any normalized form of `e` has the text `unit_text(e)`.
pub proof fn lemma_canonical_text(s: Seq<Factor>, e: UnitExpr)
    requires
        canonical_for(s, e),
    ensures
        rendered(s) == unit_text(e),
{
    let t = choose|t: Seq<Factor>| canonical_for(t, e);
    assert(canonical_for(t, e));
    let m = normal_form(e);
    assert forall|k| has_key(s, k) == has_key(t, k) by {
        if has_key(s, k) {
            let i = choose|i: int| 0 <= i < s.len() && (#[trigger] s[i]).generator.key == k;
            assert(m.contains_key(k));
        }
        if has_key(t, k) {
            let i = choose|i: int| 0 <= i < t.len() && (#[trigger] t[i]).generator.key == k;
            assert(m.contains_key(k));
        }
    }
    lemma_same_keys(s, t);
    assert forall|i: int|
        0 <= i < s.len() implies factor_text(#[trigger] s[i]) == factor_text(t[i]) && in_part(
        s[i],
        true,
    ) == in_part(t[i], true) && in_part(s[i], false) == in_part(t[i], false) by {
        assert(s[i].generator.key == t[i].generator.key);
        assert(m[s[i].generator.key] == s[i].exponent as int);
        assert(m[t[i].generator.key] == t[i].exponent as int);
        assert(first_name(e, s[i].generator.key) == Some(s[i].generator.name@));
        assert(first_name(e, t[i].generator.key) == Some(t[i].generator.name@));
    }
    lemma_parts_agree(s, t, true);
    lemma_parts_agree(s, t, false);
}

} // verus!
