//! The text of a normalized form, as diagnostics show it: the factors with a
//! positive exponent, then those with a negative one, joined by `" * "`; a
//! factor reads `name` where its exponent is 1 and `name^exponent` elsewhere.
use vstd::prelude::*;
use vstd::string::StringExecFns;
use crate::normal::{Factor, NormalForm};

verus! {

/// The character of a decimal digit.
pub open spec fn digit_char(d: nat) -> char {
    if d == 0 { '0' }
    else if d == 1 { '1' }
    else if d == 2 { '2' }
    else if d == 3 { '3' }
    else if d == 4 { '4' }
    else if d == 5 { '5' }
    else if d == 6 { '6' }
    else if d == 7 { '7' }
    else if d == 8 { '8' }
    else { '9' }
}

/// The decimal digits of `n`, without leading zeros.
pub open spec fn decimal(n: nat) -> Seq<char>
    decreases n,
{
    if n < 10 {
        seq![digit_char(n)]
    } else {
        decimal(n / 10).push(digit_char(n % 10))
    }
}

/// The decimal text of an integer, with a leading `-` where it is negative.
pub open spec fn int_text(x: int) -> Seq<char> {
    if x < 0 {
        seq!['-'] + decimal((-x) as nat)
    } else {
        decimal(x as nat)
    }
}

/// The text of a name raised to an exponent.
pub open spec fn term_text(name: Seq<char>, exponent: int) -> Seq<char> {
    if exponent == 1 {
        name
    } else {
        name + seq!['^'] + int_text(exponent)
    }
}

/// The text of one factor.
pub open spec fn factor_text(f: Factor) -> Seq<char> {
    term_text(f.generator.name@, f.exponent as int)
}

/// Whether a factor goes in the positive part (or else in the negative part).
pub open spec fn in_part(f: Factor, positive: bool) -> bool {
    if positive { f.exponent > 0 } else { f.exponent < 0 }
}

/// The texts of the factors of `s` of one sign, in their order in `s`.
pub open spec fn part_texts(s: Seq<Factor>, positive: bool) -> Seq<Seq<char>>
    decreases s.len(),
{
    if s.len() == 0 {
        seq![]
    } else if in_part(s.last(), positive) {
        part_texts(s.drop_last(), positive).push(factor_text(s.last()))
    } else {
        part_texts(s.drop_last(), positive)
    }
}

/// The separator between factors.
pub open spec fn separator() -> Seq<char> {
    seq![' ', '*', ' ']
}

/// The texts of `parts`, with the separator between each two.
pub open spec fn joined(parts: Seq<Seq<char>>) -> Seq<char>
    decreases parts.len(),
{
    if parts.len() == 0 {
        seq![]
    } else if parts.len() == 1 {
        parts[0]
    } else {
        joined(parts.drop_last()) + separator() + parts.last()
    }
}

/// The text of a list of factors: positives first, then negatives.
pub open spec fn rendered(s: Seq<Factor>) -> Seq<char> {
    joined(part_texts(s, true) + part_texts(s, false))
}

fn digit_text(d: u64) -> (r: &'static str)
    requires
        d < 10,
    ensures
        r@ == seq![digit_char(d as nat)],
{
    proof {
        reveal_strlit("0");
        reveal_strlit("1");
        reveal_strlit("2");
        reveal_strlit("3");
        reveal_strlit("4");
        reveal_strlit("5");
        reveal_strlit("6");
        reveal_strlit("7");
        reveal_strlit("8");
        reveal_strlit("9");
    }
    if d == 0 { "0" }
    else if d == 1 { "1" }
    else if d == 2 { "2" }
    else if d == 3 { "3" }
    else if d == 4 { "4" }
    else if d == 5 { "5" }
    else if d == 6 { "6" }
    else if d == 7 { "7" }
    else if d == 8 { "8" }
    else { "9" }
}

/// Appends the decimal digits of `n` to `out`.
fn push_decimal(out: &mut String, n: u64)
    ensures
        final(out)@ == old(out)@ + decimal(n as nat),
    decreases n,
{
    if n < 10 {
        out.append(digit_text(n));
    } else {
        push_decimal(out, n / 10);
        out.append(digit_text(n % 10));
        proof {
            assert(decimal(n as nat) == decimal((n / 10) as nat).push(digit_char((n % 10) as nat)));
        }
    }
}

/// Appends the decimal text of `x` to `out`.
fn push_int(out: &mut String, x: i64)
    ensures
        final(out)@ == old(out)@ + int_text(x as int),
{
    if x < 0 {
        proof {
            reveal_strlit("-");
        }
        out.append("-");
        let mag: u64 = (0 - (x as i128)) as u64;
        push_decimal(out, mag);
    } else {
        push_decimal(out, x as u64);
    }
}

/// Appends the text of `name` raised to `exponent` to `out`.
pub(crate) fn push_term(out: &mut String, name: &str, exponent: i64)
    ensures
        final(out)@ == old(out)@ + term_text(name@, exponent as int),
{
    out.append(name);
    if exponent != 1 {
        proof {
            reveal_strlit("^");
        }
        out.append("^");
        push_int(out, exponent);
    }
}

/// Appends the texts of the factors of one sign, each after a separator
/// unless nothing came before it.
fn push_part(
    out: &mut String,
    s: &Vec<Factor>,
    positive: bool,
    started: bool,
    Ghost(before): Ghost<Seq<Seq<char>>>,
) -> (r: bool)
    requires
        old(out)@ == joined(before),
        started == (before.len() > 0),
    ensures
        final(out)@ == joined(before + part_texts(s@, positive)),
        r == ((before + part_texts(s@, positive)).len() > 0),
{
    let mut started = started;
    let mut i: usize = 0;
    while i < s.len()
        invariant
            0 <= i <= s@.len(),
            out@ == joined(before + part_texts(s@.subrange(0, i as int), positive)),
            started == ((before + part_texts(s@.subrange(0, i as int), positive)).len() > 0),
        decreases s@.len() - i,
    {
        let ghost done = before + part_texts(s@.subrange(0, i as int), positive);
        let f = &s[i];
        let take = if positive { f.exponent > 0 } else { f.exponent < 0 };
        proof {
            assert(s@.subrange(0, i + 1).drop_last() == s@.subrange(0, i as int));
            assert(s@.subrange(0, i + 1).last() == s@[i as int]);
        }
        if take {
            if started {
                proof {
                    reveal_strlit(" * ");
                }
                out.append(" * ");
            }
            push_term(out, f.generator.name.as_str(), f.exponent);
            started = true;
            proof {
                let next = done.push(factor_text(*f));
                assert(next.drop_last() == done);
                assert(before + part_texts(s@.subrange(0, i + 1), positive) == next);
            }
        } else {
            proof {
                assert(before + part_texts(s@.subrange(0, i + 1), positive) == done);
            }
        }
        i = i + 1;
    }
    proof {
        assert(s@.subrange(0, s@.len() as int) == s@);
    }
    started
}

/// The text of a normalized form.
pub fn describe(nf: &NormalForm) -> (r: String)
    ensures
        r@ == rendered(nf.factors@),
{
    let mut out = String::new();
    proof {
        assert(Seq::<Seq<char>>::empty() + part_texts(nf.factors@, true) == part_texts(nf.factors@, true));
    }
    let started = push_part(&mut out, &nf.factors, true, false, Ghost(Seq::empty()));
    push_part(&mut out, &nf.factors, false, started, Ghost(part_texts(nf.factors@, true)));
    out
}

} // verus!
