//! Values tagged with a unit of measure, and the runtime form of a unit.
use vstd::prelude::*;
use vstd::string::StringExecFns;
use vstd::std_specs::convert::{FromSpec, IntoSpec};
use vstd::std_specs::ops::{AddSpec, DivSpec, MulSpec};
use vstd::std_specs::cmp::{PartialEqSpec, PartialOrdSpec};
use std::any::TypeId;
use std::marker::PhantomData;
use crate::private::Sealed;
use crate::render::{joined, term_text, push_term};

verus! {

#[verifier::external_type_specification]
#[verifier::external_body]
pub struct ExTypeId(std::any::TypeId);

/// Relies on `std::any::TypeId::of`: the identity of a type, distinct for
/// distinct types.
#[verifier::external_body]
fn type_id_of<T: ?Sized + 'static>() -> (r: TypeId) {
    TypeId::of::<T>()
}

/// Relies on `PartialEq` for `std::any::TypeId`: two identities compare equal
/// exactly when they are the same.
#[verifier::external_body]
fn same_type_id(a: &TypeId, b: &TypeId) -> (r: bool)
    ensures
        r == (*a == *b),
{
    *a == *b
}

/// One base unit of a runtime unit, with its exponent.
#[derive(Debug)]
pub struct Dimension {
    pub id: TypeId,
    pub name: String,
    pub exponent: i64,
}

/// Runtime form of a unit: its base units with nonzero exponents.
///
/// Used mainly for debug formatting.
#[derive(Debug)]
pub struct RuntimeUnit {
    pub dimensions: Vec<Dimension>,
}

/// Whether two entries are for the same base unit.
pub open spec fn same_dimension(a: Dimension, b: Dimension) -> bool {
    a.id == b.id && a.name@ == b.name@
}

/// The exponent that an entry gives to the base units named `name`.
pub open spec fn name_part(d: Dimension, name: Seq<char>) -> int {
    if d.name@ == name { d.exponent as int } else { 0 }
}

/// The sum of the exponents of the base units named `name`.
pub open spec fn name_total(s: Seq<Dimension>, name: Seq<char>) -> int
    decreases s.len(),
{
    if s.len() == 0 {
        0
    } else {
        name_total(s.drop_last(), name) + name_part(s.last(), name)
    }
}

proof fn lemma_name_total_one(d: Dimension, name: Seq<char>)
    ensures
        name_total(seq![d], name) == name_part(d, name),
{
    assert(seq![d].drop_last() =~= Seq::<Dimension>::empty());
    assert(name_total(Seq::<Dimension>::empty(), name) == 0);
}

proof fn lemma_name_total_concat(a: Seq<Dimension>, b: Seq<Dimension>, name: Seq<char>)
    ensures
        name_total(a + b, name) == name_total(a, name) + name_total(b, name),
    decreases b.len(),
{
    if b.len() == 0 {
        assert(a + b =~= a);
    } else {
        assert((a + b).drop_last() =~= a + b.drop_last());
        assert((a + b).last() == b.last());
        lemma_name_total_concat(a, b.drop_last(), name);
    }
}

/// The total for `name` of `s` with the entry at `i` replaced by the entries `mid`.
proof fn lemma_name_total_splice(s: Seq<Dimension>, i: int, mid: Seq<Dimension>, name: Seq<char>)
    requires
        0 <= i < s.len(),
    ensures
        name_total(s.subrange(0, i) + mid + s.subrange(i + 1, s.len() as int), name) == name_total(s, name)
            - name_part(s[i], name) + name_total(mid, name),
{
    let head = s.subrange(0, i);
    let tail = s.subrange(i + 1, s.len() as int);
    let one = seq![s[i]];
    lemma_name_total_one(s[i], name);
    assert(head + one + tail =~= s);
    lemma_name_total_concat(head + one, tail, name);
    lemma_name_total_concat(head, one, name);
    lemma_name_total_concat(head + mid, tail, name);
    lemma_name_total_concat(head, mid, name);
}

/// Whether a base unit goes in the positive part (or else in the negative part).
pub open spec fn dimension_in_part(d: Dimension, positive: bool) -> bool {
    if positive { d.exponent > 0 } else { d.exponent < 0 }
}

/// The texts of the base units of one sign, in their order.
pub open spec fn dimension_texts(s: Seq<Dimension>, positive: bool) -> Seq<Seq<char>>
    decreases s.len(),
{
    if s.len() == 0 {
        seq![]
    } else if dimension_in_part(s.last(), positive) {
        dimension_texts(s.drop_last(), positive).push(term_text(s.last().name@, s.last().exponent as int))
    } else {
        dimension_texts(s.drop_last(), positive)
    }
}

impl RuntimeUnit {
    /// Each base unit once, none with exponent 0.
    pub open spec fn wf(&self) -> bool {
        &&& forall|i: int, j: int|
            0 <= i < j < self.dimensions@.len() ==> !same_dimension(
                #[trigger] self.dimensions@[i],
                #[trigger] self.dimensions@[j],
            )
        &&& forall|i: int|
            0 <= i < self.dimensions@.len() ==> (#[trigger] self.dimensions@[i]).exponent != 0
    }

    /// Every exponent lies within `-n ..= n`.
    pub open spec fn within(&self, n: int) -> bool {
        forall|i: int|
            0 <= i < self.dimensions@.len() ==> -n <= (#[trigger] self.dimensions@[i]).exponent <= n
    }

    /// The dimensionless unit.
    pub fn new() -> (r: RuntimeUnit)
        ensures
            r.wf(),
            r.dimensions@.len() == 0,
    {
        RuntimeUnit { dimensions: Vec::new() }
    }

    /// Adds one occurrence of the base unit `id`, named `name`, under the
    /// sign `positive`; a base unit whose exponent reaches 0 leaves.
    fn add_base(&mut self, id: TypeId, name: &str, positive: bool)
        requires
            old(self).wf(),
            old(self).within(i64::MAX - 1),
        ensures
            final(self).wf(),
            forall|n: int| n >= 0 && old(self).within(n) ==> final(self).within(n + 1),
            forall|nm: Seq<char>|
                #[trigger] name_total(final(self).dimensions@, nm) == name_total(old(self).dimensions@, nm)
                    + if nm == name@ {
                    if positive { 1int } else { -1int }
                } else {
                    0int
                },
    {
        let delta: i64 = if positive { 1 } else { -1 };
        let owned_name = name.to_owned();
        let ghost s0 = self.dimensions@;
        let mut i: usize = 0;
        while i < self.dimensions.len()
            invariant
                0 <= i <= self.dimensions@.len(),
                self.dimensions@ == s0,
                s0 == old(self).dimensions@,
                old(self).wf(),
                old(self).within(i64::MAX - 1),
                delta == (if positive { 1i64 } else { -1i64 }),
                forall|j: int|
                    0 <= j < i ==> !((#[trigger] self.dimensions@[j]).id == id
                        && self.dimensions@[j].name@ == name@),
                owned_name@ == name@,
            decreases self.dimensions@.len() - i,
        {
            if same_type_id(&self.dimensions[i].id, &id) && self.dimensions[i].name == owned_name {
                proof {
                    assert(old(self).dimensions@[i as int] == self.dimensions@[i as int]);
                }
                let e = self.dimensions[i].exponent + delta;
                if e == 0 {
                    self.dimensions.remove(i);
                    proof {
                        let s1 = self.dimensions@;
                        assert forall|nm: Seq<char>| #[trigger] name_total(s1, nm) == name_total(s0, nm)
                            + if nm == name@ { delta as int } else { 0int } by {
                            lemma_name_total_splice(s0, i as int, seq![], nm);
                            assert(s0.subrange(0, i as int) + seq![] + s0.subrange(i + 1, s0.len() as int)
                                =~= s1);
                            assert(name_total(Seq::<Dimension>::empty(), nm) == 0) by {
                                lemma_name_total_concat(Seq::<Dimension>::empty(), Seq::<Dimension>::empty(), nm);
                            }
                            assert(s0[i as int].name@ == name@);
                            assert(s0[i as int].exponent + delta == 0);
                        }
                        assert forall|a: int, b: int| 0 <= a < b < s1.len() implies !same_dimension(
                            #[trigger] s1[a],
                            #[trigger] s1[b],
                        ) by {
                            let a0 = if a < i { a } else { a + 1 };
                            let b0 = if b < i { b } else { b + 1 };
                            assert(s1[a] == s0[a0]);
                            assert(s1[b] == s0[b0]);
                        }
                        assert forall|a: int| 0 <= a < s1.len() implies (#[trigger] s1[a]).exponent != 0
                            && forall|n: int| n >= 0 && old(self).within(n) ==> -(n + 1) <= s1[a].exponent <= n + 1 by {
                            let a0 = if a < i { a } else { a + 1 };
                            assert(s1[a] == s0[a0]);
                        }
                    }
                } else {
                    self.dimensions[i].exponent = e;
                    proof {
                        let s1 = self.dimensions@;
                        assert forall|nm: Seq<char>| #[trigger] name_total(s1, nm) == name_total(s0, nm)
                            + if nm == name@ { delta as int } else { 0int } by {
                            let one = seq![s1[i as int]];
                            lemma_name_total_splice(s0, i as int, one, nm);
                            assert(s0.subrange(0, i as int) + one + s0.subrange(i + 1, s0.len() as int)
                                =~= s1);
                            lemma_name_total_one(s1[i as int], nm);
                            assert(s1[i as int].name@ == name@);
                        }
                        assert(s1[i as int].exponent == s0[i as int].exponent + delta);
                        assert forall|a: int, b: int| 0 <= a < b < s1.len() implies !same_dimension(
                            #[trigger] s1[a],
                            #[trigger] s1[b],
                        ) by {
                            assert(s1[a].id == s0[a].id && s1[a].name == s0[a].name);
                            assert(s1[b].id == s0[b].id && s1[b].name == s0[b].name);
                        }
                        assert forall|a: int| 0 <= a < s1.len() implies (#[trigger] s1[a]).exponent != 0
                            && forall|n: int| n >= 0 && old(self).within(n) ==> -(n + 1) <= s1[a].exponent <= n + 1 by {
                            if a != i {
                                assert(s1[a] == s0[a]);
                            } else {
                                assert forall|n: int| n >= 0 && old(self).within(n) implies -(n + 1) <= s1[a].exponent
                                    <= n + 1 by {
                                    assert(-n <= s0[a].exponent <= n);
                                }
                            }
                        }
                    }
                }
                return;
            }
            i = i + 1;
        }
        self.dimensions.push(Dimension { id, name: owned_name, exponent: delta });
        proof {
            let s1 = self.dimensions@;
            assert(s1.drop_last() =~= s0);
            assert forall|a: int, b: int| 0 <= a < b < s1.len() implies !same_dimension(
                #[trigger] s1[a],
                #[trigger] s1[b],
            ) by {
                assert(s1[a] == s0[a]);
                if b < s0.len() {
                    assert(s1[b] == s0[b]);
                }
            }
            assert forall|a: int| 0 <= a < s1.len() implies (#[trigger] s1[a]).exponent != 0
                && forall|n: int| n >= 0 && old(self).within(n) ==> -(n + 1) <= s1[a].exponent <= n + 1 by {
                if a < s0.len() {
                    assert(s1[a] == s0[a]);
                } else {
                    assert forall|n: int| n >= 0 && old(self).within(n) implies -(n + 1) <= s1[a].exponent
                        <= n + 1 by {
                        if s0.len() > 0 {
                            assert(-n <= s0[0].exponent <= n);
                        }
                    }
                }
            }
        }
    }

    /// The text of this unit: base units with a positive exponent, then
    /// those with a negative one, joined by `" * "`; each reads `name` where
    /// its exponent is 1 and `name^exponent` elsewhere. The dimensionless
    /// unit reads `""`.
    pub fn to_string(&self) -> (r: String)
        ensures
            r@ == joined(
                dimension_texts(self.dimensions@, true) + dimension_texts(self.dimensions@, false),
            ),
    {
        let mut out = String::new();
        let started = push_dimensions(&mut out, &self.dimensions, true, false, Ghost(Seq::empty()));
        proof {
            assert(Seq::<Seq<char>>::empty() + dimension_texts(self.dimensions@, true)
                == dimension_texts(self.dimensions@, true));
        }
        push_dimensions(
            &mut out,
            &self.dimensions,
            false,
            started,
            Ghost(dimension_texts(self.dimensions@, true)),
        );
        out
    }
}

/// Appends the texts of the base units of one sign, each after a separator
/// unless nothing came before it.
fn push_dimensions(
    out: &mut String,
    s: &Vec<Dimension>,
    positive: bool,
    started: bool,
    Ghost(before): Ghost<Seq<Seq<char>>>,
) -> (r: bool)
    requires
        old(out)@ == joined(before),
        started == (before.len() > 0),
    ensures
        final(out)@ == joined(before + dimension_texts(s@, positive)),
        r == ((before + dimension_texts(s@, positive)).len() > 0),
{
    let mut started = started;
    let mut i: usize = 0;
    while i < s.len()
        invariant
            0 <= i <= s@.len(),
            out@ == joined(before + dimension_texts(s@.subrange(0, i as int), positive)),
            started == ((before + dimension_texts(s@.subrange(0, i as int), positive)).len() > 0),
        decreases s@.len() - i,
    {
        let ghost done = before + dimension_texts(s@.subrange(0, i as int), positive);
        let d = &s[i];
        let take = if positive { d.exponent > 0 } else { d.exponent < 0 };
        proof {
            assert(s@.subrange(0, i + 1).drop_last() == s@.subrange(0, i as int));
            assert(s@.subrange(0, i + 1).last() == s@[i as int]);
        }
        if take {
            if started {
                proof {
                    reveal_strlit(" * ");
                }
                out.append(" * ");
            }
            push_term(out, d.name.as_str(), d.exponent);
            started = true;
            proof {
                let next = done.push(term_text(d.name@, d.exponent as int));
                assert(next.drop_last() == done);
                assert(before + dimension_texts(s@.subrange(0, i + 1), positive) == next);
            }
        } else {
            proof {
                assert(before + dimension_texts(s@.subrange(0, i + 1), positive) == done);
            }
        }
        i = i + 1;
    }
    proof {
        assert(s@.subrange(0, s@.len() as int) == s@);
    }
    started
}

/// A base unit of measure (meters, euros, ...).
pub trait BaseUnit: 'static {
    /// The human-readable name of the unit, e.g. `"m"`, `"s"`, `"EUR"`.
    const NAME: &'static str;
}

impl<T: BaseUnit> Sealed for T {}

/// A unit of measure. To make a new one, implement `BaseUnit`.
pub trait Unit: Sealed {
    /// The number of base units that this unit is built of.
    spec fn occurrences() -> nat;

    /// The summed exponent of the base units named `name` in this unit.
    spec fn exponent_by_name(name: Seq<char>) -> int;

    /// Adds this unit to a runtime unit, in positive position where
    /// `positive` holds and in negative position elsewhere.
    fn add_to_runtime(repr: &mut RuntimeUnit, positive: bool)
        requires
            Self::occurrences() <= i64::MAX,
            old(repr).wf(),
            old(repr).within(i64::MAX - Self::occurrences()),
        ensures
            final(repr).wf(),
            forall|n: int| n >= 0 && old(repr).within(n) ==> final(repr).within(n + Self::occurrences()),
            forall|nm: Seq<char>|
                #[trigger] name_total(final(repr).dimensions@, nm) == name_total(old(repr).dimensions@, nm)
                    + if positive {
                    Self::exponent_by_name(nm)
                } else {
                    -Self::exponent_by_name(nm)
                },
    ;

    /// The runtime form of this unit.
    fn as_runtime() -> (r: RuntimeUnit)
        requires
            Self::occurrences() <= i64::MAX,
        ensures
            r.wf(),
            forall|nm: Seq<char>| #[trigger] name_total(r.dimensions@, nm) == Self::exponent_by_name(nm),
    {
        let mut runtime = RuntimeUnit::new();
        Self::add_to_runtime(&mut runtime, true);
        runtime
    }
}

impl<T: BaseUnit> Unit for T {
    open spec fn occurrences() -> nat {
        1
    }

    open spec fn exponent_by_name(name: Seq<char>) -> int {
        if name == T::NAME@ { 1 } else { 0 }
    }

    fn add_to_runtime(repr: &mut RuntimeUnit, positive: bool) {
        let id = type_id_of::<T>();
        repr.add_base(id, T::NAME, positive);
    }
}

/// A value with a unit.
#[derive(Debug)]
pub struct Measure<T, U: Unit> {
    value: T,
    unit: PhantomData<U>,
}

impl<T, U: Unit> Measure<T, U> {
    /// The value, whatever its unit.
    pub closed spec fn value(&self) -> T {
        self.value
    }

    /// The measure of value `value`.
    pub closed spec fn with_value(value: T) -> Self {
        Measure { value, unit: PhantomData }
    }

    /// A value in unit `U`.
    pub fn new(value: T) -> (r: Self)
        ensures
            r.value() == value,
    {
        Measure { value, unit: PhantomData }
    }

    /// The same value in unit `V`. That `V` is the same unit as `U` is what
    /// the checker verifies of every call.
    pub fn unify<V: Unit>(self) -> (r: Measure<T, V>)
        ensures
            r.value() == self.value(),
    {
        Measure { value: self.value, unit: PhantomData }
    }

    /// Converts between two value representations in the same unit.
    pub fn from<V>(value: Measure<V, U>) -> (r: Self) where T: From<V>
        ensures
            T::obeys_from_spec() ==> r.value() == T::from_spec(value.value()),
    {
        Measure { value: T::from(value.value), unit: PhantomData }
    }

    /// Converts between two value representations in the same unit.
    pub fn into<V>(self) -> (r: Measure<V, U>) where T: Into<V>
        ensures
            <T as IntoSpec<V>>::obeys_into_spec() ==> r.value() == self.value().into_spec(),
    {
        Measure { value: self.value.into(), unit: PhantomData }
    }

    /// The runtime form of the unit.
    pub fn as_runtime(&self) -> (r: RuntimeUnit)
        requires
            U::occurrences() <= i64::MAX,
        ensures
            r.wf(),
            forall|nm: Seq<char>| #[trigger] name_total(r.dimensions@, nm) == U::exponent_by_name(nm),
    {
        U::as_runtime()
    }

    /// A reference to the value.
    pub fn as_ref(&self) -> (r: &T)
        ensures
            *r == self.value(),
    {
        &self.value
    }
}

impl<T: Clone, U: Unit> Clone for Measure<T, U> {
    fn clone(&self) -> (r: Self)
        ensures
            call_ensures(T::clone, (&self.value(),), r.value()),
    {
        Measure { value: self.value.clone(), unit: PhantomData }
    }
}

impl<T: Copy, U: Unit> Copy for Measure<T, U> {}

/// Two measures of one unit compare as their values do.
impl<T: PartialEq, U: Unit> PartialEq for Measure<T, U> {
    fn eq(&self, other: &Self) -> (r: bool) {
        self.value == other.value
    }
}

impl<T: PartialEq, U: Unit> vstd::std_specs::cmp::PartialEqSpecImpl for Measure<T, U> {
    open spec fn obeys_eq_spec() -> bool {
        T::obeys_eq_spec()
    }

    open spec fn eq_spec(&self, other: &Self) -> bool {
        self.value().eq_spec(&other.value())
    }
}

impl<T: Eq, U: Unit> Eq for Measure<T, U> {}

/// Two measures of one unit are ordered as their values are.
impl<T: PartialOrd, U: Unit> PartialOrd for Measure<T, U> {
    fn partial_cmp(&self, other: &Self) -> (r: Option<std::cmp::Ordering>) {
        self.value.partial_cmp(&other.value)
    }
}

impl<T: PartialOrd, U: Unit> vstd::std_specs::cmp::PartialOrdSpecImpl for Measure<T, U> {
    open spec fn obeys_partial_cmp_spec() -> bool {
        T::obeys_partial_cmp_spec()
    }

    open spec fn partial_cmp_spec(&self, other: &Self) -> Option<std::cmp::Ordering> {
        self.value().partial_cmp_spec(&other.value())
    }
}

/// Out of the box, only two values of the same unit add up.
impl<T: std::ops::Add<Output = T>, U: Unit> std::ops::Add for Measure<T, U> {
    type Output = Self;

    fn add(self, rhs: Self) -> (r: Self) {
        Measure { value: self.value + rhs.value, unit: PhantomData }
    }
}

impl<T: std::ops::Add<Output = T>, U: Unit> vstd::std_specs::ops::AddSpecImpl for Measure<T, U> {
    open spec fn obeys_add_spec() -> bool {
        T::obeys_add_spec()
    }

    open spec fn add_req(self, rhs: Self) -> bool {
        self.value().add_req(rhs.value())
    }

    open spec fn add_spec(self, rhs: Self) -> Self {
        Measure::with_value(self.value().add_spec(rhs.value()))
    }
}

/// Divides two measures: the unit is the first times the inverse of the second.
impl<T: std::ops::Div<T>, U: Unit, V: Unit> std::ops::Div<Measure<T, V>> for Measure<T, U> {
    type Output = Measure<<T as std::ops::Div>::Output, Mul<U, Inv<V>>>;

    fn div(self, rhs: Measure<T, V>) -> (r: Self::Output) {
        Measure { value: self.value / rhs.value, unit: PhantomData }
    }
}

impl<T: std::ops::Div<T>, U: Unit, V: Unit> vstd::std_specs::ops::DivSpecImpl<Measure<T, V>> for Measure<T, U> {
    open spec fn obeys_div_spec() -> bool {
        T::obeys_div_spec()
    }

    open spec fn div_req(self, rhs: Measure<T, V>) -> bool {
        self.value().div_req(rhs.value())
    }

    open spec fn div_spec(self, rhs: Measure<T, V>) -> Self::Output {
        Measure::with_value(self.value().div_spec(rhs.value()))
    }
}

impl<T: std::ops::Mul<T>, U: Unit> Measure<T, U> {
    /// Multiplies two measures: the units multiply too.
    pub fn mul<V: Unit>(self, rhs: Measure<T, V>) -> (r: Measure<<T as std::ops::Mul>::Output, Mul<U, V>>)
        requires
            self.value().mul_req(rhs.value()),
        ensures
            T::obeys_mul_spec() ==> r.value() == self.value().mul_spec(rhs.value()),
    {
        Measure { value: self.value * rhs.value, unit: PhantomData }
    }

    /// Multiplies a measure by a dimensionless value; the unit stays.
    pub fn scale(self, rhs: T) -> (r: Measure<<T as std::ops::Mul>::Output, U>)
        requires
            self.value().mul_req(rhs),
        ensures
            T::obeys_mul_spec() ==> r.value() == self.value().mul_spec(rhs),
    {
        Measure { value: self.value * rhs, unit: PhantomData }
    }
}

/// The unit without dimension.
#[derive(Clone, Copy, Debug, PartialEq, Eq, PartialOrd, Ord, Hash, Default)]
pub struct Dimensionless;

impl Sealed for Dimensionless {}

impl Unit for Dimensionless {
    open spec fn occurrences() -> nat {
        0
    }

    open spec fn exponent_by_name(name: Seq<char>) -> int {
        0
    }

    fn add_to_runtime(repr: &mut RuntimeUnit, positive: bool) {
    }
}

impl<T> Measure<T, Dimensionless> {
    /// The value of a dimensionless measure.
    pub fn unwrap(self) -> (r: T)
        ensures
            r == self.value(),
    {
        self.value
    }
}

/// The product of two units of measure.
#[derive(Debug)]
pub struct Mul<A: Unit, B: Unit> {
    left: PhantomData<A>,
    right: PhantomData<B>,
}

impl<A: Unit, B: Unit> Sealed for Mul<A, B> {}

impl<A: Unit, B: Unit> Unit for Mul<A, B> {
    open spec fn occurrences() -> nat {
        A::occurrences() + B::occurrences()
    }

    open spec fn exponent_by_name(name: Seq<char>) -> int {
        A::exponent_by_name(name) + B::exponent_by_name(name)
    }

    fn add_to_runtime(repr: &mut RuntimeUnit, positive: bool) {
        let ghost n = i64::MAX - A::occurrences() - B::occurrences();
        A::add_to_runtime(repr, positive);
        proof {
            assert(repr.within(n + A::occurrences()));
        }
        B::add_to_runtime(repr, positive);
    }
}

/// The inverse of a unit of measure.
#[derive(Debug)]
pub struct Inv<A: Unit> {
    inner: PhantomData<A>,
}

impl<A: Unit> Sealed for Inv<A> {}

impl<A: Unit> Unit for Inv<A> {
    open spec fn occurrences() -> nat {
        A::occurrences()
    }

    open spec fn exponent_by_name(name: Seq<char>) -> int {
        -A::exponent_by_name(name)
    }

    fn add_to_runtime(repr: &mut RuntimeUnit, positive: bool) {
        A::add_to_runtime(repr, !positive);
    }
}

} // verus!
