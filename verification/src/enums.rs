//! Enums used for strongly-typed indexing.
//!
//! An [`Enum`] is a finite type whose values are numbered `0..count`. The
//! numbering is a bijection: every index below the count names exactly one
//! value, and every value has exactly one index. Maps keyed by such types
//! ([`crate::enum_map::EnumMap`]) store one entry per value.
use vstd::prelude::*;
use crate::text::{decimal, decimal_value, lemma_decimal_numeral, usize_to_decimal, join_with};

verus! {

/// A finite type whose values are numbered `0..count`.
///
/// Implementors prove that `from_usize` and `to_usize` are inverse to each
/// other on the index range, so that indexing by the type is total and
/// injective.
pub trait Enum: Sized + Copy {
    /// Number of values of the type.
    spec fn spec_count() -> nat;

    /// Index of a value.
    spec fn spec_index(self) -> nat;

    /// Value with a given index (meaningful below the count).
    spec fn spec_variant(i: nat) -> Self;

    /// Whether the count, and every index, can be held in a `usize`.
    spec fn spec_fits() -> bool;

    /// A fitting enum has at most `usize::MAX` values.
    proof fn lemma_fits()
        requires
            Self::spec_fits(),
        ensures
            Self::spec_count() <= usize::MAX,
    ;

    /// Every index below the count names a value with that index.
    proof fn lemma_variant_index(i: nat)
        requires
            i < Self::spec_count(),
        ensures
            Self::spec_variant(i).spec_index() == i,
    ;

    /// Number of values of the type.
    fn count() -> (n: usize)
        requires
            Self::spec_fits(),
        ensures
            n == Self::spec_count(),
    ;

    /// The value with index `i`.
    fn from_usize(i: usize) -> (e: Self)
        requires
            i < Self::spec_count(),
            Self::spec_fits(),
        ensures
            e == Self::spec_variant(i as nat),
    ;

    /// The index of this value: it is below the count and names the value
    /// back.
    fn to_usize(self) -> (i: usize)
        requires
            Self::spec_fits(),
        ensures
            i == self.spec_index(),
            i < Self::spec_count(),
            Self::spec_variant(i as nat) == self,
    ;

    /// Human-readable name of the value.
    spec fn spec_name(self) -> Seq<char>;

    /// Human-readable name of the value.
    fn name(&self) -> (s: String)
        ensures
            s@ == self.spec_name(),
    ;
}

/// All values of an enum, in index order.
pub open spec fn spec_enum_values<E: Enum>() -> Seq<E> {
    Seq::new(E::spec_count(), |i: int| E::spec_variant(i as nat))
}

/// Number of values of an enum.
pub fn count<E: Enum>() -> (n: usize)
    requires
        E::spec_fits(),
    ensures
        n == E::spec_count(),
{
    E::count()
}

/// Lists all values of an enum, in index order.
pub fn enum_iter<E: Enum>() -> (values: Vec<E>)
    requires
        E::spec_fits(),
    ensures
        values@ == spec_enum_values::<E>(),
{
    let n = E::count();
    let mut values: Vec<E> = Vec::new();
    let mut i: usize = 0;
    while i < n
        invariant
            i <= n,
            n == E::spec_count(),
            E::spec_fits(),
            values@ == spec_enum_values::<E>().take(i as int),
        decreases n - i,
    {
        let e = E::from_usize(i);
        values.push(e);
        i = i + 1;
        assert(values@ =~= spec_enum_values::<E>().take(i as int));
    }
    assert(values@ =~= spec_enum_values::<E>());
    values
}

/// A type with no values: its invariant can never hold, so no value of it
/// is ever constructed.
#[derive(Debug, Copy, Clone, PartialEq, Eq)]
pub struct Empty {
    never: (),
}

impl Empty {
    #[verifier::type_invariant]
    closed spec fn inv(self) -> bool {
        false
    }
}

impl Enum for Empty {
    open spec fn spec_count() -> nat {
        0
    }

    open spec fn spec_fits() -> bool {
        true
    }

    proof fn lemma_fits() {
    }

    open spec fn spec_index(self) -> nat {
        0
    }

    open spec fn spec_variant(i: nat) -> Self {
        arbitrary()
    }

    proof fn lemma_variant_index(i: nat) {
    }

    open spec fn spec_name(self) -> Seq<char> {
        Seq::empty()
    }

    fn count() -> (n: usize) {
        0
    }

    fn from_usize(i: usize) -> (e: Self) {
        proof {
            assert(i < 0);
        }
        Empty { never: () }
    }

    fn to_usize(self) -> (i: usize) {
        proof {
            use_type_invariant(self);
        }
        0
    }

    fn name(&self) -> String {
        proof {
            use_type_invariant(self);
        }
        proof {
            assert(false);
        }
        String::new()
    }
}

/// A single audio channel.
#[derive(Debug, Copy, Clone, PartialEq, Eq)]
pub enum Mono {
    /// The only channel.
    Mono,
}

impl Enum for Mono {
    open spec fn spec_count() -> nat {
        1
    }

    open spec fn spec_fits() -> bool {
        true
    }

    proof fn lemma_fits() {
    }

    open spec fn spec_index(self) -> nat {
        0
    }

    open spec fn spec_variant(i: nat) -> Self {
        Mono::Mono
    }

    proof fn lemma_variant_index(i: nat) {
    }

    open spec fn spec_name(self) -> Seq<char> {
        "Mono"@
    }


    fn count() -> (n: usize) {
        1
    }

    fn from_usize(i: usize) -> (e: Self) {
        Mono::Mono
    }

    fn to_usize(self) -> (i: usize) {
        0
    }

    fn name(&self) -> (s: String) {
        String::from_str("Mono")
    }
}

/// A pair of stereo channels.
#[derive(Debug, Copy, Clone, PartialEq, Eq)]
pub enum Stereo {
    /// Left channel.
    Left,
    /// Right channel.
    Right,
}

impl Enum for Stereo {
    open spec fn spec_count() -> nat {
        2
    }

    open spec fn spec_fits() -> bool {
        true
    }

    proof fn lemma_fits() {
    }

    open spec fn spec_index(self) -> nat {
        match self {
            Stereo::Left => 0,
            Stereo::Right => 1,
        }
    }

    open spec fn spec_variant(i: nat) -> Self {
        if i == 0 {
            Stereo::Left
        } else {
            Stereo::Right
        }
    }

    proof fn lemma_variant_index(i: nat) {
    }

    open spec fn spec_name(self) -> Seq<char> {
        match self {
            Stereo::Left => "Left"@,
            Stereo::Right => "Right"@,
        }
    }


    fn count() -> (n: usize) {
        2
    }

    fn from_usize(i: usize) -> (e: Self) {
        if i == 0 {
            Stereo::Left
        } else {
            Stereo::Right
        }
    }

    fn to_usize(self) -> (i: usize) {
        match self {
            Stereo::Left => 0,
            Stereo::Right => 1,
        }
    }

    fn name(&self) -> (s: String) {
        match self {
            Stereo::Left => String::from_str("Left"),
            Stereo::Right => String::from_str("Right"),
        }
    }
}

/// A sequential index below a fixed size `N`.
///
/// Useful as an input, output or parameter type when no dedicated enum is
/// declared. Its name is its one-based position.
#[derive(Debug, Copy, Clone, PartialEq, Eq)]
pub struct Sequential<const N: usize>(usize);

impl<const N: usize> Sequential<N> {
    /// The index held.
    pub closed spec fn spec_value(self) -> nat {
        self.0 as nat
    }

    /// Well-formedness: the index is below `N`.
    #[verifier::type_invariant]
    closed spec fn inv(self) -> bool {
        self.0 < N
    }

    /// The held index, as a plain number.
    pub fn index(&self) -> (i: usize)
        ensures
            i == self.spec_value(),
            i < N,
    {
        proof {
            use_type_invariant(self);
        }
        self.0
    }
}

/// Constructs the sequential index `n` below `N`.
///
/// The index must be below `N`.
pub fn seq<const N: usize>(n: usize) -> (s: Sequential<N>)
    requires
        n < N,
    ensures
        s.spec_value() == n,
{
    Sequential(n)
}

impl<const N: usize> Enum for Sequential<N> {
    open spec fn spec_count() -> nat {
        N as nat
    }

    open spec fn spec_fits() -> bool {
        true
    }

    proof fn lemma_fits() {
    }

    open spec fn spec_index(self) -> nat {
        self.spec_value()
    }

    closed spec fn spec_variant(i: nat) -> Self {
        if i < N {
            Sequential(i as usize)
        } else {
            Sequential(0)
        }
    }

    proof fn lemma_variant_index(i: nat) {
    }

    /// The one-based position, in decimal.
    open spec fn spec_name(self) -> Seq<char> {
        decimal(self.spec_value() + 1)
    }


    fn count() -> (n: usize) {
        N
    }

    fn from_usize(i: usize) -> (e: Self) {
        Sequential(i)
    }

    fn to_usize(self) -> (i: usize) {
        proof {
            use_type_invariant(self);
        }
        self.0
    }

    fn name(&self) -> (s: String) {
        proof {
            use_type_invariant(self);
        }
        usize_to_decimal(self.0 + 1)
    }
}

/// All pairs of values of two enums.
///
/// The pair `(a, b)` has index `a * count(B) + b`, so the pairs are ordered
/// by their first component, then by their second.
#[derive(Debug, Copy, Clone, PartialEq, Eq)]
pub struct CartesianProduct<A, B>(pub A, pub B);

impl<A: Enum, B: Enum> Enum for CartesianProduct<A, B> {
    open spec fn spec_count() -> nat {
        A::spec_count() * B::spec_count()
    }

    open spec fn spec_fits() -> bool {
        A::spec_fits() && B::spec_fits() && A::spec_count() * B::spec_count() <= usize::MAX
    }

    proof fn lemma_fits() {
    }

    open spec fn spec_index(self) -> nat {
        self.0.spec_index() * B::spec_count() + self.1.spec_index()
    }

    open spec fn spec_variant(i: nat) -> Self {
        CartesianProduct(
            A::spec_variant(i / B::spec_count()),
            B::spec_variant(i % B::spec_count()),
        )
    }

    proof fn lemma_variant_index(i: nat) {
        let nb = B::spec_count();
        let na = A::spec_count();
        assert(nb > 0) by (nonlinear_arith)
            requires i < na * nb;
        assert(i / nb < na) by (nonlinear_arith)
            requires i < na * nb, nb > 0;
        assert(i % nb < nb) by (nonlinear_arith)
            requires nb > 0;
        A::lemma_variant_index(i / nb);
        B::lemma_variant_index(i % nb);
        assert((i / nb) * nb + i % nb == i) by (nonlinear_arith)
            requires nb > 0;
    }


    fn count() -> (n: usize) {
        let na = A::count();
        let nb = B::count();
        na * nb
    }

    fn from_usize(i: usize) -> (e: Self) {
        let nb = B::count();
        proof {
            assert(nb > 0 && i / nb < A::spec_count() && i % nb < nb) by (nonlinear_arith)
                requires i < A::spec_count() * nb;
        }
        CartesianProduct(A::from_usize(i / nb), B::from_usize(i % nb))
    }

    fn to_usize(self) -> (i: usize) {
        let a = self.0.to_usize();
        let b = self.1.to_usize();
        let nb = B::count();
        let na = A::count();
        proof {
            assert(a * nb + b < na * nb) by (nonlinear_arith)
                requires a < na, b < nb;
            assert(a * nb <= a * nb + b);
            assert((a * nb + b) / (nb as int) == a && (a * nb + b) % (nb as int) == b) by (nonlinear_arith)
                requires b < nb, a >= 0;
        }
        a * nb + b
    }

    open spec fn spec_name(self) -> Seq<char> {
        self.0.spec_name() + ":"@ + self.1.spec_name()
    }

    fn name(&self) -> (s: String) {
        let a = self.0.name();
        let b = self.1.name();
        join_with(a.as_str(), ":", b.as_str())
    }
}

/// Number of indices taken by the variants before `k`, when variant `i`
/// takes `widths[i]` indices: a unit variant takes one, a variant wrapping
/// another enum takes that enum's count.
pub open spec fn spec_variant_offset(widths: Seq<usize>, k: int) -> nat
    decreases k,
{
    if k <= 0 {
        0
    } else {
        spec_variant_offset(widths, k - 1) + widths[k - 1] as nat
    }
}

/// Offsets never decrease along the variants.
pub proof fn lemma_variant_offset_monotone(widths: Seq<usize>, j: int, k: int)
    requires
        0 <= j <= k <= widths.len(),
    ensures
        spec_variant_offset(widths, j) <= spec_variant_offset(widths, k),
    decreases k - j,
{
    if j < k {
        lemma_variant_offset_monotone(widths, j, k - 1);
    }
}

/// First index taken by variant `variant` of an enum laid out by `widths`.
///
/// This is the numbering that a derived [`Enum`] gives: variants are
/// numbered in declaration order, each taking `widths[i]` consecutive
/// indices.
pub fn variant_offset(widths: &[usize], variant: usize) -> (offset: usize)
    requires
        variant <= widths@.len(),
        spec_variant_offset(widths@, widths@.len() as int) <= usize::MAX,
    ensures
        offset == spec_variant_offset(widths@, variant as int),
{
    let mut offset: usize = 0;
    let mut k: usize = 0;
    while k < variant
        invariant
            k <= variant <= widths@.len(),
            offset == spec_variant_offset(widths@, k as int),
            spec_variant_offset(widths@, widths@.len() as int) <= usize::MAX,
        decreases variant - k,
    {
        proof {
            lemma_variant_offset_monotone(widths@, k + 1, widths@.len() as int);
        }
        offset = offset + widths[k];
        k = k + 1;
    }
    offset
}

/// Splits an index of an enum laid out by `widths` into the variant that
/// holds it and the index within that variant.
///
/// The index must be below the total width (the enum's count).
pub fn locate_variant(widths: &[usize], index: usize) -> (r: (usize, usize))
    requires
        index < spec_variant_offset(widths@, widths@.len() as int),
    ensures
        r.0 < widths@.len(),
        r.1 < widths@[r.0 as int],
        index == spec_variant_offset(widths@, r.0 as int) + r.1,
{
    let mut k: usize = 0;
    let mut rest: usize = index;
    while k < widths.len()
        invariant
            k <= widths@.len(),
            index == spec_variant_offset(widths@, k as int) + rest,
            index < spec_variant_offset(widths@, widths@.len() as int),
        decreases widths@.len() - k,
    {
        if rest < widths[k] {
            return (k, rest);
        }
        rest = rest - widths[k];
        k = k + 1;
    }
    proof {
        assert(false);
    }
    (0, 0)
}

/// Locating the index `offset(v) + j` of an inner index `j` of variant `v`
/// gives back `v` and `j`: the derived numbering is a bijection.
pub proof fn lemma_locate_offset(widths: Seq<usize>, v: int, j: int, w: int)
    requires
        0 <= v < widths.len(),
        0 <= j < widths[v],
        0 <= w < widths.len(),
        spec_variant_offset(widths, w) <= spec_variant_offset(widths, v) + j
            < spec_variant_offset(widths, w) + widths[w],
    ensures
        w == v,
{
    if w < v {
        lemma_variant_offset_monotone(widths, w + 1, v);
    } else if v < w {
        lemma_variant_offset_monotone(widths, v + 1, w);
    }
}

/// The values of `Mono` are numbered from zero in the order in which they
/// are declared, and each is named by its identifier.
pub proof fn lemma_mono_declaration_order()
    ensures
        Mono::Mono.spec_name() == "Mono"@,
        Mono::spec_count() == 1,
        Mono::Mono.spec_index() == 0,
        Mono::spec_variant(0) == Mono::Mono,
{
}

/// The values of `Stereo` are numbered from zero in the order in which they
/// are declared, and each is named by its identifier.
pub proof fn lemma_stereo_declaration_order()
    ensures
        Stereo::Left.spec_name() == "Left"@,
        Stereo::Right.spec_name() == "Right"@,
        Stereo::spec_count() == 2,
        Stereo::Left.spec_index() == 0,
        Stereo::spec_variant(0) == Stereo::Left,
        Stereo::Right.spec_index() == 1,
        Stereo::spec_variant(1) == Stereo::Right,
{
}

/// A sequential index is named by its one-based position: its name is a
/// decimal numeral whose value is the index plus one.
pub proof fn lemma_sequential_name<const N: usize>(s: Sequential<N>)
    ensures
        decimal_value(s.spec_name()) == s.spec_value() + 1,
        s.spec_name().len() >= 1,
        forall|i: int| 0 <= i < s.spec_name().len() ==> '0' <= #[trigger] s.spec_name()[i] <= '9',
        s.spec_name()[0] != '0',
{
    lemma_decimal_numeral(s.spec_value() + 1);
}

/// Pairs are numbered by their first component, then by their second, and
/// each pair's index is below the number of pairs.
pub proof fn lemma_cartesian_order<A: Enum, B: Enum>(a1: A, b1: B, a2: A, b2: B)
    requires
        a1.spec_index() < A::spec_count(),
        a2.spec_index() < A::spec_count(),
        b1.spec_index() < B::spec_count(),
        b2.spec_index() < B::spec_count(),
    ensures
        CartesianProduct(a1, b1).spec_index() < CartesianProduct::<A, B>::spec_count(),
        (CartesianProduct(a1, b1).spec_index() < CartesianProduct(a2, b2).spec_index()) <==> (a1.spec_index()
            < a2.spec_index() || (a1.spec_index() == a2.spec_index() && b1.spec_index() < b2.spec_index())),
        (CartesianProduct(a1, b1).spec_index() == CartesianProduct(a2, b2).spec_index()) <==> (a1.spec_index()
            == a2.spec_index() && b1.spec_index() == b2.spec_index()),
{
    let na = A::spec_count();
    let nb = B::spec_count();
    let x1 = a1.spec_index();
    let x2 = a2.spec_index();
    let y1 = b1.spec_index();
    let y2 = b2.spec_index();
    assert(x1 * nb + y1 < na * nb) by (nonlinear_arith)
        requires
            x1 < na,
            y1 < nb,
    ;
    assert(x1 < x2 ==> x1 * nb + y1 < x2 * nb + y2) by (nonlinear_arith)
        requires
            y1 < nb,
    ;
    assert(x2 < x1 ==> x2 * nb + y2 < x1 * nb + y1) by (nonlinear_arith)
        requires
            y2 < nb,
    ;
}

/// A pair is named by the names of its components, separated by a colon.
pub proof fn lemma_cartesian_name<A: Enum, B: Enum>(a: A, b: B)
    ensures
        CartesianProduct(a, b).spec_name() == a.spec_name() + seq![':'] + b.spec_name(),
{
    reveal_strlit(":");
}

} // verus!
