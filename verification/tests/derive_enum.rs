use clogbox::enums::{locate_variant, variant_offset, Enum, Sequential};

// Enums numbered the way a derived `Enum` numbers them: variants in
// declaration order, a unit variant taking one index and a variant wrapping
// another enum taking that enum's count. The numbering goes through the
// library's `variant_offset` and `locate_variant`.
trait Derived: Sized + Copy {
    fn count() -> usize;
    fn from_usize(i: usize) -> Self;
    fn to_usize(self) -> usize;
    fn name(&self) -> String;
}

impl<const N: usize> Derived for Sequential<N> {
    fn count() -> usize {
        <Sequential<N> as Enum>::count()
    }

    fn from_usize(i: usize) -> Self {
        <Sequential<N> as Enum>::from_usize(i)
    }

    fn to_usize(self) -> usize {
        <Sequential<N> as Enum>::to_usize(self)
    }

    fn name(&self) -> String {
        <Sequential<N> as Enum>::name(self)
    }
}

fn count<E: Derived>() -> usize {
    E::count()
}

fn enum_iter<E: Derived>() -> Vec<E> {
    (0..E::count()).map(E::from_usize).collect()
}

#[derive(Debug, Copy, Clone, PartialOrd, Ord, PartialEq, Eq)]
enum Inner {
    A,
    B,
    C,
    D,
}

impl Default for Inner {
    fn default() -> Self {
        Inner::A
    }
}

impl Derived for Inner {
    fn count() -> usize {
        4
    }

    fn from_usize(i: usize) -> Self {
        match locate_variant(&[1, 1, 1, 1], i).0 {
            0 => Inner::A,
            1 => Inner::B,
            2 => Inner::C,
            _ => Inner::D,
        }
    }

    fn to_usize(self) -> usize {
        let variant = match self {
            Inner::A => 0,
            Inner::B => 1,
            Inner::C => 2,
            Inner::D => 3,
        };
        variant_offset(&[1, 1, 1, 1], variant)
    }

    fn name(&self) -> String {
        format!("{:?}", self)
    }
}

#[derive(Debug, Copy, Clone, PartialEq, Eq)]
enum Outer {
    First,
    Second(Sequential<3>),
    Third(Inner),
}

impl Derived for Outer {
    fn count() -> usize {
        1 + <Sequential<3> as Derived>::count() + Inner::count()
    }

    fn from_usize(i: usize) -> Self {
        let widths = [1, <Sequential<3> as Derived>::count(), Inner::count()];
        let (variant, inner) = locate_variant(&widths, i);
        match variant {
            0 => Outer::First,
            1 => Outer::Second(<Sequential<3> as Derived>::from_usize(inner)),
            _ => Outer::Third(Inner::from_usize(inner)),
        }
    }

    fn to_usize(self) -> usize {
        let widths = [1, <Sequential<3> as Derived>::count(), Inner::count()];
        match self {
            Outer::First => variant_offset(&widths, 0),
            Outer::Second(s) => variant_offset(&widths, 1) + Derived::to_usize(s),
            Outer::Third(x) => variant_offset(&widths, 2) + x.to_usize(),
        }
    }

    fn name(&self) -> String {
        match self {
            Outer::First => "First".to_string(),
            Outer::Second(s) => Derived::name(s),
            Outer::Third(x) => x.name(),
        }
    }
}

#[derive(Debug, Copy, Clone, PartialOrd, Ord, PartialEq, Eq)]
enum GenericEnumFirst<T> {
    First(T),
    Second,
}

impl<T: Derived> Derived for GenericEnumFirst<T> {
    fn count() -> usize {
        T::count() + 1
    }

    fn from_usize(i: usize) -> Self {
        let widths = [T::count(), 1];
        let (variant, inner) = locate_variant(&widths, i);
        match variant {
            0 => GenericEnumFirst::First(T::from_usize(inner)),
            _ => GenericEnumFirst::Second,
        }
    }

    fn to_usize(self) -> usize {
        let widths = [T::count(), 1];
        match self {
            GenericEnumFirst::First(x) => variant_offset(&widths, 0) + x.to_usize(),
            GenericEnumFirst::Second => variant_offset(&widths, 1),
        }
    }

    fn name(&self) -> String {
        match self {
            GenericEnumFirst::First(x) => x.name(),
            GenericEnumFirst::Second => "Second".to_string(),
        }
    }
}

#[derive(Debug, Copy, Clone, Ord, PartialOrd, Eq, PartialEq)]
enum ComplexEnum<T>
where
    T: Default + PartialEq + Clone + std::fmt::Debug,
{
    SimpleVariant,
    ComplexVariant(T),
}

impl<T: Derived + Default + PartialEq + Clone + std::fmt::Debug> Derived for ComplexEnum<T> {
    fn count() -> usize {
        1 + T::count()
    }

    fn from_usize(i: usize) -> Self {
        let widths = [1, T::count()];
        let (variant, inner) = locate_variant(&widths, i);
        match variant {
            0 => ComplexEnum::SimpleVariant,
            _ => ComplexEnum::ComplexVariant(T::from_usize(inner)),
        }
    }

    fn to_usize(self) -> usize {
        let widths = [1, T::count()];
        match self {
            ComplexEnum::SimpleVariant => variant_offset(&widths, 0),
            ComplexEnum::ComplexVariant(x) => variant_offset(&widths, 1) + x.to_usize(),
        }
    }

    fn name(&self) -> String {
        match self {
            ComplexEnum::SimpleVariant => "SimpleVariant".to_string(),
            ComplexEnum::ComplexVariant(x) => x.name(),
        }
    }
}

#[test]
fn test_inner_has_correct_size() {
    assert_eq!(4, count::<Inner>());
}

#[test]
fn test_outer_has_correct_size() {
    assert_eq!(8, count::<Outer>());
}

#[test]
fn test_inner_from_usize() {
    let actual = [0, 1, 2, 3].map(Inner::from_usize);
    let expected = [Inner::A, Inner::B, Inner::C, Inner::D];
    assert_eq!(expected, actual);
}

#[test]
fn test_outer_enum_iter() {
    let names = enum_iter::<Outer>().iter().map(|e| e.name()).collect::<Vec<_>>();
    assert_eq!(names, vec!["First", "1", "2", "3", "A", "B", "C", "D"]);
}

#[test]
fn test_complex_enum_from_usize() {
    let actual_with_inner = [0, 1, 2, 3, 4].map(ComplexEnum::<Inner>::from_usize);
    let expected_with_inner = [
        ComplexEnum::SimpleVariant,
        ComplexEnum::ComplexVariant(Inner::A),
        ComplexEnum::ComplexVariant(Inner::B),
        ComplexEnum::ComplexVariant(Inner::C),
        ComplexEnum::ComplexVariant(Inner::D),
    ];
    assert_eq!(expected_with_inner, actual_with_inner);
}

#[test]
fn test_complex_enum_iter() {
    let names = enum_iter::<GenericEnumFirst<Inner>>().iter().map(|e| e.name()).collect::<Vec<_>>();
    assert_eq!(names, vec!["A", "B", "C", "D", "Second"]);
}

#[test]
fn test_generic_enum_from_usize() {
    let actual_with_inner = [0, 1, 2, 3, 4].map(GenericEnumFirst::<Inner>::from_usize);
    let expected_with_inner = [
        GenericEnumFirst::First(Inner::A),
        GenericEnumFirst::First(Inner::B),
        GenericEnumFirst::First(Inner::C),
        GenericEnumFirst::First(Inner::D),
        GenericEnumFirst::Second,
    ];
    assert_eq!(expected_with_inner, actual_with_inner);
}

#[test]
fn derived_numbering_round_trips() {
    for i in 0..count::<Outer>() {
        assert_eq!(i, Outer::from_usize(i).to_usize());
    }
    assert_eq!(Outer::Second(clogbox::enums::seq::<3>(2)).to_usize(), 3);
    assert_eq!(Outer::Third(Inner::B).to_usize(), 5);
}

#[test]
fn variant_offsets_and_locations() {
    let widths = [1usize, 3, 4];
    assert_eq!(variant_offset(&widths, 0), 0);
    assert_eq!(variant_offset(&widths, 1), 1);
    assert_eq!(variant_offset(&widths, 2), 4);
    assert_eq!(variant_offset(&widths, 3), 8);
    assert_eq!(locate_variant(&widths, 0), (0, 0));
    assert_eq!(locate_variant(&widths, 3), (1, 2));
    assert_eq!(locate_variant(&widths, 7), (2, 3));
}
