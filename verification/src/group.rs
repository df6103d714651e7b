//! Prime-order groups and their scalar fields.
//!
//! A scalar is modelled by its value, an integer from 0 up to the order of
//! the group. The group is cyclic, so an element is modelled by its exponent:
//! the value of the scalar that takes the generator to it. Sums of elements are
//! then sums of exponents, and a multiple of an element is a product, both
//! modulo the order.
use vstd::prelude::*;

use crate::error::{FieldError, GroupError};

verus! {

/// A prime-order finite field, over which the scalars of a group are defined.
pub trait Field: Sized {
    /// An element of the field.
    type Scalar: Copy;

    /// The number of elements of the field.
    spec fn order() -> int;

    /// The value of a scalar.
    spec fn value(s: Self::Scalar) -> int;

    /// The multiplicative inverse of a nonzero value.
    spec fn inverse(x: int) -> int;

    /// The bytes that [`Field::serialize`] gives for a value.
    spec fn encoding(x: int) -> Seq<u8>;

    /// The field has a zero and a one.
    proof fn lemma_order()
        ensures
            Self::order() > 1,
    ;

    /// The value of a scalar is a residue modulo the order.
    proof fn lemma_value_range(s: Self::Scalar)
        ensures
            0 <= Self::value(s) < Self::order(),
    ;

    /// Every nonzero residue is invertible.
    proof fn lemma_inverse(x: int)
        requires
            0 < x < Self::order(),
        ensures
            0 <= Self::inverse(x) < Self::order(),
            (x * Self::inverse(x)) % Self::order() == 1,
    ;

    /// A scalar is encoded as a unique byte string of fixed length.
    proof fn lemma_encoding(x: int, y: int)
        requires
            0 <= x < Self::order(),
            0 <= y < Self::order(),
        ensures
            Self::encoding(x).len() == Self::encoding(y).len(),
            Self::encoding(x) == Self::encoding(y) ==> x == y,
    ;

    /// The zero of the field.
    fn zero() -> (r: Self::Scalar)
        ensures
            Self::value(r) == 0,
    ;

    /// The one of the field.
    fn one() -> (r: Self::Scalar)
        ensures
            Self::value(r) == 1,
    ;

    /// The sum of two scalars.
    fn sum(a: Self::Scalar, b: Self::Scalar) -> (r: Self::Scalar)
        ensures
            Self::value(r) == (Self::value(a) + Self::value(b)) % Self::order(),
    ;

    /// The difference of two scalars.
    fn difference(a: Self::Scalar, b: Self::Scalar) -> (r: Self::Scalar)
        ensures
            Self::value(r) == (Self::value(a) - Self::value(b)) % Self::order(),
    ;

    /// The product of two scalars.
    fn product(a: Self::Scalar, b: Self::Scalar) -> (r: Self::Scalar)
        ensures
            Self::value(r) == (Self::value(a) * Self::value(b)) % Self::order(),
    ;

    /// The inverse of a scalar. Zero has none.
    fn invert(a: Self::Scalar) -> (r: Result<Self::Scalar, FieldError>)
        ensures
            Self::value(a) == 0 ==> r == Err::<Self::Scalar, FieldError>(
                FieldError::InvalidZeroScalar,
            ),
            Self::value(a) != 0 ==> (r matches Ok(b) && Self::value(b) == Self::inverse(
                Self::value(a),
            )),
    ;

    /// Whether two scalars have the same value.
    fn same(a: Self::Scalar, b: Self::Scalar) -> (r: bool)
        ensures
            r == (Self::value(a) == Self::value(b)),
    ;

    /// Whether the value of one scalar is less than that of another.
    fn precedes(a: Self::Scalar, b: Self::Scalar) -> (r: bool)
        ensures
            r == (Self::value(a) < Self::value(b)),
    ;

    /// The bytes of a scalar.
    fn serialize(a: Self::Scalar) -> (r: Vec<u8>)
        ensures
            r@ == Self::encoding(Self::value(a)),
    ;
}

/// A prime-order group that provides what Schnorr signatures need.
pub trait Group: Sized {
    /// The scalar field of the group.
    type Field: Field;

    /// An element of the group.
    type Element: Copy;

    /// The exponent of an element: the multiple of the generator that it is.
    spec fn exponent(e: Self::Element) -> int;

    /// What [`Group::serialize`] gives for the element with an exponent.
    spec fn encoding(x: int) -> Result<Seq<u8>, GroupError>;

    /// The exponent of an element is a residue modulo the order.
    proof fn lemma_exponent_range(e: Self::Element)
        ensures
            0 <= Self::exponent(e) < Self::Field::order(),
    ;

    /// An element that can be encoded is encoded as a unique byte string of
    /// fixed length.
    proof fn lemma_encoding(x: int, y: int)
        requires
            0 <= x < Self::Field::order(),
            0 <= y < Self::Field::order(),
            Self::encoding(x) is Ok,
            Self::encoding(y) is Ok,
        ensures
            Self::encoding(x)->Ok_0.len() == Self::encoding(y)->Ok_0.len(),
            Self::encoding(x)->Ok_0 == Self::encoding(y)->Ok_0 ==> x == y,
    ;

    /// The identity of the group.
    fn identity() -> (r: Self::Element)
        ensures
            Self::exponent(r) == 0,
    ;

    /// The generator of the group.
    fn generator() -> (r: Self::Element)
        ensures
            Self::exponent(r) == 1,
    ;

    /// The sum of two elements.
    fn sum(a: Self::Element, b: Self::Element) -> (r: Self::Element)
        ensures
            Self::exponent(r) == (Self::exponent(a) + Self::exponent(b)) % Self::Field::order(),
    ;

    /// A multiple of an element.
    fn scale(a: Self::Element, s: Scalar<Self>) -> (r: Self::Element)
        ensures
            Self::exponent(r) == (Self::exponent(a) * Self::Field::value(s))
                % Self::Field::order(),
    ;

    /// Whether two elements are the same.
    fn same(a: Self::Element, b: Self::Element) -> (r: bool)
        ensures
            r == (Self::exponent(a) == Self::exponent(b)),
    ;

    /// The bytes of an element. Elements that a group refuses to encode, such as
    /// the identity, are an error.
    fn serialize(a: Self::Element) -> (r: Result<Vec<u8>, GroupError>)
        ensures
            match r {
                Ok(bytes) => Self::encoding(Self::exponent(a)) == Ok::<Seq<u8>, GroupError>(
                    bytes@,
                ),
                Err(e) => Self::encoding(Self::exponent(a)) == Err::<Seq<u8>, GroupError>(e),
            },
    ;
}

/// The scalars of a group.
pub type Scalar<G> = <<G as Group>::Field as Field>::Scalar;

/// The elements of a group.
pub type Element<G> = <G as Group>::Element;

/// The numbers of specifications, under a name that implementations of the
/// traits in plain Rust can write.
pub type SpecInteger = int;

/// The byte strings of specifications, under a name that implementations of the
/// traits in plain Rust can write.
pub type SpecBytes = Seq<u8>;

/// The order of a group.
pub open spec fn order<G: Group>() -> int {
    G::Field::order()
}

/// Whether an integer is a residue modulo the order of a group: the value of a
/// scalar, and the exponent of an element.
pub open spec fn is_residue<G: Group>(x: int) -> bool {
    0 <= x < order::<G>()
}

/// The value of a scalar of a group.
pub open spec fn value<G: Group>(s: Scalar<G>) -> int {
    G::Field::value(s)
}

} // verus!
