//! Multiplication of several elements at once.
use vstd::prelude::*;

use crate::group::{order, value, Element, Field, Group, Scalar};
use crate::residue::{lemma_congruent_add, lemma_in_range, lemma_residue};

verus! {

/// The sum of the products of the members of `a` and `b`.
pub open spec fn dot(a: Seq<int>, b: Seq<int>) -> int
    decreases a.len(),
{
    if a.len() == 0 {
        0
    } else {
        dot(a.drop_last(), b.drop_last()) + a.last() * b.last()
    }
}

/// The values of scalars.
pub open spec fn scalar_values<G: Group>(s: Seq<Scalar<G>>) -> Seq<int> {
    s.map_values(|x: Scalar<G>| value::<G>(x))
}

/// The exponents of elements.
pub open spec fn exponents<G: Group>(s: Seq<Element<G>>) -> Seq<int> {
    s.map_values(|x: Element<G>| G::exponent(x))
}

/// The sum of the multiples of `elements` by `scalars`.
pub fn vartime_multiscalar_mul<G: Group>(
    scalars: &Vec<Scalar<G>>,
    elements: &Vec<Element<G>>,
) -> (r: Element<G>)
    requires
        scalars.len() == elements.len(),
    ensures
        G::exponent(r) == dot(scalar_values::<G>(scalars@), exponents::<G>(elements@)) % order::<
            G,
        >(),
{
    let ghost a = scalar_values::<G>(scalars@);
    let ghost b = exponents::<G>(elements@);
    let ghost m = order::<G>();
    let mut r = G::identity();
    let mut i: usize = 0;
    proof {
        G::Field::lemma_order();
        lemma_in_range(0, m);
    }
    while i < scalars.len()
        invariant
            i <= scalars.len(),
            scalars.len() == elements.len(),
            a == scalar_values::<G>(scalars@),
            b == exponents::<G>(elements@),
            m == order::<G>(),
            m > 1,
            G::exponent(r) == dot(a.take(i as int), b.take(i as int)) % m,
        decreases scalars.len() - i,
    {
        proof {
            let sum = dot(a.take(i as int), b.take(i as int));
            assert(a.take(i + 1).drop_last() =~= a.take(i as int));
            assert(b.take(i + 1).drop_last() =~= b.take(i as int));
            let x = a[i as int] * b[i as int];
            assert(b[i as int] * a[i as int] == x) by (nonlinear_arith)
                requires
                    x == a[i as int] * b[i as int],
            ;
            lemma_residue(sum, m);
            lemma_residue(x, m);
            lemma_congruent_add(sum % m, sum, x % m, x, m);
        }
        r = G::sum(r, G::scale(elements[i], scalars[i]));
        i += 1;
    }
    assert(a.take(i as int) =~= a);
    assert(b.take(i as int) =~= b);
    r
}

} // verus!
