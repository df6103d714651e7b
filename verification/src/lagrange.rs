//! Lagrange coefficients.
use vstd::prelude::*;

use crate::error::{Error, ErrorView};
use crate::group::{order, value, Field, Group, Scalar};
use crate::identifier::{is_identifier, values, Identifier};
use crate::residue::{lemma_congruent_mul, lemma_in_range, lemma_residue};

verus! {

/// The product of the members of `xs` other than `x`.
pub open spec fn numerator(xs: Seq<int>, x: int) -> int
    decreases xs.len(),
{
    if xs.len() == 0 {
        1
    } else if xs.last() == x {
        numerator(xs.drop_last(), x)
    } else {
        numerator(xs.drop_last(), x) * xs.last()
    }
}

/// The product of the differences between `x` and the members of `xs` other
/// than `x`.
pub open spec fn denominator(xs: Seq<int>, x: int) -> int
    decreases xs.len(),
{
    if xs.len() == 0 {
        1
    } else if xs.last() == x {
        denominator(xs.drop_last(), x)
    } else {
        denominator(xs.drop_last(), x) * (xs.last() - x)
    }
}

/// The Lagrange coefficient of `x` among the points `xs`, at zero.
pub open spec fn lagrange<F: Field>(xs: Seq<int>, x: int) -> int {
    (numerator(xs, x) * F::inverse(denominator(xs, x) % F::order())) % F::order()
}

/// What [`compute_lagrange_coefficient`] comes to.
pub open spec fn lagrange_outcome<F: Field>(xs: Seq<int>, x: int) -> Result<int, ErrorView> {
    if xs.len() == 0 {
        Err(ErrorView::IncorrectNumberOfIdentifiers)
    } else if !xs.contains(x) {
        Err(ErrorView::UnknownIdentifier)
    } else {
        Ok(lagrange::<F>(xs, x))
    }
}

/// A product of nonzero residues is not zero.
pub proof fn lemma_nonzero_product<F: Field>(a: int, b: int)
    requires
        a % F::order() != 0,
        b % F::order() != 0,
    ensures
        (a * b) % F::order() != 0,
{
    let m = F::order();
    F::lemma_order();
    lemma_residue(a, m);
    lemma_residue(b, m);
    F::lemma_inverse(a % m);
    let i = F::inverse(a % m);
    if (a * b) % m == 0 {
        // b == (a * i) * b == i * (a * b) == 0
        lemma_in_range(0, m);
        lemma_congruent_mul(i, i, a * b, 0, m);
        lemma_congruent_mul(a, a % m, i, i, m);
        lemma_in_range(1, m);
        lemma_congruent_mul(a * i, 1, b, b, m);
        assert(i * (a * b) == a * i * b) by (nonlinear_arith);
        assert(i * 0 == 0) by (nonlinear_arith);
        assert(1 * b == b);
    }
}

/// Different identifiers differ modulo the order.
pub proof fn lemma_distinct<F: Field>(a: int, b: int)
    requires
        0 <= a < F::order(),
        0 <= b < F::order(),
        a != b,
    ensures
        (a - b) % F::order() != 0,
{
    let m = F::order();
    if (a - b) % m == 0 {
        if a > b {
            lemma_in_range(a - b, m);
        } else {
            lemma_in_range(a - b + m, m);
            assert((a - b + m) % m == (a - b) % m) by {
                vstd::arithmetic::div_mod::lemma_mod_add_multiples_vanish(a - b, m);
            }
        }
    }
}

/// Computes the Lagrange coefficient of the signer `x_i` among the signers
/// `x_set`, at zero.
pub fn compute_lagrange_coefficient<G: Group>(
    x_set: &Vec<Identifier<G>>,
    x_i: Identifier<G>,
) -> (r: Result<Scalar<G>, Error<G>>)
    ensures
        match r {
            Ok(lambda) => lagrange_outcome::<G::Field>(values(x_set@), x_i@) == Ok::<
                int,
                ErrorView,
            >(value::<G>(lambda)),
            Err(e) => lagrange_outcome::<G::Field>(values(x_set@), x_i@) == Err::<int, ErrorView>(
                e@,
            ),
        },
{
    if x_set.len() == 0 {
        return Err(Error::IncorrectNumberOfIdentifiers);
    }
    let ghost xs = values(x_set@);
    let ghost m = order::<G>();
    let at = x_i.to_scalar();
    let mut num = G::Field::one();
    let mut den = G::Field::one();
    let mut found = false;
    let mut j: usize = 0;
    proof {
        G::Field::lemma_order();
        lemma_in_range(1, m);
        assert(xs.take(0) =~= Seq::<int>::empty());
    }
    while j < x_set.len()
        invariant
            j <= x_set.len(),
            xs == values(x_set@),
            m == order::<G>(),
            m > 1,
            value::<G>(at) == x_i@,
            is_identifier::<G>(x_i@),
            value::<G>(num) == numerator(xs.take(j as int), x_i@) % m,
            value::<G>(den) == denominator(xs.take(j as int), x_i@) % m,
            value::<G>(den) != 0,
            found == xs.take(j as int).contains(x_i@),
        decreases x_set.len() - j,
    {
        let x_j = x_set[j].to_scalar();
        proof {
            let prefix = xs.take(j as int);
            let next = xs.take(j + 1);
            assert(next.drop_last() =~= prefix);
            assert(next.last() == value::<G>(x_j));
            assert(next =~= prefix.push(value::<G>(x_j)));
            assert(next.contains(x_i@) == (prefix.contains(x_i@) || value::<G>(x_j) == x_i@)) by {
                if prefix.contains(x_i@) {
                    let k = choose|k: int| 0 <= k < prefix.len() && prefix[k] == x_i@;
                    assert(next[k] == x_i@);
                }
                if value::<G>(x_j) == x_i@ {
                    assert(next[j as int] == x_i@);
                }
                if next.contains(x_i@) {
                    let k = choose|k: int| 0 <= k < next.len() && next[k] == x_i@;
                    if k < j {
                        assert(prefix[k] == x_i@);
                    }
                }
            }
        }
        if G::Field::same(x_j, at) {
            found = true;
        } else {
            let gap = G::Field::difference(x_j, at);
            proof {
                let n = numerator(xs.take(j as int), x_i@);
                let d = denominator(xs.take(j as int), x_i@);
                let x = value::<G>(x_j);
                lemma_residue(n, m);
                lemma_residue(d, m);
                lemma_residue(x - x_i@, m);
                lemma_congruent_mul(n % m, n, x, x, m);
                lemma_congruent_mul(d % m, d, (x - x_i@) % m, x - x_i@, m);
                lemma_distinct::<G::Field>(x, x_i@);
                lemma_nonzero_product::<G::Field>(d, x - x_i@);
            }
            num = G::Field::product(num, x_j);
            den = G::Field::product(den, gap);
        }
        j += 1;
    }
    assert(xs.take(j as int) =~= xs);
    if !found {
        return Err(Error::UnknownIdentifier);
    }
    match G::Field::invert(den) {
        Ok(inverse) => {
            proof {
                let n = numerator(xs, x_i@);
                let i = value::<G>(inverse);
                lemma_residue(n, m);
                lemma_congruent_mul(n % m, n, i, i, m);
            }
            Ok(G::Field::product(num, inverse))
        },
        Err(_) => Err(Error::DuplicatedIdentifier),
    }
}

} // verus!
