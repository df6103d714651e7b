//! A ciphersuite over the residues modulo a small prime.
//!
//! Every element is its own discrete logarithm here, so signatures of this
//! suite protect nothing. It meets all that is asked of a ciphersuite, and its
//! values can be worked out by hand. Its hooks normalize, as those of suites
//! with points of even ordinate do: of a key and of its opposite exactly one is
//! even, and that one counts; the same goes for group commitments.
use vstd::arithmetic::mul::lemma_mul_is_distributive_add;
use vstd::prelude::*;

use crate::ciphersuite::{Ciphersuite, SigningPackage, SigningPackageView};
use crate::error::{Error, ErrorView, FieldError, GroupError};
use crate::group::{Field, Group};
use crate::honest::{hooks_normalize, normal_key, normal_key_package, normal_pubkeys};
use crate::identifier::Identifier;
use crate::keys::{
    KeyPackage, KeyPackageView, PublicKeyPackage, PublicKeyPackageView, VerifyingShare,
};
use crate::map::{is_map, lemma_push, IdentifierMap};
use crate::residue::{lemma_congruent_add, lemma_congruent_mul, lemma_residue};
use crate::round1::{
    BindingFactor, GroupCommitment, GroupCommitmentShare, NoncesView, SigningNonces,
};
use crate::round2::{compute_signature_share, SignatureShare};
use crate::signature::{Challenge, Signature, SignatureView, VerifyingKey};

verus! {

/// The order of the group.
pub const ORDER: u8 = 31;

/// The inverse of each nonzero residue.
const INVERSES: [u8; 31] = [
    0, 1, 16, 21, 8, 25, 26, 9, 4, 7, 28, 17, 13, 12, 20, 29, 2, 11, 19, 18, 14, 3, 24, 27, 22, 5,
    6, 23, 10, 15, 30,
];

/// A residue.
#[derive(Clone, Copy, Debug)]
pub struct Residue {
    n: u8,
}

impl View for Residue {
    type V = int;

    /// The least number that leaves this residue.
    closed spec fn view(&self) -> int {
        self.n as int % 31
    }
}

impl Residue {
    /// The residue of `n`.
    pub fn new(n: u8) -> (r: Self)
        ensures
            r@ == n as int % 31,
    {
        Residue { n }
    }

    /// The least number that leaves this residue.
    pub fn get(&self) -> (r: u8)
        ensures
            r == self@,
            r < 31,
    {
        self.n % ORDER
    }
}

/// The field of residues.
pub struct Residues;

impl Field for Residues {
    type Scalar = Residue;

    open spec fn order() -> int {
        31
    }

    open spec fn value(s: Residue) -> int {
        s@
    }

    closed spec fn inverse(x: int) -> int {
        INVERSES@[x] as int
    }

    open spec fn encoding(x: int) -> Seq<u8> {
        seq![x as u8]
    }

    proof fn lemma_order() {
    }

    proof fn lemma_value_range(s: Residue) {
    }

    proof fn lemma_inverse(x: int) {
    }

    proof fn lemma_encoding(x: int, y: int) {
        if Self::encoding(x) == Self::encoding(y) {
            assert(seq![x as u8][0] == seq![y as u8][0]);
        }
    }

    fn zero() -> (r: Residue) {
        Residue::new(0)
    }

    fn one() -> (r: Residue) {
        Residue::new(1)
    }

    fn sum(a: Residue, b: Residue) -> (r: Residue) {
        Residue::new(a.get() + b.get())
    }

    fn difference(a: Residue, b: Residue) -> (r: Residue) {
        Residue::new(a.get() + ORDER - b.get())
    }

    fn product(a: Residue, b: Residue) -> (r: Residue) {
        let (x, y): (u16, u16) = (a.get() as u16, b.get() as u16);
        assert(0 <= x * y <= 900) by (nonlinear_arith)
            requires
                0 <= x <= 30,
                0 <= y <= 30,
        ;
        Residue::new(((x * y) % 31) as u8)
    }

    fn invert(a: Residue) -> (r: Result<Residue, FieldError>) {
        let n: u8 = a.get();
        if n == 0 {
            Err(FieldError::InvalidZeroScalar)
        } else {
            Ok(Residue::new(INVERSES[n as usize]))
        }
    }

    fn same(a: Residue, b: Residue) -> (r: bool) {
        a.get() == b.get()
    }

    fn precedes(a: Residue, b: Residue) -> (r: bool) {
        a.get() < b.get()
    }

    fn serialize(a: Residue) -> (r: Vec<u8>) {
        let mut r: Vec<u8> = Vec::new();
        r.push(a.get());
        assert(r@ =~= Self::encoding(a@));
        r
    }
}

/// The group of residues under addition, generated by one.
pub struct ResidueGroup;

impl Group for ResidueGroup {
    type Field = Residues;

    type Element = Residue;

    open spec fn exponent(e: Residue) -> int {
        e@
    }

    open spec fn encoding(x: int) -> Result<Seq<u8>, GroupError> {
        if x == 0 {
            Err(GroupError::InvalidIdentityElement)
        } else {
            Ok(seq![x as u8])
        }
    }

    proof fn lemma_exponent_range(e: Residue) {
    }

    proof fn lemma_encoding(x: int, y: int) {
        assert(seq![x as u8][0] == x as u8);
        assert(seq![y as u8][0] == y as u8);
    }

    fn identity() -> (r: Residue) {
        Residues::zero()
    }

    fn generator() -> (r: Residue) {
        Residues::one()
    }

    fn sum(a: Residue, b: Residue) -> (r: Residue) {
        Residues::sum(a, b)
    }

    fn scale(a: Residue, s: Residue) -> (r: Residue) {
        Residues::product(a, s)
    }

    fn same(a: Residue, b: Residue) -> (r: bool) {
        Residues::same(a, b)
    }

    fn serialize(a: Residue) -> (r: Result<Vec<u8>, GroupError>) {
        if a.get() == 0 {
            Err(GroupError::InvalidIdentityElement)
        } else {
            Ok(Residues::serialize(a))
        }
    }
}

/// One for the numbers whose residue is even, minus one for the others.
pub open spec fn parity_sign() -> spec_fn(int) -> int {
    |x: int|
        if (x % 31) % 2 == 0 {
            1int
        } else {
            -1int
        }
}

/// Minus one where `odd` holds, and one where not.
spec fn sign_if(odd: bool) -> int {
    if odd {
        -1
    } else {
        1
    }
}

/// Whether the residue is odd.
fn is_odd(x: Residue) -> (r: bool)
    ensures
        parity_sign()(x@) == sign_if(r),
{
    x.get() % 2 == 1
}

/// The residue, or its opposite.
fn flip_if(odd: bool, x: Residue) -> (r: Residue)
    ensures
        r@ == (sign_if(odd) * x@) % 31,
{
    if odd {
        Residues::difference(Residues::zero(), x)
    } else {
        Residue::new(x.get())
    }
}

/// A digest of bytes: they are the digits of a number to the base `base`, which
/// is reduced.
pub open spec fn digest(base: int, m: Seq<u8>) -> int
    decreases m.len(),
{
    if m.len() == 0 {
        0
    } else {
        (digest(base, m.drop_last()) * base + m.last()) % 31
    }
}

/// Computes a digest.
fn compute_digest(base: u8, m: &[u8]) -> (r: u8)
    requires
        base <= 31,
    ensures
        r == digest(base as int, m@),
        r < 31,
{
    let mut r: u16 = 0;
    let mut i: usize = 0;
    while i < m.len()
        invariant
            i <= m.len(),
            base <= 31,
            r == digest(base as int, m@.take(i as int)),
            r < 31,
        decreases m.len() - i,
    {
        assert(m@.take(i + 1).drop_last() =~= m@.take(i as int));
        assert(0 <= r * base <= 961) by (nonlinear_arith)
            requires
                0 <= r <= 31,
                0 <= base <= 31,
        ;
        r = (r * (base as u16) + (m[i] as u16)) % 31;
        i += 1;
    }
    assert(m@.take(i as int) =~= m@);
    r as u8
}

/// The bytes that a challenge is the digest of.
pub open spec fn challenge_input(r: int, key: int, message: Seq<u8>) -> Seq<u8> {
    seq![((parity_sign()(r) * r) % 31) as u8, key as u8] + message
}

/// The ciphersuite of residues.
pub struct EvenResidues;

#[allow(non_snake_case)]
impl Ciphersuite for EvenResidues {
    type Group = ResidueGroup;

    open spec fn h1(m: Seq<u8>) -> int {
        digest(3, m)
    }

    open spec fn h4(m: Seq<u8>) -> Seq<u8> {
        seq![digest(5, m) as u8]
    }

    open spec fn h5(m: Seq<u8>) -> Seq<u8> {
        seq![digest(7, m) as u8]
    }

    open spec fn pre_sign_outcome(
        package: SigningPackageView,
        nonces: NoncesView,
        key: KeyPackageView,
    ) -> Result<(NoncesView, KeyPackageView), ErrorView> {
        Ok((nonces, normal_key_package::<ResidueGroup>(parity_sign(), key)))
    }

    open spec fn pre_aggregate_outcome(
        package: SigningPackageView,
        shares: Seq<(int, int)>,
        pubkeys: PublicKeyPackageView,
    ) -> Result<(Seq<(int, int)>, PublicKeyPackageView), ErrorView> {
        Ok((shares, normal_pubkeys::<ResidueGroup>(parity_sign(), pubkeys)))
    }

    open spec fn challenge_outcome(R: int, key: int, message: Seq<u8>) -> Result<int, ErrorView> {
        Ok(digest(11, challenge_input(R, key, message)))
    }

    open spec fn signature_share(
        R: int,
        nonces: NoncesView,
        factor: int,
        lambda: int,
        key: KeyPackageView,
        c: int,
    ) -> int {
        (parity_sign()(R) * (nonces.hiding + nonces.binding * factor) + lambda * key.signing_share
            * c) % 31
    }

    open spec fn share_verdict(
        R: int,
        share: int,
        identifier: int,
        commitment_share: int,
        verifying_share: int,
        lambda: int,
        c: int,
    ) -> Result<(), ErrorView> {
        if share == (parity_sign()(R) * commitment_share + verifying_share * c * lambda) % 31 {
            Ok(())
        } else {
            Err(ErrorView::InvalidSignatureShare { culprits: seq![identifier] })
        }
    }

    open spec fn signature_verdict(message: Seq<u8>, signature: SignatureView, key: int) -> Result<
        (),
        ErrorView,
    > {
        let normal = normal_key::<ResidueGroup>(parity_sign(), key);
        let c = digest(11, challenge_input(signature.R, normal, message));
        if signature.z == (parity_sign()(signature.R) * signature.R + c * normal) % 31 {
            Ok(())
        } else {
            Err(ErrorView::InvalidSignature)
        }
    }

    fn H1(m: &[u8]) -> (r: Residue) {
        Residue::new(compute_digest(3, m))
    }

    fn H4(m: &[u8]) -> (r: Vec<u8>) {
        let mut r: Vec<u8> = Vec::new();
        r.push(compute_digest(5, m));
        assert(r@ =~= Self::h4(m@));
        r
    }

    fn H5(m: &[u8]) -> (r: Vec<u8>) {
        let mut r: Vec<u8> = Vec::new();
        r.push(compute_digest(7, m));
        assert(r@ =~= Self::h5(m@));
        r
    }

    fn pre_sign(
        signing_package: &SigningPackage<ResidueGroup>,
        signer_nonces: &SigningNonces<ResidueGroup>,
        key_package: &KeyPackage<ResidueGroup>,
    ) -> (r: Result<
        (SigningNonces<ResidueGroup>, KeyPackage<ResidueGroup>),
        Error<ResidueGroup>,
    >) {
        let odd = is_odd(key_package.verifying_key.0);
        let normal = KeyPackage {
            identifier: key_package.identifier,
            signing_share: flip_if(odd, key_package.signing_share),
            verifying_share: VerifyingShare(flip_if(odd, key_package.verifying_share.0)),
            verifying_key: VerifyingKey(flip_if(odd, key_package.verifying_key.0)),
            min_signers: key_package.min_signers,
        };
        Ok((*signer_nonces, normal))
    }

    fn pre_aggregate(
        signing_package: &SigningPackage<ResidueGroup>,
        signature_shares: &IdentifierMap<ResidueGroup, SignatureShare<ResidueGroup>>,
        public_key_package: &PublicKeyPackage<ResidueGroup>,
    ) -> (r: Result<
        (
            IdentifierMap<ResidueGroup, SignatureShare<ResidueGroup>>,
            PublicKeyPackage<ResidueGroup>,
        ),
        Error<ResidueGroup>,
    >) {
        let odd = is_odd(public_key_package.verifying_key.0);
        let ghost expected = normal_pubkeys::<ResidueGroup>(
            parity_sign(),
            public_key_package@,
        ).verifying_shares;
        proof {
            use_type_invariant(&public_key_package.verifying_shares);
            public_key_package.verifying_shares.lemma_is_map();
        }
        let n: usize = public_key_package.verifying_shares.len();
        let mut verifying_shares: IdentifierMap<ResidueGroup, VerifyingShare<ResidueGroup>> =
            IdentifierMap::new();
        let mut i: usize = 0;
        assert(expected.take(0) =~= Seq::<(int, int)>::empty());
        while i < n
            invariant
                i <= n,
                n == public_key_package@.verifying_shares.len(),
                is_map::<ResidueGroup, int>(public_key_package@.verifying_shares),
                parity_sign()(public_key_package@.verifying_key) == sign_if(odd),
                expected == normal_pubkeys::<ResidueGroup>(
                    parity_sign(),
                    public_key_package@,
                ).verifying_shares,
                verifying_shares@ == expected.take(i as int),
            decreases n - i,
        {
            let id = public_key_package.verifying_shares.key_at(i);
            let share = public_key_package.verifying_shares.value_at(i);
            let normal = VerifyingShare(flip_if(odd, share.0));
            let ghost before = verifying_shares@;
            proof {
                use_type_invariant(&verifying_shares);
                verifying_shares.lemma_is_map();
            }
            let _ = verifying_shares.insert(id, normal);
            proof {
                let given = public_key_package@.verifying_shares;
                assert(expected[i as int] == (id@, normal@));
                assert forall|j: int| 0 <= j < before.len() implies (#[trigger] before[j]).0
                    < id@ by {
                    assert(given[j].0 < given[i as int].0);
                }
                lemma_push(before, verifying_shares@, id@, normal@);
                assert(expected.take(i + 1) =~= before.push((id@, normal@)));
            }
            i += 1;
        }
        assert(expected.take(i as int) =~= expected);
        let pubkeys = PublicKeyPackage {
            verifying_shares,
            verifying_key: VerifyingKey(flip_if(odd, public_key_package.verifying_key.0)),
            min_signers: public_key_package.min_signers,
        };
        Ok((signature_shares.clone(), pubkeys))
    }

    fn challenge(
        R: &Residue,
        verifying_key: &VerifyingKey<ResidueGroup>,
        message: &[u8],
    ) -> (r: Result<Challenge<ResidueGroup>, Error<ResidueGroup>>) {
        let mut input: Vec<u8> = Vec::new();
        input.push(flip_if(is_odd(*R), *R).get());
        input.push(verifying_key.0.get());
        input.extend_from_slice(message);
        assert(input@ =~= challenge_input(R@, verifying_key@, message@));
        Ok(Challenge(Residue::new(compute_digest(11, input.as_slice()))))
    }

    fn compute_signature_share(
        group_commitment: &GroupCommitment<ResidueGroup>,
        signer_nonces: &SigningNonces<ResidueGroup>,
        binding_factor: BindingFactor<ResidueGroup>,
        lambda_i: Residue,
        key_package: &KeyPackage<ResidueGroup>,
        challenge: Challenge<ResidueGroup>,
    ) -> (r: SignatureShare<ResidueGroup>) {
        let odd = is_odd(group_commitment.0);
        let nonces = SigningNonces::from_nonces(
            flip_if(odd, signer_nonces.hiding),
            flip_if(odd, signer_nonces.binding),
        );
        proof {
            let v = parity_sign()(group_commitment@);
            let (d, e, f) = (signer_nonces@.hiding, signer_nonces@.binding, binding_factor@);
            let k = lambda_i@ * key_package@.signing_share * challenge@;
            lemma_residue(v * d, 31);
            lemma_residue(v * e, 31);
            lemma_congruent_mul((v * e) % 31, v * e, f, f, 31);
            lemma_congruent_add((v * d) % 31, v * d, ((v * e) % 31) * f, v * e * f, 31);
            lemma_congruent_add(
                (v * d) % 31 + ((v * e) % 31) * f,
                v * d + v * e * f,
                k,
                k,
                31,
            );
            assert(v * e * f == v * (e * f)) by (nonlinear_arith);
            lemma_mul_is_distributive_add(v, d, e * f);
        }
        compute_signature_share(&nonces, binding_factor, lambda_i, key_package, challenge)
    }

    fn verify_share(
        group_commitment: &GroupCommitment<ResidueGroup>,
        signature_share: &SignatureShare<ResidueGroup>,
        identifier: Identifier<ResidueGroup>,
        group_commitment_share: &GroupCommitmentShare<ResidueGroup>,
        verifying_share: &VerifyingShare<ResidueGroup>,
        lambda_i: Residue,
        challenge: &Challenge<ResidueGroup>,
    ) -> (r: Result<(), Error<ResidueGroup>>) {
        let odd = is_odd(group_commitment.0);
        let share = GroupCommitmentShare(flip_if(odd, group_commitment_share.0));
        proof {
            let x = parity_sign()(group_commitment@) * group_commitment_share@;
            let k = verifying_share@ * challenge@ * lambda_i@;
            lemma_residue(x, 31);
            lemma_congruent_add(x % 31, x, k, k, 31);
        }
        signature_share.verify(identifier, &share, verifying_share, lambda_i, *challenge)
    }

    fn verify_signature(
        message: &[u8],
        signature: &Signature<ResidueGroup>,
        public_key: &VerifyingKey<ResidueGroup>,
    ) -> (r: Result<(), Error<ResidueGroup>>) {
        let normal_key = VerifyingKey(flip_if(is_odd(public_key.0), public_key.0));
        let normal = Signature { R: flip_if(is_odd(signature.R), signature.R), z: signature.z };
        proof {
            let x = parity_sign()(signature@.R) * signature@.R;
            let c = digest(11, challenge_input(signature@.R, normal_key@, message@));
            let k = c * normal_key@;
            lemma_residue(x, 31);
            lemma_congruent_add(x % 31, x, k, k, 31);
        }
        match Self::challenge(&signature.R, &normal_key, message) {
            Ok(challenge) => normal_key.verify_prehashed(challenge, &normal),
            Err(e) => Err(e),
        }
    }
}

/// A digest takes in every byte, and the hashes of this suite are digests of all
/// that they are given.
pub proof fn law_hashes_take_in_every_byte(base: int, m: Seq<u8>, b: u8, r: int, key: int)
    ensures
        digest(base, Seq::empty()) == 0,
        digest(base, m.push(b)) == (digest(base, m) * base + b) % 31,
        EvenResidues::h1(m) == digest(3, m),
        EvenResidues::h4(m) == seq![digest(5, m) as u8],
        EvenResidues::h5(m) == seq![digest(7, m) as u8],
        EvenResidues::challenge_outcome(r, key, m) == Ok::<int, ErrorView>(
            digest(11, seq![((parity_sign()(r) * r) % 31) as u8, key as u8] + m),
        ),
{
    assert(m.push(b).drop_last() =~= m);
}

/// The hooks of this suite normalize to even keys and even group commitments.
pub proof fn law_hooks_normalize()
    ensures
        hooks_normalize::<EvenResidues>(parity_sign(), parity_sign()),
{
}

} // verus!
