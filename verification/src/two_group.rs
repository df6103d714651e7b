//! Two-group FROST signing with group-tagged binding factors.
//!
//! Two groups of signers, each of them t-of-n with an identifier space of its
//! own, sign one message under one key. The two identifier spaces are
//! independent and may collide numerically, so every collection in this module
//! is keyed by `(group, identifier)` and the binding-factor preimage is
//! domain-separated by a one-byte group tag:
//!
//! ```text
//! rho_i = H1(tag(group(i)) || vk || H4(msg) || H5(commitment_list) || id(i))
//! commitment_list = concatenation, over all signers of both groups sorted
//!                   by (tag, identifier), of
//!                   tag || identifier || hiding || binding
//! ```
//!
//! The tag appears both in each signer's own preimage and in every
//! commitment-list entry, so signers whose identifiers collide across groups
//! alias in neither the per-signer factor nor the commitment-set hash.
//! Everything else (the group commitment `R`, the challenge, per-signer share
//! computation and verification) goes through the [`Ciphersuite`] hooks, so
//! that nonces are normalized, for instance, by the one `R` over both groups'
//! commitments.
//!
//! Each signer's Lagrange coefficient is computed within its own group over
//! that group's participating identifiers, and is folded into the signer's
//! share; [`aggregate`] only ever sums shares.
//!
//! Limitations, by design: the pre-processing hooks see a [`SigningPackage`]
//! that carries only the relevant group's commitments, so no ciphersuite is
//! served whose hooks depend on the commitment set or transform signature
//! shares.
use vstd::prelude::*;

use crate::ciphersuite::{Ciphersuite, SigningPackage};
use crate::error::{outcome, Error, ErrorView};
use crate::group::{order, value, Element, Field, Group, Scalar};
use crate::identifier::{values, Identifier};
use crate::keys::{KeyPackage, PublicKeyPackage};
use crate::lagrange::compute_lagrange_coefficient;
use crate::map::{
    distinct, has_key, keys, lemma_lookup, lemma_same_keys, lookup, IdentifierMap,
};
use crate::residue::{lemma_congruent_add, lemma_in_range, lemma_residue};
use crate::round1::{in_group, BindingFactor, GroupCommitment, SigningCommitments, SigningNonces};
use crate::round2::SignatureShare;
use crate::scalar_mul::{dot, exponents, scalar_values, vartime_multiscalar_mul};
use crate::scheme::{
    aggregate_outcome, all_known, are_in_group, blame, commitment_list, commitment_of,
    commitment_sum, commits_to_identity, common_suffix, culprits_of, defect, entry_encoding,
    factor_of, factors_of, first_defect, group_commitment_outcome, is_package, members, preimage,
    preimages, prepared_aggregate_outcome, prepared_sign_outcome, share_sum, sign_outcome,
    PackageView, Signer,
};
use crate::signature::{serialize_element, Challenge, Signature, VerifyingKey};

verus! {

/// Which of the two signing groups a signer belongs to.
///
/// The variant order defines the domain-separation tag byte and the
/// commitment-list ordering; it is part of the wire-level scheme and MUST NOT
/// change.
#[derive(Clone, Copy, Debug, PartialEq, Eq, Ord, Structural)]
pub enum SignerGroup {
    /// The first group (tag byte `0x00`).
    Primary,
    /// The second group (tag byte `0x01`).
    Secondary,
}

impl SignerGroup {
    /// The domain-separation tag byte for this group.
    pub open spec fn tag_byte(self) -> u8 {
        match self {
            SignerGroup::Primary => 0x00,
            SignerGroup::Secondary => 0x01,
        }
    }

    /// The domain-separation tag byte for this group.
    pub fn tag(self) -> (r: u8)
        ensures
            r == self.tag_byte(),
    {
        match self {
            SignerGroup::Primary => 0x00,
            SignerGroup::Secondary => 0x01,
        }
    }
}

impl PartialOrd for SignerGroup {
    /// Groups are ordered by their tag bytes.
    fn partial_cmp(&self, other: &Self) -> (r: Option<core::cmp::Ordering>) {
        let (a, b): (u8, u8) = (self.tag(), other.tag());
        if a < b {
            Some(core::cmp::Ordering::Less)
        } else if a == b {
            Some(core::cmp::Ordering::Equal)
        } else {
            Some(core::cmp::Ordering::Greater)
        }
    }
}

impl vstd::std_specs::cmp::PartialOrdSpecImpl for SignerGroup {
    open spec fn obeys_partial_cmp_spec() -> bool {
        true
    }

    open spec fn partial_cmp_spec(&self, other: &Self) -> Option<core::cmp::Ordering> {
        if self.tag_byte() < other.tag_byte() {
            Some(core::cmp::Ordering::Less)
        } else if self.tag_byte() == other.tag_byte() {
            Some(core::cmp::Ordering::Equal)
        } else {
            Some(core::cmp::Ordering::Greater)
        }
    }
}

/// The group-tagged H1 preimages of every signer's binding factor, in
/// `(tag, identifier)` order.
pub type BindingFactorPreimages<G> = Vec<((SignerGroup, Identifier<G>), Vec<u8>)>;

/// The signers and the bytes of preimages.
pub open spec fn preimage_views<G: Group>(
    preimages: Seq<((SignerGroup, Identifier<G>), Vec<u8>)>,
) -> Seq<((SignerGroup, int), Seq<u8>)> {
    preimages.map_values(
        |e: ((SignerGroup, Identifier<G>), Vec<u8>)| ((e.0.0, e.0.1@), e.1@),
    )
}

/// The values of signers.
spec fn signer_views<G: Group>(
    signers: Seq<(SignerGroup, Identifier<G>, SigningCommitments<G>)>,
) -> Seq<Signer> {
    signers.map_values(
        |s: (SignerGroup, Identifier<G>, SigningCommitments<G>)|
            Signer { group: s.0, identifier: s.1@, commitments: s.2@ },
    )
}

/// Appends the signers of one group to `signers`.
fn append_members<G: Group>(
    signers: &mut Vec<(SignerGroup, Identifier<G>, SigningCommitments<G>)>,
    group: SignerGroup,
    commitments: &IdentifierMap<G, SigningCommitments<G>>,
)
    ensures
        signer_views(final(signers)@) == signer_views(old(signers)@) + members(
            group,
            commitments@,
        ),
{
    let ghost before = signer_views(signers@);
    let n: usize = commitments.len();
    let mut i: usize = 0;
    assert(signer_views(signers@) =~= before + members(group, commitments@.take(0)));
    while i < n
        invariant
            i <= n,
            n == commitments@.len(),
            signer_views(signers@) == before + members(group, commitments@.take(i as int)),
        decreases n - i,
    {
        let ghost current = signers@;
        signers.push((group, commitments.key_at(i), *commitments.value_at(i)));
        i += 1;
        proof {
            assert(signer_views(signers@) =~= signer_views(current).push(
                signer_views(signers@).last(),
            ));
            assert(signer_views(signers@) =~= before + members(group, commitments@.take(i as int)));
        }
    }
    assert(commitments@.take(i as int) =~= commitments@);
}

/// The binding factor of every signer, keyed by `(group, identifier)`.
struct BindingFactors<G: Group> {
    entries: Vec<((SignerGroup, Identifier<G>), BindingFactor<G>)>,
}

impl<G: Group> View for BindingFactors<G> {
    type V = Seq<((SignerGroup, int), int)>;

    closed spec fn view(&self) -> Seq<((SignerGroup, int), int)> {
        self.entries@.map_values(
            |e: ((SignerGroup, Identifier<G>), BindingFactor<G>)| ((e.0.0, e.0.1@), e.1@),
        )
    }
}

impl<G: Group> BindingFactors<G> {
    #[verifier::type_invariant]
    spec fn no_duplicates(self) -> bool {
        distinct(self@)
    }

    /// The binding factor of a signer.
    fn get(&self, group: SignerGroup, identifier: &Identifier<G>) -> (r: Option<BindingFactor<G>>)
        ensures
            match r {
                Some(factor) => lookup(self@, (group, identifier@)) == Some(factor@),
                None => lookup(self@, (group, identifier@)) is None,
            },
    {
        proof {
            use_type_invariant(self);
        }
        let mut i: usize = 0;
        while i < self.entries.len()
            invariant
                i <= self.entries.len(),
                distinct(self@),
                forall|j: int| 0 <= j < i ==> (#[trigger] self@[j]).0 != (group, identifier@),
            decreases self.entries.len() - i,
        {
            let key = self.entries[i].0;
            assert(self@[i as int].0 == (key.0, key.1@));
            if key.0 == group && key.1 == *identifier {
                proof {
                    lemma_lookup(self@, i as int);
                }
                return Some(self.entries[i].1);
            }
            i += 1;
        }
        None
    }
}

/// The message and both groups' round-one commitments for one two-group
/// signing run.
///
/// The commitments of the two groups are kept in separate maps because their
/// identifier spaces are independent: the same identifier scalar may appear
/// in both groups and refers to two different signers.
pub struct TwoGroupSigningPackage<C: Ciphersuite> {
    primary_commitments: IdentifierMap<C::Group, SigningCommitments<C::Group>>,
    secondary_commitments: IdentifierMap<C::Group, SigningCommitments<C::Group>>,
    message: Vec<u8>,
}

impl<C: Ciphersuite> View for TwoGroupSigningPackage<C> {
    type V = PackageView;

    closed spec fn view(&self) -> PackageView {
        PackageView {
            primary: self.primary_commitments@,
            secondary: self.secondary_commitments@,
            message: self.message@,
        }
    }
}

impl<C: Ciphersuite> Clone for TwoGroupSigningPackage<C> {
    fn clone(&self) -> (r: Self)
        ensures
            r@ == self@,
    {
        proof {
            use_type_invariant(self);
        }
        TwoGroupSigningPackage {
            primary_commitments: self.primary_commitments.clone(),
            secondary_commitments: self.secondary_commitments.clone(),
            message: vstd::slice::slice_to_vec(self.message.as_slice()),
        }
    }
}

/// Commitments are of elements of the group.
proof fn lemma_in_group<G: Group>(commitments: IdentifierMap<G, SigningCommitments<G>>)
    ensures
        are_in_group::<G>(commitments@),
{
    assert forall|i: int| 0 <= i < commitments@.len() implies in_group::<G>(
        (#[trigger] commitments@[i]).1,
    ) by {
        let c = commitments.lemma_value_at(i);
        G::lemma_exponent_range(c.hiding);
        G::lemma_exponent_range(c.binding);
    }
}

/// Whether two maps hold the same commitments of the same signers.
fn same_commitments<G: Group>(
    a: &IdentifierMap<G, SigningCommitments<G>>,
    b: &IdentifierMap<G, SigningCommitments<G>>,
) -> (r: bool)
    ensures
        r == (a@ == b@),
{
    let n: usize = a.len();
    if n != b.len() {
        return false;
    }
    let mut i: usize = 0;
    while i < n
        invariant
            i <= n,
            n == a@.len(),
            n == b@.len(),
            forall|j: int| 0 <= j < i ==> #[trigger] a@[j] == b@[j],
        decreases n - i,
    {
        if a.key_at(i) != b.key_at(i) || *a.value_at(i) != *b.value_at(i) {
            assert(a@[i as int] != b@[i as int]);
            return false;
        }
        i += 1;
    }
    assert(a@ =~= b@);
    true
}

/// Whether two messages are the same.
fn same_message(a: &[u8], b: &[u8]) -> (r: bool)
    ensures
        r == (a@ == b@),
{
    if a.len() != b.len() {
        return false;
    }
    let mut i: usize = 0;
    while i < a.len()
        invariant
            i <= a.len(),
            a.len() == b.len(),
            forall|j: int| 0 <= j < i ==> #[trigger] a@[j] == b@[j],
        decreases a.len() - i,
    {
        if a[i] != b[i] {
            return false;
        }
        i += 1;
    }
    assert(a@ =~= b@);
    true
}

impl<C: Ciphersuite> PartialEq for TwoGroupSigningPackage<C> {
    fn eq(&self, other: &Self) -> (r: bool) {
        same_commitments(&self.primary_commitments, &other.primary_commitments)
            && same_commitments(&self.secondary_commitments, &other.secondary_commitments)
            && same_message(self.message.as_slice(), other.message.as_slice())
    }
}

impl<C: Ciphersuite> vstd::std_specs::cmp::PartialEqSpecImpl for TwoGroupSigningPackage<C> {
    open spec fn obeys_eq_spec() -> bool {
        true
    }

    open spec fn eq_spec(&self, other: &Self) -> bool {
        self@ == other@
    }
}

impl<C: Ciphersuite> Eq for TwoGroupSigningPackage<C> {

}

impl<C: Ciphersuite> TwoGroupSigningPackage<C> {
    /// Both groups take part, with commitments of elements of the group.
    #[verifier::type_invariant]
    spec fn well_formed(self) -> bool {
        is_package::<C::Group>(self@)
    }

    /// Creates a package from both groups' commitments and the message.
    /// Both groups must have at least one participating signer.
    pub fn new(
        primary_commitments: IdentifierMap<C::Group, SigningCommitments<C::Group>>,
        secondary_commitments: IdentifierMap<C::Group, SigningCommitments<C::Group>>,
        message: &[u8],
    ) -> (r: Result<Self, Error<C::Group>>)
        ensures
            outcome(r) == if primary_commitments@.len() == 0 || secondary_commitments@.len() == 0 {
                Err(ErrorView::IncorrectNumberOfCommitments)
            } else {
                Ok(
                    PackageView {
                        primary: primary_commitments@,
                        secondary: secondary_commitments@,
                        message: message@,
                    },
                )
            },
    {
        if primary_commitments.is_empty() || secondary_commitments.is_empty() {
            return Err(Error::IncorrectNumberOfCommitments);
        }
        proof {
            use_type_invariant(&primary_commitments);
            primary_commitments.lemma_is_map();
            lemma_in_group(primary_commitments);
            use_type_invariant(&secondary_commitments);
            secondary_commitments.lemma_is_map();
            lemma_in_group(secondary_commitments);
        }
        Ok(
            TwoGroupSigningPackage {
                primary_commitments,
                secondary_commitments,
                message: vstd::slice::slice_to_vec(message),
            },
        )
    }

    /// The message to be signed.
    pub fn message(&self) -> (r: &[u8])
        ensures
            r@ == self@.message,
    {
        self.message.as_slice()
    }

    /// The given group's commitments. A package always has signers of both
    /// groups, and their commitments are of elements of the group.
    pub fn signing_commitments(&self, group: SignerGroup) -> (r: &IdentifierMap<
        C::Group,
        SigningCommitments<C::Group>,
    >)
        ensures
            r@ == self@.commitments(group),
            is_package::<C::Group>(self@),
    {
        proof {
            use_type_invariant(self);
        }
        match group {
            SignerGroup::Primary => &self.primary_commitments,
            SignerGroup::Secondary => &self.secondary_commitments,
        }
    }

    /// All signers of both groups in `(tag, identifier)` order, the canonical
    /// order of the commitment-list encoding.
    fn iter_all(&self) -> (r: Vec<
        (SignerGroup, Identifier<C::Group>, SigningCommitments<C::Group>),
    >)
        ensures
            signer_views(r@) == self@.signers(),
    {
        let mut r: Vec<(SignerGroup, Identifier<C::Group>, SigningCommitments<C::Group>)> =
            Vec::new();
        assert(signer_views(r@) =~= Seq::<Signer>::empty());
        append_members(&mut r, SignerGroup::Primary, &self.primary_commitments);
        append_members(&mut r, SignerGroup::Secondary, &self.secondary_commitments);
        assert(signer_views(r@) =~= self@.signers());
        r
    }

    /// Encodes both groups' commitments in `(tag, identifier)` order, each
    /// entry as `tag || identifier || hiding || binding`.
    fn encode_tagged_commitments(&self) -> (r: Result<Vec<u8>, Error<C::Group>>)
        ensures
            outcome(r) == commitment_list::<C::Group>(self@.signers()),
    {
        let signers = self.iter_all();
        let ghost all = self@.signers();
        let mut bytes: Vec<u8> = Vec::new();
        let mut i: usize = 0;
        while i < signers.len()
            invariant
                i <= signers.len(),
                all == self@.signers(),
                all == signer_views(signers@),
                commitment_list::<C::Group>(all.take(i as int)) == Ok::<Seq<u8>, ErrorView>(bytes@),
            decreases signers.len() - i,
        {
            let (group, identifier, commitment) = signers[i];
            proof {
                assert(all.take(i + 1).drop_last() =~= all.take(i as int));
                assert(all.take(i + 1).last() == (Signer {
                    group,
                    identifier: identifier@,
                    commitments: commitment@,
                }));
            }
            let ghost prefix = bytes@;
            bytes.push(group.tag());
            bytes.extend_from_slice(identifier.serialize().as_slice());
            match serialize_element::<C::Group>(commitment.hiding) {
                Ok(hiding) => bytes.extend_from_slice(hiding.as_slice()),
                Err(e) => {
                    proof {
                        lemma_first_failure::<C::Group>(all, i as int);
                    }
                    return Err(e);
                },
            }
            match serialize_element::<C::Group>(commitment.binding) {
                Ok(binding) => bytes.extend_from_slice(binding.as_slice()),
                Err(e) => {
                    proof {
                        lemma_first_failure::<C::Group>(all, i as int);
                    }
                    return Err(e);
                },
            }
            proof {
                let entry = entry_encoding::<C::Group>(all[i as int])->Ok_0;
                assert(bytes@ =~= prefix + entry);
            }
            i += 1;
        }
        assert(all.take(i as int) =~= all);
        Ok(bytes)
    }

    /// Computes the group-tagged H1 preimages of every signer's binding
    /// factor, in `(tag, identifier)` order.
    pub fn binding_factor_preimages(&self, verifying_key: &VerifyingKey<C::Group>) -> (r: Result<
        BindingFactorPreimages<C::Group>,
        Error<C::Group>,
    >)
        ensures
            match r {
                Ok(v) => preimages::<C>(self@, verifying_key@) == Ok::<
                    Seq<((SignerGroup, int), Seq<u8>)>,
                    ErrorView,
                >(preimage_views(v@)),
                Err(e) => preimages::<C>(self@, verifying_key@) == Err::<
                    Seq<((SignerGroup, int), Seq<u8>)>,
                    ErrorView,
                >(e@),
            },
            r matches Ok(v) ==> {
                &&& v.len() == self@.primary.len() + self@.secondary.len()
                &&& forall|i: int|
                    0 <= i < self@.primary.len() ==> (#[trigger] v@[i]).0.0 == SignerGroup::Primary
                        && v@[i].0.1@ == self@.primary[i].0
                &&& forall|i: int|
                    self@.primary.len() <= i < v.len() ==> (#[trigger] v@[i]).0.0
                        == SignerGroup::Secondary && v@[i].0.1@ == self@.secondary[i
                        - self@.primary.len()].0
            },
    {
        let mut common: Vec<u8> = Vec::new();
        match verifying_key.serialize() {
            Ok(bytes) => common.extend_from_slice(bytes.as_slice()),
            Err(e) => return Err(e),
        }
        common.extend_from_slice(C::H4(self.message.as_slice()).as_slice());
        match self.encode_tagged_commitments() {
            Ok(list) => common.extend_from_slice(C::H5(list.as_slice()).as_slice()),
            Err(e) => return Err(e),
        }
        let ghost suffix = common_suffix::<C>(self@, verifying_key@)->Ok_0;
        assert(common@ =~= suffix);

        let signers = self.iter_all();
        let ghost all = self@.signers();
        let mut r: BindingFactorPreimages<C::Group> = Vec::new();
        let mut i: usize = 0;
        while i < signers.len()
            invariant
                i <= signers.len(),
                r.len() == i,
                all == signer_views(signers@),
                common@ == suffix,
                forall|j: int|
                    0 <= j < i ==> (#[trigger] preimage_views(r@)[j]) == (
                        (all[j].group, all[j].identifier),
                        preimage::<C::Group>(suffix, all[j].group, all[j].identifier),
                    ),
            decreases signers.len() - i,
        {
            let (group, identifier, _) = signers[i];
            let ghost before = r@;
            let mut bytes: Vec<u8> = Vec::new();
            bytes.push(group.tag());
            bytes.extend_from_slice(common.as_slice());
            bytes.extend_from_slice(identifier.serialize().as_slice());
            assert(bytes@ =~= preimage::<C::Group>(suffix, group, identifier@));
            r.push(((group, identifier), bytes));
            proof {
                assert forall|j: int| 0 <= j < i + 1 implies (#[trigger] preimage_views(r@)[j])
                    == (
                    (all[j].group, all[j].identifier),
                    preimage::<C::Group>(suffix, all[j].group, all[j].identifier),
                ) by {
                    if j < i {
                        assert(preimage_views(before)[j] == preimage_views(r@)[j]);
                    }
                }
            }
            i += 1;
        }
        assert(preimage_views(r@) =~= preimages::<C>(self@, verifying_key@)->Ok_0);
        proof {
            let n = self@.primary.len();
            assert forall|i: int| 0 <= i < n implies (#[trigger] r@[i]).0.0 == SignerGroup::Primary
                && r@[i].0.1@ == self@.primary[i].0 by {
                assert(preimage_views(r@)[i].0 == (all[i].group, all[i].identifier));
            }
            assert forall|i: int| n <= i < r.len() implies (#[trigger] r@[i]).0.0
                == SignerGroup::Secondary && r@[i].0.1@ == self@.secondary[i - n].0 by {
                assert(preimage_views(r@)[i].0 == (all[i].group, all[i].identifier));
            }
        }
        Ok(r)
    }
}

impl<C: Ciphersuite> TwoGroupSigningPackage<C> {
    /// Computes every signer's binding factor.
    fn compute_binding_factors(&self, verifying_key: &VerifyingKey<C::Group>) -> (r: Result<
        BindingFactors<C::Group>,
        Error<C::Group>,
    >)
        ensures
            outcome(r) == match common_suffix::<C>(self@, verifying_key@) {
                Ok(suffix) => Ok(factors_of::<C>(suffix, self@.signers())),
                Err(e) => Err(e),
            },
    {
        proof {
            use_type_invariant(self);
        }
        let inputs = match self.binding_factor_preimages(verifying_key) {
            Ok(inputs) => inputs,
            Err(e) => return Err(e),
        };
        let ghost suffix = common_suffix::<C>(self@, verifying_key@)->Ok_0;
        let ghost expected = factors_of::<C>(suffix, self@.signers());
        let mut entries: Vec<((SignerGroup, Identifier<C::Group>), BindingFactor<C::Group>)> =
            Vec::new();
        let mut i: usize = 0;
        while i < inputs.len()
            invariant
                i <= inputs.len(),
                entries.len() == i,
                preimages::<C>(self@, verifying_key@) == Ok::<
                    Seq<((SignerGroup, int), Seq<u8>)>,
                    ErrorView,
                >(preimage_views(inputs@)),
                suffix == common_suffix::<C>(self@, verifying_key@)->Ok_0,
                expected == factors_of::<C>(suffix, self@.signers()),
                forall|j: int|
                    0 <= j < i ==> ((#[trigger] entries@[j]).0.0, entries@[j].0.1@)
                        == expected[j].0 && entries@[j].1@ == expected[j].1,
            decreases inputs.len() - i,
        {
            let key = inputs[i].0;
            let factor = BindingFactor(C::H1(inputs[i].1.as_slice()));
            proof {
                let found = preimages::<C>(self@, verifying_key@)->Ok_0;
                let signer = self@.signers()[i as int];
                assert(found.len() == inputs.len());
                assert(found[i as int] == ((key.0, key.1@), inputs@[i as int].1@));
                assert(found[i as int] == (
                    (signer.group, signer.identifier),
                    preimage::<C::Group>(suffix, signer.group, signer.identifier),
                ));
                assert(expected[i as int] == ((key.0, key.1@), factor@));
            }
            entries.push((key, factor));
            i += 1;
        }
        proof {
            assert(preimage_views(inputs@).len() == self@.signers().len());
            lemma_signers_distinct::<C>(self@, suffix);
            assert(entries@.map_values(
                |e: ((SignerGroup, Identifier<C::Group>), BindingFactor<C::Group>)|
                    ((e.0.0, e.0.1@), e.1@),
            ) =~= expected);
        }
        Ok(BindingFactors { entries })
    }

    /// Computes the single group commitment `R` over both groups'
    /// commitments, with the binding factors keyed by `(group, identifier)`.
    fn compute_group_commitment(&self, binding_factors: &BindingFactors<C::Group>) -> (r: Result<
        GroupCommitment<C::Group>,
        Error<C::Group>,
    >)
        ensures
            outcome(r) == group_commitment_outcome::<C::Group>(self@.signers(), binding_factors@),
    {
        let signers = self.iter_all();
        let ghost all = self@.signers();
        let ghost factors = binding_factors@;
        let ghost m = order::<C::Group>();
        let identity = C::Group::identity();
        let mut group_commitment = identity;
        let ghost mut hiding_sum: int = 0;
        let mut binding_scalars: Vec<Scalar<C::Group>> = Vec::new();
        let mut binding_elements: Vec<Element<C::Group>> = Vec::new();
        let mut i: usize = 0;
        proof {
            <C::Group as Group>::Field::lemma_order();
            lemma_in_range(0, m);
        }
        while i < signers.len()
            invariant
                i <= signers.len(),
                all == self@.signers(),
                all == signer_views(signers@),
                factors == binding_factors@,
                m == order::<C::Group>(),
                m > 1,
                C::Group::exponent(identity) == 0,
                first_defect(all.take(i as int), factors) is None,
                C::Group::exponent(group_commitment) == hiding_sum % m,
                binding_scalars.len() == binding_elements.len(),
                commitment_sum(all.take(i as int), factors) == hiding_sum + dot(
                    scalar_values::<C::Group>(binding_scalars@),
                    exponents::<C::Group>(binding_elements@),
                ),
            decreases signers.len() - i,
        {
            let (group, identifier, commitment) = signers[i];
            let ghost signer = all[i as int];
            proof {
                assert(signer == (Signer {
                    group,
                    identifier: identifier@,
                    commitments: commitment@,
                }));
                assert(all.take(i + 1).drop_last() =~= all.take(i as int));
                assert(all.take(i + 1).last() == signer);
            }
            // The following check prevents a party from accidentally revealing their share.
            if C::Group::same(identity, commitment.binding) || C::Group::same(
                identity,
                commitment.hiding,
            ) {
                proof {
                    lemma_first_defect(all, factors, i as int);
                }
                return Err(Error::IdentityCommitment);
            }
            let binding_factor = match binding_factors.get(group, &identifier) {
                Some(factor) => factor,
                None => {
                    proof {
                        lemma_first_defect(all, factors, i as int);
                    }
                    return Err(Error::UnknownIdentifier);
                },
            };
            let ghost scalars = scalar_values::<C::Group>(binding_scalars@);
            let ghost elements = exponents::<C::Group>(binding_elements@);
            binding_elements.push(commitment.binding);
            binding_scalars.push(binding_factor.0);
            proof {
                let next_scalars = scalar_values::<C::Group>(binding_scalars@);
                let next_elements = exponents::<C::Group>(binding_elements@);
                assert(next_scalars.drop_last() =~= scalars);
                assert(next_elements.drop_last() =~= elements);
                lemma_residue(hiding_sum, m);
                lemma_congruent_add(
                    hiding_sum % m,
                    hiding_sum,
                    signer.commitments.hiding,
                    signer.commitments.hiding,
                    m,
                );
                hiding_sum = hiding_sum + signer.commitments.hiding;
            }
            group_commitment = C::Group::sum(group_commitment, commitment.hiding);
            i += 1;
        }
        assert(all.take(i as int) =~= all);
        let accumulated = vartime_multiscalar_mul::<C::Group>(&binding_scalars, &binding_elements);
        proof {
            let bound = dot(
                scalar_values::<C::Group>(binding_scalars@),
                exponents::<C::Group>(binding_elements@),
            );
            lemma_residue(hiding_sum, m);
            lemma_residue(bound, m);
            lemma_congruent_add(hiding_sum % m, hiding_sum, bound % m, bound, m);
        }
        Ok(GroupCommitment(C::Group::sum(group_commitment, accumulated)))
    }
}

/// No two signers of a package have the same group and identifier.
proof fn lemma_signers_distinct<C: Ciphersuite>(p: PackageView, suffix: Seq<u8>)
    requires
        is_package::<C::Group>(p),
    ensures
        distinct(factors_of::<C>(suffix, p.signers())),
{
    let factors = factors_of::<C>(suffix, p.signers());
    let n = p.primary.len();
    assert forall|i: int, j: int| 0 <= i < j < factors.len() implies #[trigger] factors[i].0
        != #[trigger] factors[j].0 by {
        if j < n {
            assert(p.primary[i].0 < p.primary[j].0);
        } else if i >= n {
            assert(p.secondary[i - n].0 < p.secondary[j - n].0);
        }
    }
}

/// Where a signer has a defect and none before it has, it is the first.
proof fn lemma_first_defect(
    all: Seq<Signer>,
    factors: Seq<((SignerGroup, int), int)>,
    i: int,
)
    requires
        0 <= i < all.len(),
        first_defect(all.take(i), factors) is None,
        defect(all[i], factors) is Some,
    ensures
        first_defect(all, factors) == defect(all[i], factors),
    decreases all.len(),
{
    if i == all.len() - 1 {
        assert(all.drop_last() =~= all.take(i));
    } else {
        assert(all.drop_last().take(i) =~= all.take(i));
        lemma_first_defect(all.drop_last(), factors, i);
    }
}

/// Where an entry cannot be encoded, neither can the list: with the error of
/// the first such entry.
proof fn lemma_first_failure<G: Group>(all: Seq<Signer>, i: int)
    requires
        0 <= i < all.len(),
        commitment_list::<G>(all.take(i)) is Ok,
        entry_encoding::<G>(all[i]) is Err,
    ensures
        commitment_list::<G>(all) == Err::<Seq<u8>, ErrorView>(
            entry_encoding::<G>(all[i])->Err_0,
        ),
    decreases all.len(),
{
    if i == all.len() - 1 {
        assert(all.drop_last() =~= all.take(i));
    } else {
        assert(all.drop_last().take(i) =~= all.take(i));
        lemma_first_failure::<G>(all.drop_last(), i);
    }
}

/// The binding factors of a package are those of its signers.
pub proof fn lemma_factor_of<C: Ciphersuite>(
    p: PackageView,
    suffix: Seq<u8>,
    group: SignerGroup,
    id: int,
)
    requires
        is_package::<C::Group>(p),
    ensures
        lookup(factors_of::<C>(suffix, p.signers()), (group, id)) == if has_key(
            p.commitments(group),
            id,
        ) {
            Some(factor_of::<C>(suffix, group, id))
        } else {
            None
        },
{
    let factors = factors_of::<C>(suffix, p.signers());
    let own = p.commitments(group);
    let start = match group {
        SignerGroup::Primary => 0,
        SignerGroup::Secondary => p.primary.len() as int,
    };
    lemma_signers_distinct::<C>(p, suffix);
    if has_key(own, id) {
        let i = choose|i: int| 0 <= i < own.len() && #[trigger] own[i].0 == id;
        assert(factors[start + i] == ((group, id), factor_of::<C>(suffix, group, id)));
        lemma_lookup(factors, start + i);
    } else if has_key(factors, (group, id)) {
        let i = choose|i: int| 0 <= i < factors.len() && #[trigger] factors[i].0 == (group, id);
        assert(p.signers()[i].group == group && p.signers()[i].identifier == id);
        assert(own[i - start].0 == id);
    }
}

/// The only defect of the signers of a package, under its own binding factors,
/// is to have committed to the identity.
proof fn lemma_defects<C: Ciphersuite>(p: PackageView, suffix: Seq<u8>, n: int)
    requires
        is_package::<C::Group>(p),
        0 <= n <= p.signers().len(),
    ensures
        first_defect(p.signers().take(n), factors_of::<C>(suffix, p.signers())) == if exists|
            i: int,
        |
            0 <= i < n && commits_to_identity(#[trigger] p.signers()[i]) {
            Some(ErrorView::IdentityCommitment)
        } else {
            None
        },
    decreases n,
{
    let all = p.signers();
    let factors = factors_of::<C>(suffix, all);
    if n > 0 {
        lemma_defects::<C>(p, suffix, n - 1);
        assert(all.take(n).drop_last() =~= all.take(n - 1));
        let s = all[n - 1];
        assert(all.take(n).last() == s);
        assert(factors[n - 1].0 == (s.group, s.identifier));
        assert(has_key(factors, (s.group, s.identifier)));
        if commits_to_identity(s) {
            assert(commits_to_identity(all[n - 1]));
        }
    }
}

/// The group commitment under a package's own binding factors.
pub proof fn lemma_group_commitment<C: Ciphersuite>(p: PackageView, suffix: Seq<u8>)
    requires
        is_package::<C::Group>(p),
    ensures
        group_commitment_outcome::<C::Group>(
            p.signers(),
            factors_of::<C>(suffix, p.signers()),
        ) == if p.has_identity() {
            Err(ErrorView::IdentityCommitment)
        } else {
            Ok(commitment_of::<C>(p, suffix))
        },
{
    lemma_defects::<C>(p, suffix, p.signers().len() as int);
    assert(p.signers().take(p.signers().len() as int) =~= p.signers());
}

/// A group's signers are known by the keys of its commitments.
proof fn lemma_participants<T>(entries: Seq<(int, T)>, id: int)
    ensures
        keys(entries).contains(id) == has_key(entries, id),
{
    if has_key(entries, id) {
        let i = choose|i: int| 0 <= i < entries.len() && #[trigger] entries[i].0 == id;
        assert(keys(entries)[i] == id);
    }
    if keys(entries).contains(id) {
        let i = choose|i: int| 0 <= i < keys(entries).len() && keys(entries)[i] == id;
        assert(entries[i].0 == id);
    }
}

/// Produces one signer's signature share in a two-group signing run.
///
/// `group` states which group the signer belongs to; it is an explicit input
/// because the two identifier spaces may collide, so membership cannot be
/// inferred from `key_package.identifier`. The signer's Lagrange coefficient
/// is computed within its own group's participating set and folded into the
/// returned share.
pub fn sign<C: Ciphersuite>(
    signing_package: &TwoGroupSigningPackage<C>,
    signer_nonces: &SigningNonces<C::Group>,
    key_package: &KeyPackage<C::Group>,
    group: SignerGroup,
) -> (r: Result<SignatureShare<C::Group>, Error<C::Group>>)
    ensures
        outcome(r) == sign_outcome::<C>(signing_package@, signer_nonces@, key_package@, group),
{
    let own_commitments = signing_package.signing_commitments(group);
    if own_commitments.len() < key_package.min_signers as usize {
        return Err(Error::IncorrectNumberOfCommitments);
    }
    let commitment = match own_commitments.get(&key_package.identifier) {
        Some(commitment) => commitment,
        None => return Err(Error::MissingCommitment),
    };
    if signer_nonces.commitments != *commitment {
        return Err(Error::IncorrectCommitment);
    }
    // The pre-processing of the ciphersuite sees the signer's own group only.
    let synthetic = SigningPackage::new(own_commitments.clone(), signing_package.message());
    match C::pre_sign(&synthetic, signer_nonces, key_package) {
        Ok((signer_nonces, key_package)) => sign_prepared(
            signing_package,
            &signer_nonces,
            &key_package,
            group,
        ),
        Err(e) => Err(e),
    }
}

/// Produces one signer's signature share from nonces and key material that the
/// ciphersuite has pre-processed.
///
/// Only [`sign`] checks that the signer's group takes part with as many signers
/// as its threshold asks for, and that the nonces are those that the signer has
/// committed to in the package. Nothing of that is checked here.
pub fn sign_prepared<C: Ciphersuite>(
    signing_package: &TwoGroupSigningPackage<C>,
    signer_nonces: &SigningNonces<C::Group>,
    key_package: &KeyPackage<C::Group>,
    group: SignerGroup,
) -> (r: Result<SignatureShare<C::Group>, Error<C::Group>>)
    ensures
        outcome(r) == prepared_sign_outcome::<C>(
            signing_package@,
            signer_nonces@,
            key_package@,
            group,
        ),
{
    let own_commitments = signing_package.signing_commitments(group);
    let binding_factors = match signing_package.compute_binding_factors(
        &key_package.verifying_key,
    ) {
        Ok(binding_factors) => binding_factors,
        Err(e) => return Err(e),
    };
    proof {
        let suffix = common_suffix::<C>(signing_package@, key_package@.verifying_key)->Ok_0;
        lemma_factor_of::<C>(signing_package@, suffix, group, key_package@.identifier);
        lemma_group_commitment::<C>(signing_package@, suffix);
        lemma_participants(signing_package@.commitments(group), key_package@.identifier);
    }
    let binding_factor = match binding_factors.get(group, &key_package.identifier) {
        Some(factor) => factor,
        None => return Err(Error::UnknownIdentifier),
    };
    let group_commitment = match signing_package.compute_group_commitment(&binding_factors) {
        Ok(group_commitment) => group_commitment,
        Err(e) => return Err(e),
    };
    let own_participants = own_commitments.keys();
    let lambda_i = match compute_lagrange_coefficient(&own_participants, key_package.identifier) {
        Ok(lambda_i) => lambda_i,
        Err(e) => return Err(e),
    };
    let challenge = match C::challenge(
        &group_commitment.0,
        &key_package.verifying_key,
        signing_package.message(),
    ) {
        Ok(challenge) => challenge,
        Err(e) => return Err(e),
    };
    Ok(
        C::compute_signature_share(
            &group_commitment,
            signer_nonces,
            binding_factor,
            lambda_i,
            key_package,
            challenge,
        ),
    )
}

/// Adds up signature shares onto `z`.
fn add_shares<G: Group>(z: Scalar<G>, shares: &IdentifierMap<G, SignatureShare<G>>) -> (r: Scalar<
    G,
>)
    ensures
        value::<G>(r) == (value::<G>(z) + share_sum(shares@)) % order::<G>(),
{
    let ghost m = order::<G>();
    let ghost start = value::<G>(z);
    let mut r = z;
    let n: usize = shares.len();
    let mut i: usize = 0;
    proof {
        G::Field::lemma_order();
        G::Field::lemma_value_range(z);
        lemma_in_range(start, m);
    }
    while i < n
        invariant
            i <= n,
            n == shares@.len(),
            m == order::<G>(),
            m > 1,
            value::<G>(r) == (start + share_sum(shares@.take(i as int))) % m,
        decreases n - i,
    {
        let share = shares.value_at(i);
        proof {
            let before = start + share_sum(shares@.take(i as int));
            assert(shares@.take(i + 1).drop_last() =~= shares@.take(i as int));
            lemma_residue(before, m);
            lemma_congruent_add(before % m, before, share@, share@, m);
        }
        r = G::Field::sum(r, share.0);
        i += 1;
    }
    assert(shares@.take(i as int) =~= shares@);
    r
}

/// Whether the shares are those of the signers that have committed.
fn shares_match<G: Group>(
    commitments: &IdentifierMap<G, SigningCommitments<G>>,
    shares: &IdentifierMap<G, SignatureShare<G>>,
) -> (r: bool)
    ensures
        r == (keys(shares@) == keys(commitments@)),
{
    let n: usize = commitments.len();
    let k: usize = shares.len();
    proof {
        use_type_invariant(commitments);
        commitments.lemma_is_map();
        use_type_invariant(shares);
        shares.lemma_is_map();
        lemma_same_keys(commitments@, shares@);
    }
    n == k && commitments.keys_within(shares)
}

/// Aggregates both groups' signature shares into the final signature and
/// verifies it against `pubkeys.verifying_key` (the combined key both groups
/// signed under).
///
/// `pubkeys` carries verifying shares for the **primary** group only. If the
/// aggregate does not verify, every primary share is checked individually and
/// the culprits reported via [`Error::InvalidSignatureShare`]; if all primary
/// shares verify, the failure lies with the secondary group (or with
/// inconsistent inputs), for which no per-signer verification material
/// exists, and [`Error::InvalidSignature`] is returned without blame.
pub fn aggregate<C: Ciphersuite>(
    signing_package: &TwoGroupSigningPackage<C>,
    primary_shares: &IdentifierMap<C::Group, SignatureShare<C::Group>>,
    secondary_shares: &IdentifierMap<C::Group, SignatureShare<C::Group>>,
    pubkeys: &PublicKeyPackage<C::Group>,
) -> (r: Result<Signature<C::Group>, Error<C::Group>>)
    ensures
        outcome(r) == aggregate_outcome::<C>(
            signing_package@,
            primary_shares@,
            secondary_shares@,
            pubkeys@,
        ),
{
    let primary_commitments = signing_package.signing_commitments(SignerGroup::Primary);
    let secondary_commitments = signing_package.signing_commitments(SignerGroup::Secondary);
    if !shares_match(primary_commitments, primary_shares) || !shares_match(
        secondary_commitments,
        secondary_shares,
    ) {
        return Err(Error::UnknownIdentifier);
    }
    if !primary_commitments.keys_within(&pubkeys.verifying_shares) {
        return Err(Error::UnknownIdentifier);
    }
    if let Some(min) = pubkeys.min_signers {
        if primary_shares.len() < min as usize {
            return Err(Error::IncorrectNumberOfShares);
        }
    }
    // The pre-processing of the ciphersuite sees the primary group only.
    let synthetic = SigningPackage::new(primary_commitments.clone(), signing_package.message());
    match C::pre_aggregate(&synthetic, primary_shares, pubkeys) {
        Ok((primary_shares, pubkeys)) => aggregate_prepared(
            signing_package,
            &primary_shares,
            secondary_shares,
            &pubkeys,
        ),
        Err(e) => Err(e),
    }
}

/// Aggregates both groups' signature shares, where the ciphersuite has
/// pre-processed the primary shares and the public key material.
///
/// Only [`aggregate`] checks that the shares are those of the signers in the
/// package, that every primary signer has a verifying share, and that there are
/// as many primary shares as the threshold asks for. Here, shares are added up
/// whosoever they are, and a signer that is not known is noticed only where
/// blame is to be assigned.
pub fn aggregate_prepared<C: Ciphersuite>(
    signing_package: &TwoGroupSigningPackage<C>,
    primary_shares: &IdentifierMap<C::Group, SignatureShare<C::Group>>,
    secondary_shares: &IdentifierMap<C::Group, SignatureShare<C::Group>>,
    pubkeys: &PublicKeyPackage<C::Group>,
) -> (r: Result<Signature<C::Group>, Error<C::Group>>)
    ensures
        outcome(r) == prepared_aggregate_outcome::<C>(
            signing_package@,
            primary_shares@,
            secondary_shares@,
            pubkeys@,
        ),
{
    proof {
        use_type_invariant(signing_package);
    }
    let binding_factors = match signing_package.compute_binding_factors(&pubkeys.verifying_key) {
        Ok(binding_factors) => binding_factors,
        Err(e) => return Err(e),
    };
    let ghost p = signing_package@;
    let ghost m = order::<C::Group>();
    let ghost suffix = common_suffix::<C>(p, pubkeys@.verifying_key)->Ok_0;
    proof {
        lemma_group_commitment::<C>(p, suffix);
    }
    let group_commitment = match signing_package.compute_group_commitment(&binding_factors) {
        Ok(group_commitment) => group_commitment,
        Err(e) => return Err(e),
    };
    let zero = <C::Group as Group>::Field::zero();
    let primary_sum = add_shares::<C::Group>(zero, primary_shares);
    let z = add_shares::<C::Group>(primary_sum, secondary_shares);
    proof {
        <C::Group as Group>::Field::lemma_order();
        let (a, b) = (share_sum(primary_shares@), share_sum(secondary_shares@));
        lemma_residue(a, m);
        lemma_congruent_add(a % m, a, b, b, m);
    }
    let signature = Signature { R: group_commitment.0, z };
    match C::verify_signature(signing_package.message(), &signature, &pubkeys.verifying_key) {
        Ok(()) => return Ok(signature),
        Err(_) => {},
    }
    // The aggregate did not verify: check each primary share to assign blame.
    let challenge = match C::challenge(
        &group_commitment.0,
        &pubkeys.verifying_key,
        signing_package.message(),
    ) {
        Ok(challenge) => challenge,
        Err(e) => return Err(e),
    };
    Err(
        assign_blame(
            signing_package,
            primary_shares,
            pubkeys,
            &binding_factors,
            &group_commitment,
            &challenge,
            Ghost(suffix),
        ),
    )
}

/// Checks each primary share, and says who is to blame for a signature that
/// does not verify.
fn assign_blame<C: Ciphersuite>(
    signing_package: &TwoGroupSigningPackage<C>,
    primary_shares: &IdentifierMap<C::Group, SignatureShare<C::Group>>,
    pubkeys: &PublicKeyPackage<C::Group>,
    binding_factors: &BindingFactors<C::Group>,
    group_commitment: &GroupCommitment<C::Group>,
    challenge: &Challenge<C::Group>,
    Ghost(suffix): Ghost<Seq<u8>>,
) -> (r: Error<C::Group>)
    requires
        binding_factors@ == factors_of::<C>(suffix, signing_package@.signers()),
        group_commitment@ == commitment_of::<C>(signing_package@, suffix),
    ensures
        r@ == blame::<C>(signing_package@, suffix, primary_shares@, pubkeys@, challenge@),
{
    let commitments = signing_package.signing_commitments(SignerGroup::Primary);
    let primary_participants = commitments.keys();
    let ghost p = signing_package@;
    let ghost shares = primary_shares@;
    let ghost c = challenge@;
    let mut culprits: Vec<Identifier<C::Group>> = Vec::new();
    let n: usize = primary_shares.len();
    let mut i: usize = 0;
    assert(values(culprits@) =~= Seq::<int>::empty());
    while i < n
        invariant
            i <= n,
            n == shares.len(),
            shares == primary_shares@,
            p == signing_package@,
            is_package::<C::Group>(p),
            commitments@ == p.primary,
            values(primary_participants@) == keys(p.primary),
            c == challenge@,
            binding_factors@ == factors_of::<C>(suffix, p.signers()),
            group_commitment@ == commitment_of::<C>(p, suffix),
            all_known(p, shares.take(i as int), pubkeys@),
            values(culprits@) == culprits_of::<C>(p, suffix, shares.take(i as int), pubkeys@, c),
        decreases n - i,
    {
        let identifier = primary_shares.key_at(i);
        let share = primary_shares.value_at(i);
        let ghost known = shares.take(i as int);
        let ghost next = shares.take(i + 1);
        proof {
            assert(next.drop_last() =~= known);
            assert(next.last() == (identifier@, share@));
            lemma_factor_of::<C>(p, suffix, SignerGroup::Primary, identifier@);
            lemma_participants(p.primary, identifier@);
            assert(shares[i as int].0 == identifier@);
        }
        let commitment = match commitments.get(&identifier) {
            Some(commitment) => commitment,
            None => return Error::UnknownIdentifier,
        };
        let binding_factor = match binding_factors.get(SignerGroup::Primary, &identifier) {
            Some(factor) => factor,
            None => return Error::UnknownIdentifier,
        };
        let verifying_share = match pubkeys.verifying_shares.get(&identifier) {
            Some(verifying_share) => verifying_share,
            None => return Error::UnknownIdentifier,
        };
        let lambda_i = match compute_lagrange_coefficient(&primary_participants, identifier) {
            Ok(lambda_i) => lambda_i,
            Err(e) => return e,
        };
        let commitment_share = commitment.to_group_commitment_share(&binding_factor);
        let ghost before = culprits@;
        match C::verify_share(
            group_commitment,
            share,
            identifier,
            &commitment_share,
            verifying_share,
            lambda_i,
            challenge,
        ) {
            Ok(()) => {},
            Err(_) => {
                culprits.push(identifier);
                assert(values(culprits@) =~= values(before).push(identifier@));
            },
        }
        proof {
            assert forall|j: int| 0 <= j < next.len() implies has_key(
                p.primary,
                (#[trigger] next[j]).0,
            ) && has_key(pubkeys@.verifying_shares, next[j].0) by {
                if j < i {
                    assert(known[j] == next[j]);
                }
            }
        }
        i += 1;
    }
    assert(shares.take(i as int) =~= shares);
    if culprits.len() == 0 {
        Error::InvalidSignature
    } else {
        Error::InvalidSignatureShare { culprits }
    }
}

} // verus!
