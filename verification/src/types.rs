//! Core data model: heights, statuses, validators and light blocks.
//!
//! A light block is an immutable record of a signed header together with the
//! data needed to check its commit: the set of validators for its height, the
//! set announced for the next height, and the identities of the validators
//! whose signatures appear in the commit. All fields are plain values so that
//! contracts can speak about them directly.

use vstd::prelude::*;

verus! {

/// Position in the chain: strictly ordered, non-negative.
pub type Height = u64;

/// Verification status attached to a light block held in a store.
///
/// `Trusted` marks blocks pinned by the caller (the subjective anchor);
/// `Verified` marks blocks justified by the bisection algorithm; `Failed`
/// marks blocks whose verification was attempted and did not meet the trust
/// threshold; `Unverified` is the initial status of a freshly fetched block.
#[derive(Clone, Copy, PartialEq, Eq, Structural, Debug)]
pub enum Status {
    Unverified,
    Verified,
    Trusted,
    Failed,
}

/// A validator: an identity and its voting power.
#[derive(Clone, Copy, PartialEq, Eq, Structural, Debug)]
pub struct Validator {
    pub id: u64,
    pub power: u64,
}

/// A validator set together with the hash a header commits to.
#[derive(Debug)]
pub struct ValidatorSet {
    pub hash: u64,
    pub validators: Vec<Validator>,
}

/// Mathematical model of a [`ValidatorSet`].
#[verifier::ext_equal]
pub ghost struct ValidatorSetView {
    pub hash: u64,
    pub validators: Seq<Validator>,
}

impl View for ValidatorSet {
    type V = ValidatorSetView;

    open spec fn view(&self) -> ValidatorSetView {
        ValidatorSetView { hash: self.hash, validators: self.validators@ }
    }
}

/// An immutable light block: header fields, commit signers, and the two
/// validator sets needed to check the commit.
#[derive(Debug)]
pub struct LightBlock {
    /// Height of the header.
    pub height: Height,
    /// Time of the header.
    pub time: u64,
    /// Hash of the validator set for this height, as stated by the header.
    pub validators_hash: u64,
    /// Hash of the validator set for the next height, as stated by the header.
    pub next_validators_hash: u64,
    /// Identities of the validators whose signatures appear in the commit.
    pub signers: Vec<u64>,
    /// Validator set for this height.
    pub validators: ValidatorSet,
    /// Validator set for the next height.
    pub next_validators: ValidatorSet,
}

/// Mathematical model of a [`LightBlock`].
#[verifier::ext_equal]
pub ghost struct LightBlockView {
    pub height: Height,
    pub time: u64,
    pub validators_hash: u64,
    pub next_validators_hash: u64,
    pub signers: Seq<u64>,
    pub validators: ValidatorSetView,
    pub next_validators: ValidatorSetView,
}

impl View for LightBlock {
    type V = LightBlockView;

    open spec fn view(&self) -> LightBlockView {
        LightBlockView {
            height: self.height,
            time: self.time,
            validators_hash: self.validators_hash,
            next_validators_hash: self.next_validators_hash,
            signers: self.signers@,
            validators: self.validators@,
            next_validators: self.next_validators@,
        }
    }
}

pub(crate) fn copy_u64s(v: &Vec<u64>) -> (r: Vec<u64>)
    ensures
        r@ == v@,
{
    let mut r: Vec<u64> = Vec::new();
    let mut i: usize = 0;
    while i < v.len()
        invariant
            i <= v.len(),
            r@ == v@.take(i as int),
        decreases v.len() - i,
    {
        r.push(v[i]);
        i = i + 1;
        proof {
            assert(r@ =~= v@.take(i as int));
        }
    }
    proof {
        assert(r@ =~= v@);
    }
    r
}

fn copy_validators(v: &Vec<Validator>) -> (r: Vec<Validator>)
    ensures
        r@ == v@,
{
    let mut r: Vec<Validator> = Vec::new();
    let mut i: usize = 0;
    while i < v.len()
        invariant
            i <= v.len(),
            r@ == v@.take(i as int),
        decreases v.len() - i,
    {
        r.push(v[i]);
        i = i + 1;
        proof {
            assert(r@ =~= v@.take(i as int));
        }
    }
    proof {
        assert(r@ =~= v@);
    }
    r
}

impl Clone for ValidatorSet {
    fn clone(&self) -> (r: Self)
        ensures
            r@ == self@,
    {
        ValidatorSet { hash: self.hash, validators: copy_validators(&self.validators) }
    }
}

impl Clone for LightBlock {
    fn clone(&self) -> (r: Self)
        ensures
            r@ == self@,
    {
        LightBlock {
            height: self.height,
            time: self.time,
            validators_hash: self.validators_hash,
            next_validators_hash: self.next_validators_hash,
            signers: copy_u64s(&self.signers),
            validators: self.validators.clone(),
            next_validators: self.next_validators.clone(),
        }
    }
}

impl LightBlock {
    /// Height of the block's header.
    pub fn height(&self) -> (h: Height)
        ensures
            h == self@.height,
    {
        self.height
    }
}

} // verus!
