//! Trust-threshold checker.
//!
//! A pure check deciding whether a candidate light block can be trusted on
//! the basis of an already-trusted block: the fraction of voting power of the
//! trusted block's next validator set whose members also signed the
//! candidate's commit must reach the session's trust threshold. Structural
//! validity (hash agreement, monotonic height and time, well-formed commit)
//! is checked first and reported as a distinct error kind; an expired anchor
//! is reported as `Expired`, never retried.

use vstd::prelude::*;

use crate::types::{LightBlock, LightBlockView, Validator};

verus! {

/// Minimum fraction (`numerator / denominator`) of trusted voting power that
/// must have signed a candidate's commit for trust to extend to it.
#[derive(Clone, Copy, PartialEq, Eq, Structural, Debug)]
pub struct TrustThreshold {
    pub numerator: u64,
    pub denominator: u64,
}

impl TrustThreshold {
    /// A well-formed threshold is a genuine fraction no greater than one.
    pub open spec fn wf(self) -> bool {
        0 < self.denominator && self.numerator <= self.denominator
    }

    /// The customary two-thirds threshold.
    pub fn two_thirds() -> (t: TrustThreshold)
        ensures
            t == (TrustThreshold { numerator: 2, denominator: 3 }),
            t.wf(),
    {
        TrustThreshold { numerator: 2, denominator: 3 }
    }
}

/// Parameters of a verification session.
#[derive(Clone, Copy, PartialEq, Eq, Structural, Debug)]
pub struct Options {
    /// Trust threshold used by the voting-power check.
    pub trust_threshold: TrustThreshold,
    /// Maximum age of a trusted header, measured from the current time,
    /// during which it may serve as a basis for extending trust.
    pub trusting_period: u64,
}

/// The ways a candidate can be structurally invalid, independently of voting
/// power.
#[derive(Clone, Copy, PartialEq, Eq, Structural, Debug)]
pub enum InvalidKind {
    /// Candidate height is not strictly greater than the trusted height.
    NonMonotonicHeight,
    /// Candidate time is not strictly greater than the trusted time.
    NonMonotonicTime,
    /// The candidate's validator set does not match the hash its header
    /// commits to.
    ValidatorsHashMismatch,
    /// The candidate's next validator set does not match the hash its header
    /// commits to.
    NextValidatorsHashMismatch,
    /// The total voting power of one of the candidate's validator sets does
    /// not fit in a 64-bit sum.
    TotalPowerOverflow,
    /// A commit signer is not a member of the candidate's validator set, or
    /// appears twice.
    MalformedCommit,
}

/// Outcome of the trust-threshold checker.
#[derive(Clone, Copy, PartialEq, Eq, Structural, Debug)]
pub enum Verdict {
    /// The candidate is structurally valid and reaches the trust threshold.
    Success,
    /// The candidate is structurally valid but the signed overlap of trusted
    /// voting power is below the threshold; drives the bisection branch.
    NotEnoughTrust,
    /// The candidate is structurally invalid; fatal, never retried.
    Invalid(InvalidKind),
    /// The trusted anchor lies outside the trusting period; fatal.
    Expired,
}

/// Total voting power of a sequence of validators.
pub open spec fn power_sum(vals: Seq<Validator>) -> int
    decreases vals.len(),
{
    if vals.len() == 0 {
        0
    } else {
        power_sum(vals.drop_last()) + vals.last().power
    }
}

/// Voting power of the validators in `vals` whose identity appears in
/// `signers`.
pub open spec fn signed_power(vals: Seq<Validator>, signers: Seq<u64>) -> int
    decreases vals.len(),
{
    if vals.len() == 0 {
        0
    } else {
        signed_power(vals.drop_last(), signers) + if signers.contains(vals.last().id) {
            vals.last().power as int
        } else {
            0
        }
    }
}

/// Whether some validator in `vals` has identity `id`.
pub open spec fn has_validator(vals: Seq<Validator>, id: u64) -> bool {
    exists|k: int| 0 <= k < vals.len() && vals[k].id == id
}

/// A commit is malformed when a signer is not a member of the validator set
/// or appears more than once.
pub open spec fn commit_malformed(vals: Seq<Validator>, signers: Seq<u64>) -> bool {
    (exists|i: int| 0 <= i < signers.len() && !has_validator(vals, signers[i])) || (exists|
        i: int,
        j: int,
    |
        0 <= i < j < signers.len() && signers[i] == signers[j])
}

/// The trusted anchor is expired when the current time has reached the end
/// of its trusting period. Time monotonicity is checked before expiry, so a
/// fresh anchor implies that the younger candidate lies within the trusting
/// period as well.
pub open spec fn anchor_expired(trusted: LightBlockView, options: Options, now: u64) -> bool {
    now >= trusted.time + options.trusting_period
}

/// Whether the signed overlap of trusted voting power reaches the threshold.
pub open spec fn enough_trust(
    trusted: LightBlockView,
    candidate: LightBlockView,
    threshold: TrustThreshold,
) -> bool {
    signed_power(trusted.next_validators.validators, candidate.signers) * threshold.denominator
        >= power_sum(trusted.next_validators.validators) * threshold.numerator
}

/// The verdict of the trust-threshold checker, as a function of the trusted
/// block, the candidate, the session options and the current time.
pub open spec fn spec_verdict(
    trusted: LightBlockView,
    candidate: LightBlockView,
    options: Options,
    now: u64,
) -> Verdict {
    if candidate.height <= trusted.height {
        Verdict::Invalid(InvalidKind::NonMonotonicHeight)
    } else if candidate.time <= trusted.time {
        Verdict::Invalid(InvalidKind::NonMonotonicTime)
    } else if anchor_expired(trusted, options, now) {
        Verdict::Expired
    } else if candidate.validators.hash != candidate.validators_hash {
        Verdict::Invalid(InvalidKind::ValidatorsHashMismatch)
    } else if candidate.next_validators.hash != candidate.next_validators_hash {
        Verdict::Invalid(InvalidKind::NextValidatorsHashMismatch)
    } else if power_sum(candidate.validators.validators) > u64::MAX || power_sum(
        candidate.next_validators.validators,
    ) > u64::MAX {
        Verdict::Invalid(InvalidKind::TotalPowerOverflow)
    } else if commit_malformed(candidate.validators.validators, candidate.signers) {
        Verdict::Invalid(InvalidKind::MalformedCommit)
    } else if enough_trust(trusted, candidate, options.trust_threshold) {
        Verdict::Success
    } else {
        Verdict::NotEnoughTrust
    }
}

pub proof fn lemma_signed_power_bounds(vals: Seq<Validator>, signers: Seq<u64>)
    ensures
        0 <= signed_power(vals, signers) <= power_sum(vals),
    decreases vals.len(),
{
    if vals.len() > 0 {
        lemma_signed_power_bounds(vals.drop_last(), signers);
    }
}

fn contains_u64(v: &Vec<u64>, x: u64) -> (b: bool)
    ensures
        b == v@.contains(x),
{
    let mut i: usize = 0;
    while i < v.len()
        invariant
            i <= v.len(),
            forall|k: int| 0 <= k < i ==> v@[k] != x,
        decreases v.len() - i,
    {
        if v[i] == x {
            return true;
        }
        i = i + 1;
    }
    false
}

fn prefix_contains_u64(v: &Vec<u64>, n: usize, x: u64) -> (b: bool)
    requires
        n <= v@.len(),
    ensures
        b == exists|k: int| 0 <= k < n && v@[k] == x,
{
    let mut i: usize = 0;
    while i < n
        invariant
            i <= n <= v@.len(),
            forall|k: int| 0 <= k < i ==> v@[k] != x,
        decreases n - i,
    {
        if v[i] == x {
            return true;
        }
        i = i + 1;
    }
    false
}

fn has_validator_exec(vals: &Vec<Validator>, id: u64) -> (b: bool)
    ensures
        b == has_validator(vals@, id),
{
    let mut i: usize = 0;
    while i < vals.len()
        invariant
            i <= vals.len(),
            forall|k: int| 0 <= k < i ==> vals@[k].id != id,
        decreases vals.len() - i,
    {
        if vals[i].id == id {
            return true;
        }
        i = i + 1;
    }
    false
}

/// Total voting power of a validator list, computed without overflow.
fn total_power(vals: &Vec<Validator>) -> (t: u128)
    ensures
        t == power_sum(vals@),
{
    let mut acc: u128 = 0;
    let mut i: usize = 0;
    while i < vals.len()
        invariant
            i <= vals.len(),
            acc == power_sum(vals@.take(i as int)),
            acc <= i * 0xffff_ffff_ffff_ffffu128,
        decreases vals.len() - i,
    {
        proof {
            assert(vals@.take(i + 1 as int).drop_last() =~= vals@.take(i as int));
            assert(vals@.take(i + 1 as int).last() == vals@[i as int]);
        }
        acc = acc + vals[i].power as u128;
        i = i + 1;
    }
    proof {
        assert(vals@.take(vals@.len() as int) =~= vals@);
    }
    acc
}

/// Voting power of the validators in `vals` that appear among `signers`,
/// computed without overflow.
fn overlap_power(vals: &Vec<Validator>, signers: &Vec<u64>) -> (t: u128)
    ensures
        t == signed_power(vals@, signers@),
{
    let mut acc: u128 = 0;
    let mut i: usize = 0;
    while i < vals.len()
        invariant
            i <= vals.len(),
            acc == signed_power(vals@.take(i as int), signers@),
            acc <= i * 0xffff_ffff_ffff_ffffu128,
        decreases vals.len() - i,
    {
        proof {
            assert(vals@.take(i + 1 as int).drop_last() =~= vals@.take(i as int));
            assert(vals@.take(i + 1 as int).last() == vals@[i as int]);
        }
        if contains_u64(signers, vals[i].id) {
            acc = acc + vals[i].power as u128;
        }
        i = i + 1;
    }
    proof {
        assert(vals@.take(vals@.len() as int) =~= vals@);
    }
    acc
}

fn commit_malformed_exec(vals: &Vec<Validator>, signers: &Vec<u64>) -> (b: bool)
    ensures
        b == commit_malformed(vals@, signers@),
{
    let mut i: usize = 0;
    while i < signers.len()
        invariant
            i <= signers.len(),
            forall|k: int| 0 <= k < i ==> has_validator(vals@, signers@[k]),
            forall|k: int, l: int| 0 <= k < l < i ==> signers@[k] != signers@[l],
        decreases signers.len() - i,
    {
        if !has_validator_exec(vals, signers[i]) {
            return true;
        }
        if prefix_contains_u64(signers, i, signers[i]) {
            return true;
        }
        i = i + 1;
    }
    false
}

/// Decide whether `candidate` can be trusted on the basis of `trusted`.
///
/// Structural validity is checked before the voting-power computation runs
/// and reported as a distinct verdict; an expired anchor is reported as
/// `Expired`. The verdict is a pure function of the arguments.
pub fn verify_candidate(
    trusted: &LightBlock,
    candidate: &LightBlock,
    options: &Options,
    now: u64,
) -> (v: Verdict)
    requires
        power_sum(trusted@.next_validators.validators) <= u64::MAX,
        options.trust_threshold.wf(),
    ensures
        v == spec_verdict(trusted@, candidate@, *options, now),
{
    if candidate.height <= trusted.height {
        return Verdict::Invalid(InvalidKind::NonMonotonicHeight);
    }
    if candidate.time <= trusted.time {
        return Verdict::Invalid(InvalidKind::NonMonotonicTime);
    }
    if now >= trusted.time && now - trusted.time >= options.trusting_period {
        return Verdict::Expired;
    }
    if candidate.validators.hash != candidate.validators_hash {
        return Verdict::Invalid(InvalidKind::ValidatorsHashMismatch);
    }
    if candidate.next_validators.hash != candidate.next_validators_hash {
        return Verdict::Invalid(InvalidKind::NextValidatorsHashMismatch);
    }
    if total_power(&candidate.validators.validators) > u64::MAX as u128 || total_power(
        &candidate.next_validators.validators,
    ) > u64::MAX as u128 {
        return Verdict::Invalid(InvalidKind::TotalPowerOverflow);
    }
    if commit_malformed_exec(&candidate.validators.validators, &candidate.signers) {
        return Verdict::Invalid(InvalidKind::MalformedCommit);
    }
    let total = total_power(&trusted.next_validators.validators);
    let signed = overlap_power(&trusted.next_validators.validators, &candidate.signers);
    proof {
        lemma_signed_power_bounds(trusted@.next_validators.validators, candidate@.signers);
        let m = u64::MAX as int;
        assert((signed as int) * (options.trust_threshold.denominator as int) <= m * m)
            by (nonlinear_arith)
            requires
                0 <= signed as int <= m,
                0 <= options.trust_threshold.denominator as int <= m,
        ;
        assert((total as int) * (options.trust_threshold.numerator as int) <= m * m)
            by (nonlinear_arith)
            requires
                0 <= total as int <= m,
                0 <= options.trust_threshold.numerator as int <= m,
        ;
    }
    if signed * (options.trust_threshold.denominator as u128) >= total * (
    options.trust_threshold.numerator as u128) {
        Verdict::Success
    } else {
        Verdict::NotEnoughTrust
    }
}

/// A successful verdict implies the facts the bisection algorithm needs to
/// use the candidate as its next anchor: greater height and time, and
/// bounded total voting power in both of its validator sets.
pub proof fn lemma_success_facts(
    trusted: LightBlockView,
    candidate: LightBlockView,
    options: Options,
    now: u64,
)
    requires
        spec_verdict(trusted, candidate, options, now) == Verdict::Success,
    ensures
        candidate.height > trusted.height,
        candidate.time > trusted.time,
        power_sum(candidate.next_validators.validators) <= u64::MAX,
{
}

} // verus!
