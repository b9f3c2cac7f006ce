//! Tests for the trust-threshold checker.

use light_client::trust::{verify_candidate, InvalidKind, Options, TrustThreshold, Verdict};
use light_client::types::{LightBlock, Validator, ValidatorSet};

fn valset(hash: u64, members: &[(u64, u64)]) -> ValidatorSet {
    let mut validators: Vec<Validator> = Vec::new();
    for (id, power) in members {
        validators.push(Validator { id: *id, power: *power });
    }
    ValidatorSet { hash, validators }
}

fn block(
    height: u64,
    time: u64,
    signers: &[u64],
    validators: ValidatorSet,
    next_validators: ValidatorSet,
) -> LightBlock {
    LightBlock {
        height,
        time,
        validators_hash: validators.hash,
        next_validators_hash: next_validators.hash,
        signers: signers.to_vec(),
        validators,
        next_validators,
    }
}

fn options() -> Options {
    Options { trust_threshold: TrustThreshold::two_thirds(), trusting_period: 10_000 }
}

fn anchor() -> LightBlock {
    // Next validator set: three validators of power 1 each.
    block(
        100,
        1_000,
        &[1, 2, 3],
        valset(10, &[(1, 1), (2, 1), (3, 1)]),
        valset(11, &[(1, 1), (2, 1), (3, 1)]),
    )
}

#[test]
fn sufficient_overlap_is_success() {
    let trusted = anchor();
    let candidate = block(
        101,
        1_100,
        &[1, 2],
        valset(11, &[(1, 1), (2, 1), (3, 1)]),
        valset(12, &[(4, 1), (5, 1), (6, 1)]),
    );
    let v = verify_candidate(&trusted, &candidate, &options(), 1_200);
    assert_eq!(v, Verdict::Success);
}

#[test]
fn overlap_exactly_at_threshold_is_success() {
    // 2 of 3 units of power signed: exactly two thirds.
    let trusted = anchor();
    let candidate = block(
        101,
        1_100,
        &[2, 3],
        valset(11, &[(1, 1), (2, 1), (3, 1)]),
        valset(12, &[(4, 1), (5, 1), (6, 1)]),
    );
    let v = verify_candidate(&trusted, &candidate, &options(), 1_200);
    assert_eq!(v, Verdict::Success);
}

#[test]
fn overlap_below_threshold_is_not_enough_trust() {
    let trusted = anchor();
    let candidate = block(
        101,
        1_100,
        &[1],
        valset(11, &[(1, 1), (2, 1), (3, 1)]),
        valset(12, &[(4, 1), (5, 1), (6, 1)]),
    );
    let v = verify_candidate(&trusted, &candidate, &options(), 1_200);
    assert_eq!(v, Verdict::NotEnoughTrust);
}

#[test]
fn non_monotonic_height_is_invalid() {
    let trusted = anchor();
    let candidate = block(
        100,
        1_100,
        &[1, 2, 3],
        valset(11, &[(1, 1), (2, 1), (3, 1)]),
        valset(12, &[(4, 1)]),
    );
    let v = verify_candidate(&trusted, &candidate, &options(), 1_200);
    assert_eq!(v, Verdict::Invalid(InvalidKind::NonMonotonicHeight));
}

#[test]
fn non_monotonic_time_is_invalid() {
    let trusted = anchor();
    let candidate = block(
        101,
        1_000,
        &[1, 2, 3],
        valset(11, &[(1, 1), (2, 1), (3, 1)]),
        valset(12, &[(4, 1)]),
    );
    let v = verify_candidate(&trusted, &candidate, &options(), 1_200);
    assert_eq!(v, Verdict::Invalid(InvalidKind::NonMonotonicTime));
}

#[test]
fn anchor_outside_trusting_period_is_expired() {
    let trusted = anchor();
    let candidate = block(
        101,
        1_100,
        &[1, 2, 3],
        valset(11, &[(1, 1), (2, 1), (3, 1)]),
        valset(12, &[(4, 1)]),
    );
    // now - trusted.time == trusting_period exactly: the period has ended.
    let v = verify_candidate(&trusted, &candidate, &options(), 11_000);
    assert_eq!(v, Verdict::Expired);
}

#[test]
fn validators_hash_mismatch_is_invalid() {
    let trusted = anchor();
    let mut candidate = block(
        101,
        1_100,
        &[1, 2, 3],
        valset(11, &[(1, 1), (2, 1), (3, 1)]),
        valset(12, &[(4, 1)]),
    );
    candidate.validators_hash = 999;
    let v = verify_candidate(&trusted, &candidate, &options(), 1_200);
    assert_eq!(v, Verdict::Invalid(InvalidKind::ValidatorsHashMismatch));
}

#[test]
fn next_validators_hash_mismatch_is_invalid() {
    let trusted = anchor();
    let mut candidate = block(
        101,
        1_100,
        &[1, 2, 3],
        valset(11, &[(1, 1), (2, 1), (3, 1)]),
        valset(12, &[(4, 1)]),
    );
    candidate.next_validators_hash = 999;
    let v = verify_candidate(&trusted, &candidate, &options(), 1_200);
    assert_eq!(v, Verdict::Invalid(InvalidKind::NextValidatorsHashMismatch));
}

#[test]
fn oversized_total_power_is_invalid() {
    let trusted = anchor();
    let candidate = block(
        101,
        1_100,
        &[1],
        valset(11, &[(1, u64::MAX), (2, u64::MAX)]),
        valset(12, &[(4, 1)]),
    );
    let v = verify_candidate(&trusted, &candidate, &options(), 1_200);
    assert_eq!(v, Verdict::Invalid(InvalidKind::TotalPowerOverflow));
}

#[test]
fn signer_outside_validator_set_is_malformed() {
    let trusted = anchor();
    let candidate = block(
        101,
        1_100,
        &[1, 9],
        valset(11, &[(1, 1), (2, 1), (3, 1)]),
        valset(12, &[(4, 1)]),
    );
    let v = verify_candidate(&trusted, &candidate, &options(), 1_200);
    assert_eq!(v, Verdict::Invalid(InvalidKind::MalformedCommit));
}

#[test]
fn duplicate_signer_is_malformed() {
    let trusted = anchor();
    let candidate = block(
        101,
        1_100,
        &[1, 1],
        valset(11, &[(1, 1), (2, 1), (3, 1)]),
        valset(12, &[(4, 1)]),
    );
    let v = verify_candidate(&trusted, &candidate, &options(), 1_200);
    assert_eq!(v, Verdict::Invalid(InvalidKind::MalformedCommit));
}

#[test]
fn overlap_weighs_power_not_headcount() {
    // One heavy validator signs: 8 of 10 units although 1 of 3 members.
    let trusted = block(
        100,
        1_000,
        &[1],
        valset(10, &[(1, 8), (2, 1), (3, 1)]),
        valset(11, &[(1, 8), (2, 1), (3, 1)]),
    );
    let candidate = block(
        101,
        1_100,
        &[1],
        valset(11, &[(1, 8), (2, 1), (3, 1)]),
        valset(12, &[(4, 1)]),
    );
    let v = verify_candidate(&trusted, &candidate, &options(), 1_200);
    assert_eq!(v, Verdict::Success);
}
