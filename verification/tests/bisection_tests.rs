//! End-to-end tests for the bisection verifier.

use light_client::bisection::{verify_bisection, MapFetcher, VerificationError};
use light_client::state::State;
use light_client::store::{LightStore, MemoryStore};
use light_client::trust::{InvalidKind, Options, TrustThreshold};
use light_client::types::{LightBlock, Status, Validator, ValidatorSet};

fn valset(hash: u64, members: &[(u64, u64)]) -> ValidatorSet {
    let mut validators: Vec<Validator> = Vec::new();
    for (id, power) in members {
        validators.push(Validator { id: *id, power: *power });
    }
    ValidatorSet { hash, validators }
}

fn block(
    height: u64,
    time: u64,
    signers: &[u64],
    validators: ValidatorSet,
    next_validators: ValidatorSet,
) -> LightBlock {
    LightBlock {
        height,
        time,
        validators_hash: validators.hash,
        next_validators_hash: next_validators.hash,
        signers: signers.to_vec(),
        validators,
        next_validators,
    }
}

fn options() -> Options {
    Options { trust_threshold: TrustThreshold::two_thirds(), trusting_period: 100_000 }
}

/// Anchor at height 100 whose next validator set is {1, 2, 3}, power 1 each.
fn anchor() -> LightBlock {
    block(
        100,
        1_000,
        &[1, 2, 3],
        valset(10, &[(1, 1), (2, 1), (3, 1)]),
        valset(11, &[(1, 1), (2, 1), (3, 1)]),
    )
}

fn fresh_state(anchor: &LightBlock) -> State<MemoryStore> {
    let mut store = MemoryStore::new();
    store.update(anchor.clone(), Status::Trusted);
    State::new(store)
}

#[test]
fn direct_success_verifies_target_and_traces_anchor() {
    let anchor = anchor();
    let mut state = fresh_state(&anchor);
    let mut fetcher = MapFetcher::new();
    // Candidate at 101, signed by 2 of the anchor's 3 next validators.
    fetcher.add(block(
        101,
        1_010,
        &[1, 2],
        valset(11, &[(1, 1), (2, 1), (3, 1)]),
        valset(12, &[(4, 1), (5, 1), (6, 1)]),
    ));
    let r = verify_bisection(&mut state, &mut fetcher, &anchor, 101, &options(), 2_000);
    let verified = r.expect("direct check should succeed");
    assert_eq!(verified.height, 101);
    assert!(state.light_store.get(101, Status::Verified).is_some());
    // The trace records height 100 as the evidence for 101; get_trace shows
    // it once the anchor itself is reported as Verified.
    state.light_store.update(anchor.clone(), Status::Verified);
    let trace: Vec<u64> = state.get_trace(101).iter().map(|b| b.height).collect();
    assert_eq!(trace, vec![100]);
}

#[test]
fn bisection_verifies_through_midpoint_per_hop() {
    let anchor = anchor();
    let mut state = fresh_state(&anchor);
    let mut fetcher = MapFetcher::new();
    // Midpoint of (100, 200) is 150: signed by all of the anchor's next
    // validators, announcing {4, 5, 6} for the next height.
    fetcher.add(block(
        150,
        1_500,
        &[1, 2, 3],
        valset(11, &[(1, 1), (2, 1), (3, 1)]),
        valset(12, &[(4, 1), (5, 1), (6, 1)]),
    ));
    // Target at 200: no overlap with {1, 2, 3}, full overlap with {4, 5, 6}.
    fetcher.add(block(
        200,
        2_000,
        &[4, 5, 6],
        valset(12, &[(4, 1), (5, 1), (6, 1)]),
        valset(13, &[(7, 1), (8, 1), (9, 1)]),
    ));
    let r = verify_bisection(&mut state, &mut fetcher, &anchor, 200, &options(), 2_500);
    let verified = r.expect("bisection should succeed");
    assert_eq!(verified.height, 200);
    assert!(state.light_store.get(150, Status::Verified).is_some());
    assert!(state.light_store.get(200, Status::Verified).is_some());
    // Per-hop trace: 200 is justified by 150 alone; 150 by the (Trusted,
    // hence omitted) anchor at 100.
    let t200: Vec<u64> = state.get_trace(200).iter().map(|b| b.height).collect();
    assert_eq!(t200, vec![150]);
    let t150: Vec<u64> = state.get_trace(150).iter().map(|b| b.height).collect();
    assert_eq!(t150, Vec::<u64>::new());
    // Once the anchor counts as Verified the 150 hop shows its evidence too.
    state.light_store.update(anchor.clone(), Status::Verified);
    let t150: Vec<u64> = state.get_trace(150).iter().map(|b| b.height).collect();
    assert_eq!(t150, vec![100]);
}

#[test]
fn nested_bisection_builds_a_chain_of_hops() {
    // The validator set turns over completely every ~50 heights, so trust
    // has to be extended hop by hop: 100 -> 125 -> 150 -> 200.
    let anchor = anchor();
    let mut state = fresh_state(&anchor);
    let mut fetcher = MapFetcher::new();
    let set_a = || valset(11, &[(1, 1), (2, 1), (3, 1)]);
    let set_b = || valset(12, &[(4, 1), (5, 1), (6, 1)]);
    let set_c = || valset(13, &[(7, 1), (8, 1), (9, 1)]);
    fetcher.add(block(125, 1_250, &[1, 2, 3], set_a(), set_b()));
    fetcher.add(block(150, 1_500, &[4, 5, 6], set_b(), set_c()));
    fetcher.add(block(200, 2_000, &[7, 8, 9], set_c(), valset(14, &[(10, 1)])));
    let r = verify_bisection(&mut state, &mut fetcher, &anchor, 200, &options(), 2_500);
    assert_eq!(r.expect("nested bisection should succeed").height, 200);
    for h in [125u64, 150, 200] {
        assert!(state.light_store.get(h, Status::Verified).is_some());
    }
    let heights = |v: Vec<light_client::types::LightBlock>| -> Vec<u64> {
        v.iter().map(|b| b.height).collect()
    };
    assert_eq!(heights(state.get_trace(200)), vec![150]);
    assert_eq!(heights(state.get_trace(150)), vec![125]);
    assert_eq!(heights(state.get_trace(125)), Vec::<u64>::new());
}

#[test]
fn adjacent_insufficient_candidate_exhausts_bisection() {
    let anchor = anchor();
    let mut state = fresh_state(&anchor);
    let mut fetcher = MapFetcher::new();
    // Candidate at 101 signed by only 1 of 3 next validators.
    fetcher.add(block(
        101,
        1_010,
        &[1],
        valset(11, &[(1, 1), (2, 1), (3, 1)]),
        valset(12, &[(4, 1)]),
    ));
    let r = verify_bisection(&mut state, &mut fetcher, &anchor, 101, &options(), 2_000);
    assert_eq!(r.unwrap_err(), VerificationError::BisectionExhausted(100, 101));
    assert!(state.light_store.get(101, Status::Failed).is_some());
    assert!(state.light_store.get(101, Status::Verified).is_none());
    assert!(state.get_trace(101).is_empty());
}

#[test]
fn validator_set_hash_mismatch_fails_session() {
    let anchor = anchor();
    let mut state = fresh_state(&anchor);
    let mut fetcher = MapFetcher::new();
    let mut candidate = block(
        101,
        1_010,
        &[1, 2],
        valset(11, &[(1, 1), (2, 1), (3, 1)]),
        valset(12, &[(4, 1)]),
    );
    candidate.validators_hash = 999;
    fetcher.add(candidate);
    let r = verify_bisection(&mut state, &mut fetcher, &anchor, 101, &options(), 2_000);
    assert_eq!(
        r.unwrap_err(),
        VerificationError::StructuralInvalid(InvalidKind::ValidatorsHashMismatch)
    );
    assert!(state.light_store.get(101, Status::Verified).is_none());
    assert!(state.light_store.get(101, Status::Failed).is_some());
}

#[test]
fn missing_candidate_is_fetch_unavailable() {
    let anchor = anchor();
    let mut state = fresh_state(&anchor);
    let mut fetcher = MapFetcher::new();
    let r = verify_bisection(&mut state, &mut fetcher, &anchor, 101, &options(), 2_000);
    assert_eq!(r.unwrap_err(), VerificationError::FetchUnavailable(101));
    assert!(state.light_store.get(101, Status::Failed).is_none());
}

#[test]
fn expired_anchor_fails_session() {
    let anchor = anchor();
    let mut state = fresh_state(&anchor);
    let mut fetcher = MapFetcher::new();
    fetcher.add(block(
        101,
        1_010,
        &[1, 2],
        valset(11, &[(1, 1), (2, 1), (3, 1)]),
        valset(12, &[(4, 1)]),
    ));
    // now is far past anchor.time + trusting_period.
    let r = verify_bisection(&mut state, &mut fetcher, &anchor, 101, &options(), 500_000);
    assert_eq!(r.unwrap_err(), VerificationError::Expired);
    assert!(state.light_store.get(101, Status::Verified).is_none());
}

#[test]
fn identical_sessions_produce_identical_traces() {
    let anchor = anchor();
    let run = || {
        let mut state = fresh_state(&anchor);
        let mut fetcher = MapFetcher::new();
        fetcher.add(block(
            150,
            1_500,
            &[1, 2, 3],
            valset(11, &[(1, 1), (2, 1), (3, 1)]),
            valset(12, &[(4, 1), (5, 1), (6, 1)]),
        ));
        fetcher.add(block(
            200,
            2_000,
            &[4, 5, 6],
            valset(12, &[(4, 1), (5, 1), (6, 1)]),
            valset(13, &[(7, 1), (8, 1), (9, 1)]),
        ));
        let r = verify_bisection(&mut state, &mut fetcher, &anchor, 200, &options(), 2_500);
        let ok = r.expect("session should succeed").height;
        let t200: Vec<u64> = state.get_trace(200).iter().map(|b| b.height).collect();
        let t150: Vec<u64> = state.get_trace(150).iter().map(|b| b.height).collect();
        (ok, t200, t150)
    };
    assert_eq!(run(), run());
}

#[test]
fn verified_midpoint_anchors_second_hop_from_store() {
    // A second session over the same state reuses the already-verified
    // target as its anchor without refetching it.
    let anchor = anchor();
    let mut state = fresh_state(&anchor);
    let mut fetcher = MapFetcher::new();
    fetcher.add(block(
        101,
        1_010,
        &[1, 2],
        valset(11, &[(1, 1), (2, 1), (3, 1)]),
        valset(12, &[(4, 1), (5, 1), (6, 1)]),
    ));
    let first = verify_bisection(&mut state, &mut fetcher, &anchor, 101, &options(), 2_000)
        .expect("first hop should succeed");
    fetcher.add(block(
        102,
        1_020,
        &[4, 5],
        valset(12, &[(4, 1), (5, 1), (6, 1)]),
        valset(13, &[(7, 1)]),
    ));
    let second = verify_bisection(&mut state, &mut fetcher, &first, 102, &options(), 2_000)
        .expect("second hop should succeed");
    assert_eq!(second.height, 102);
    let t102: Vec<u64> = state.get_trace(102).iter().map(|b| b.height).collect();
    assert_eq!(t102, vec![101]);
}
