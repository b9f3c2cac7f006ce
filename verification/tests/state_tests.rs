//! Tests for the verification state: tracing and trace retrieval.

use light_client::state::State;
use light_client::store::{latest_trusted_or_verified, LightStore, MemoryStore};
use light_client::types::{LightBlock, Status, Validator, ValidatorSet};

fn valset(hash: u64, members: &[(u64, u64)]) -> ValidatorSet {
    let mut validators: Vec<Validator> = Vec::new();
    for (id, power) in members {
        validators.push(Validator { id: *id, power: *power });
    }
    ValidatorSet { hash, validators }
}

fn simple_block(height: u64) -> LightBlock {
    let vals = valset(10, &[(1, 1)]);
    let next = valset(11, &[(2, 1)]);
    LightBlock {
        height,
        time: height * 10,
        validators_hash: vals.hash,
        next_validators_hash: next.hash,
        signers: vec![1],
        validators: vals,
        next_validators: next,
    }
}

#[test]
fn get_trace_of_unknown_target_is_empty() {
    let state: State<MemoryStore> = State::new(MemoryStore::new());
    assert!(state.get_trace(42).is_empty());
}

#[test]
fn get_trace_resolves_verified_evidence() {
    let mut store = MemoryStore::new();
    store.update(simple_block(100), Status::Verified);
    let mut state = State::new(store);
    state.trace_block(200, 100);
    let trace = state.get_trace(200);
    assert_eq!(trace.len(), 1);
    assert_eq!(trace[0].height(), 100);
}

#[test]
fn get_trace_skips_heights_not_verified() {
    let mut store = MemoryStore::new();
    store.update(simple_block(100), Status::Trusted);
    store.update(simple_block(150), Status::Verified);
    store.update(simple_block(180), Status::Failed);
    let mut state = State::new(store);
    state.trace_block(200, 100);
    state.trace_block(200, 150);
    state.trace_block(200, 180);
    state.trace_block(200, 190);
    let trace = state.get_trace(200);
    assert_eq!(trace.len(), 1);
    assert_eq!(trace[0].height(), 150);
}

#[test]
fn get_trace_orders_by_height_descending() {
    let mut store = MemoryStore::new();
    for h in [110u64, 130, 120, 150, 140] {
        store.update(simple_block(h), Status::Verified);
    }
    let mut state = State::new(store);
    for h in [130u64, 110, 150, 120, 140] {
        state.trace_block(200, h);
    }
    let trace = state.get_trace(200);
    let heights: Vec<u64> = trace.iter().map(|b| b.height).collect();
    assert_eq!(heights, vec![150, 140, 130, 120, 110]);
}

#[test]
fn tracing_twice_equals_tracing_once() {
    let mut store = MemoryStore::new();
    store.update(simple_block(100), Status::Verified);
    let mut state = State::new(store);
    state.trace_block(200, 100);
    let once: Vec<u64> = state.get_trace(200).iter().map(|b| b.height).collect();
    state.trace_block(200, 100);
    let twice: Vec<u64> = state.get_trace(200).iter().map(|b| b.height).collect();
    assert_eq!(once, twice);
    assert_eq!(twice, vec![100]);
}

#[test]
fn evidence_at_target_height_itself_is_allowed() {
    let mut store = MemoryStore::new();
    store.update(simple_block(200), Status::Verified);
    let mut state = State::new(store);
    state.trace_block(200, 200);
    let trace = state.get_trace(200);
    assert_eq!(trace.len(), 1);
    assert_eq!(trace[0].height, 200);
}

#[test]
fn traces_of_different_targets_are_independent() {
    let mut store = MemoryStore::new();
    store.update(simple_block(100), Status::Verified);
    store.update(simple_block(150), Status::Verified);
    let mut state = State::new(store);
    state.trace_block(150, 100);
    state.trace_block(200, 150);
    let t150: Vec<u64> = state.get_trace(150).iter().map(|b| b.height).collect();
    let t200: Vec<u64> = state.get_trace(200).iter().map(|b| b.height).collect();
    assert_eq!(t150, vec![100]);
    assert_eq!(t200, vec![150]);
}

#[test]
fn store_get_respects_status() {
    let mut store = MemoryStore::new();
    store.update(simple_block(100), Status::Unverified);
    assert!(store.get(100, Status::Unverified).is_some());
    assert!(store.get(100, Status::Verified).is_none());
    store.update(simple_block(100), Status::Verified);
    assert!(store.get(100, Status::Unverified).is_none());
    assert!(store.get(100, Status::Verified).is_some());
}

#[test]
fn latest_anchor_prefers_greatest_trusted_or_verified_height() {
    let mut store = MemoryStore::new();
    assert!(latest_trusted_or_verified(&store).is_none());
    store.update(simple_block(120), Status::Unverified);
    store.update(simple_block(190), Status::Failed);
    assert!(latest_trusted_or_verified(&store).is_none());
    store.update(simple_block(100), Status::Trusted);
    assert_eq!(latest_trusted_or_verified(&store).unwrap().height, 100);
    store.update(simple_block(150), Status::Verified);
    assert_eq!(latest_trusted_or_verified(&store).unwrap().height, 150);
}

#[test]
fn store_highest_and_lowest_filter_by_status() {
    let mut store = MemoryStore::new();
    store.update(simple_block(100), Status::Trusted);
    store.update(simple_block(150), Status::Verified);
    store.update(simple_block(120), Status::Verified);
    store.update(simple_block(180), Status::Failed);
    assert_eq!(store.highest(Status::Verified), Some(150));
    assert_eq!(store.lowest(Status::Verified), Some(120));
    assert_eq!(store.highest(Status::Trusted), Some(100));
    assert_eq!(store.lowest(Status::Unverified), None);
}
