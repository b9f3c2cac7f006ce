//! Bisection verifier: extends trust from an anchor to a target height.
//!
//! Given a trusted anchor block and a greater target height, the verifier
//! first attempts a direct trust check on the candidate at the target. If the
//! candidate is structurally valid but the signed overlap of trusted voting
//! power is insufficient, the range is bisected at a midpoint that is a pure
//! function of the two heights, the lower half is verified first, and the
//! newly verified midpoint block becomes the anchor for the upper half. A
//! structurally invalid candidate or an expired anchor terminates the whole
//! session; an adjacent anchor/target pair whose direct check fails is
//! bisection exhaustion.
//!
//! The entire session — the final store contents, the trace edges recorded,
//! the sequence of heights fetched from the source, and the outcome — is a
//! pure function of the inputs, [`spec_bisect`]; the executable verifier is
//! proved equal to it, which makes sessions reproducible and auditable.

use vstd::prelude::*;

use crate::state::{trace_record, State};
use crate::store::{store_keyed_by_height, LightStore};
use crate::trust::{
    power_sum, spec_verdict, verify_candidate, InvalidKind, Options, Verdict,
};
use crate::types::{Height, LightBlock, LightBlockView, Status};

verus! {

/// The errors a verification session can end with.
#[derive(Clone, Copy, PartialEq, Eq, Structural, Debug)]
pub enum VerificationError {
    /// A candidate was structurally invalid; fatal, never retried by
    /// bisecting.
    StructuralInvalid(InvalidKind),
    /// An anchor lay outside the trusting period; fatal, a fresh subjective
    /// anchor is required.
    Expired,
    /// The source could not supply the candidate at this height; retryable at
    /// a policy layer outside this core.
    FetchUnavailable(Height),
    /// No strictly interior height was left between this anchor and target
    /// and the direct check still failed; terminal, the partial trace is
    /// retained.
    BisectionExhausted(Height, Height),
}

/// A source map keyed by height supplies each block at its own height.
pub open spec fn source_keyed_by_height(m: Map<Height, LightBlockView>) -> bool {
    forall|h: Height| #[trigger] m.contains_key(h) ==> m[h].height == h
}

/// Source of candidate light blocks at arbitrary heights. Fetching may
/// involve network transport; failure to fetch is distinct from structural
/// invalidity.
pub trait Fetcher: Sized {
    /// The candidate blocks this source can supply, by height.
    spec fn blocks(&self) -> Map<Height, LightBlockView>;

    /// The heights requested from this source so far, in request order.
    spec fn fetch_log(&self) -> Seq<Height>;

    /// Fetch the candidate at `height`, or report that it is not available.
    fn fetch(&mut self, height: Height) -> (r: Option<LightBlock>)
        ensures
            final(self).blocks() == old(self).blocks(),
            final(self).fetch_log() == old(self).fetch_log().push(height),
            match r {
                Some(b) => old(self).blocks().contains_key(height) && b@ == old(
                    self,
                ).blocks()[height],
                None => !old(self).blocks().contains_key(height),
            },
    ;
}

/// In-memory [`Fetcher`] over a fixed collection of blocks, each supplied at
/// its own height.
pub struct MapFetcher {
    blocks: Vec<LightBlock>,
    log: Ghost<Seq<Height>>,
}

spec fn blocks_map_of(s: Seq<LightBlock>) -> Map<Height, LightBlockView>
    decreases s.len(),
{
    if s.len() == 0 {
        Map::empty()
    } else {
        blocks_map_of(s.drop_last()).insert(s.last()@.height, s.last()@)
    }
}

proof fn lemma_blocks_map_keyed(s: Seq<LightBlock>)
    ensures
        source_keyed_by_height(blocks_map_of(s)),
    decreases s.len(),
{
    if s.len() > 0 {
        lemma_blocks_map_keyed(s.drop_last());
    }
}

impl MapFetcher {
    /// A source with no blocks.
    pub fn new() -> (f: MapFetcher)
        ensures
            f.blocks() == Map::<Height, LightBlockView>::empty(),
            f.fetch_log() == Seq::<Height>::empty(),
    {
        MapFetcher { blocks: Vec::new(), log: Ghost(Seq::empty()) }
    }

    /// Make `block` available at its height.
    pub fn add(&mut self, block: LightBlock)
        ensures
            final(self).blocks() == old(self).blocks().insert(block@.height, block@),
            final(self).fetch_log() == old(self).fetch_log(),
    {
        self.blocks.push(block);
        proof {
            assert(self.blocks@.drop_last() =~= old(self).blocks@);
        }
    }

    /// Every block this source supplies sits at its own height.
    pub proof fn lemma_keyed_by_height(&self)
        ensures
            source_keyed_by_height(self.blocks()),
    {
        lemma_blocks_map_keyed(self.blocks@);
    }
}

impl Fetcher for MapFetcher {
    closed spec fn blocks(&self) -> Map<Height, LightBlockView> {
        blocks_map_of(self.blocks@)
    }

    closed spec fn fetch_log(&self) -> Seq<Height> {
        self.log@
    }

    fn fetch(&mut self, height: Height) -> (r: Option<LightBlock>) {
        self.log = Ghost(self.log@.push(height));
        let ghost s = self.blocks@;
        proof {
            assert(s.take(s.len() as int) =~= s);
        }
        let mut i: usize = self.blocks.len();
        while i > 0
            invariant
                i <= s.len(),
                s == self.blocks@,
                self.blocks@ == old(self).blocks@,
                self.log@ == old(self).log@.push(height),
                blocks_map_of(s).contains_key(height) == blocks_map_of(s.take(i as int)).contains_key(
                    height,
                ),
                blocks_map_of(s).contains_key(height) ==> blocks_map_of(s)[height]
                    == blocks_map_of(s.take(i as int))[height],
            decreases i,
        {
            proof {
                assert(s.take(i as int).drop_last() =~= s.take(i - 1));
                assert(s.take(i as int).last() == s[i - 1]);
            }
            if self.blocks[i - 1].height == height {
                return Some(self.blocks[i - 1].clone());
            }
            i = i - 1;
        }
        proof {
            assert(s.take(0) =~= Seq::<LightBlock>::empty());
        }
        None
    }
}

/// The midpoint used by bisection: a pure function of the two heights, so
/// that repeated sessions over the same inputs fetch the same candidates.
pub open spec fn midpoint(anchor: Height, target: Height) -> Height
    recommends
        anchor + 2 <= target,
{
    (anchor + (target - anchor) / 2) as Height
}

/// For a non-adjacent pair the midpoint is strictly interior, so each
/// recursive call strictly shrinks its height range.
pub proof fn lemma_midpoint_interior(anchor: Height, target: Height)
    requires
        anchor + 2 <= target,
    ensures
        anchor < midpoint(anchor, target) < target,
{
    let d = target - anchor;
    assert(1 <= d / 2 < d);
    assert(anchor + d / 2 <= u64::MAX);
}

fn pick_midpoint(anchor: Height, target: Height) -> (m: Height)
    requires
        anchor + 2 <= target,
    ensures
        m == midpoint(anchor, target),
        anchor < m < target,
{
    proof {
        lemma_midpoint_interior(anchor, target);
    }
    anchor + (target - anchor) / 2
}

/// Outcome of a (sub-)session.
#[verifier::ext_equal]
pub ghost enum SpecOutcome {
    /// Trust was extended to the target; this block now sits there.
    Verified(LightBlockView),
    /// The session terminated with this error.
    Failed(VerificationError),
    /// The recursion bound was exhausted; unreachable with enough fuel.
    OutOfFuel,
}

/// Everything a (sub-)session does: the store it leaves behind, the trace
/// edges it records in order, the heights it fetches from the source in
/// order, and its outcome.
#[verifier::ext_equal]
pub ghost struct SpecRun {
    pub store: Map<Height, (LightBlockView, Status)>,
    pub edges: Seq<(Height, Height)>,
    pub fetched: Seq<Height>,
    pub outcome: SpecOutcome,
}

/// The candidate consulted at `h`: the store's block if one is present in
/// any status, else the source's.
pub open spec fn candidate_at(
    store: Map<Height, (LightBlockView, Status)>,
    src: Map<Height, LightBlockView>,
    h: Height,
) -> Option<LightBlockView> {
    if store.contains_key(h) {
        Some(store[h].0)
    } else if src.contains_key(h) {
        Some(src[h])
    } else {
        None
    }
}

/// The bisection session as a pure function of its inputs. `fuel` bounds the
/// recursion; any fuel of at least `target - trusted.height` yields the same
/// run (see `lemma_bisect_fuel_independent`).
pub open spec fn spec_bisect(
    trusted: LightBlockView,
    target: Height,
    store: Map<Height, (LightBlockView, Status)>,
    src: Map<Height, LightBlockView>,
    options: Options,
    now: u64,
    fuel: nat,
) -> SpecRun
    decreases fuel,
{
    if fuel == 0 {
        SpecRun { store, edges: Seq::empty(), fetched: Seq::empty(), outcome: SpecOutcome::OutOfFuel }
    } else {
        match candidate_at(store, src, target) {
            Option::None => SpecRun {
                store,
                edges: Seq::empty(),
                fetched: seq![target],
                outcome: SpecOutcome::Failed(VerificationError::FetchUnavailable(target)),
            },
            Option::Some(cand) => {
                let fetched0: Seq<Height> = if store.contains_key(target) {
                    Seq::empty()
                } else {
                    seq![target]
                };
                let store0 = if store.contains_key(target) {
                    store
                } else {
                    store.insert(target, (cand, Status::Unverified))
                };
                match spec_verdict(trusted, cand, options, now) {
                    Verdict::Success => SpecRun {
                        store: store0.insert(target, (cand, Status::Verified)),
                        edges: seq![(target, trusted.height)],
                        fetched: fetched0,
                        outcome: SpecOutcome::Verified(cand),
                    },
                    Verdict::Invalid(k) => SpecRun {
                        store: store0.insert(target, (cand, Status::Failed)),
                        edges: Seq::empty(),
                        fetched: fetched0,
                        outcome: SpecOutcome::Failed(VerificationError::StructuralInvalid(k)),
                    },
                    Verdict::Expired => SpecRun {
                        store: store0,
                        edges: Seq::empty(),
                        fetched: fetched0,
                        outcome: SpecOutcome::Failed(VerificationError::Expired),
                    },
                    Verdict::NotEnoughTrust => {
                        if target - trusted.height < 2 {
                            SpecRun {
                                store: store0.insert(target, (cand, Status::Failed)),
                                edges: Seq::empty(),
                                fetched: fetched0,
                                outcome: SpecOutcome::Failed(
                                    VerificationError::BisectionExhausted(trusted.height, target),
                                ),
                            }
                        } else {
                            let mid = midpoint(trusted.height, target);
                            let run1 = spec_bisect(
                                trusted,
                                mid,
                                store0,
                                src,
                                options,
                                now,
                                (fuel - 1) as nat,
                            );
                            match run1.outcome {
                                SpecOutcome::Verified(anchor2) => {
                                    let run2 = spec_bisect(
                                        anchor2,
                                        target,
                                        run1.store,
                                        src,
                                        options,
                                        now,
                                        (fuel - 1) as nat,
                                    );
                                    match run2.outcome {
                                        SpecOutcome::Verified(top) => SpecRun {
                                            store: run2.store,
                                            edges: run1.edges + run2.edges + seq![(target, mid)],
                                            fetched: fetched0 + run1.fetched + run2.fetched,
                                            outcome: SpecOutcome::Verified(top),
                                        },
                                        _ => SpecRun {
                                            store: run2.store,
                                            edges: run1.edges + run2.edges,
                                            fetched: fetched0 + run1.fetched + run2.fetched,
                                            outcome: run2.outcome,
                                        },
                                    }
                                },
                                _ => SpecRun {
                                    store: run1.store,
                                    edges: run1.edges,
                                    fetched: fetched0 + run1.fetched,
                                    outcome: run1.outcome,
                                },
                            }
                        }
                    },
                }
            },
        }
    }
}

/// With enough fuel a session never runs out of it; a verified outcome sits
/// at the target height with bounded voting power in its next validator set;
/// the store it leaves behind is still keyed by height and contains every
/// height the initial store contained.
pub proof fn lemma_bisect_facts(
    trusted: LightBlockView,
    target: Height,
    store: Map<Height, (LightBlockView, Status)>,
    src: Map<Height, LightBlockView>,
    options: Options,
    now: u64,
    fuel: nat,
)
    requires
        trusted.height < target,
        fuel >= target - trusted.height,
        store_keyed_by_height(store),
        source_keyed_by_height(src),
    ensures
        ({
            let run = spec_bisect(trusted, target, store, src, options, now, fuel);
            &&& !(run.outcome is OutOfFuel)
            &&& (run.outcome matches SpecOutcome::Verified(b) ==> b.height == target && power_sum(
                b.next_validators.validators,
            ) <= u64::MAX)
            &&& store_keyed_by_height(run.store)
            &&& (forall|h: Height|
                store.contains_key(h) ==> #[trigger] run.store.contains_key(h))
        }),
    decreases fuel,
{
    let run = spec_bisect(trusted, target, store, src, options, now, fuel);
    match candidate_at(store, src, target) {
        Option::None => {},
        Option::Some(cand) => {
            assert(cand.height == target);
            let store0 = if store.contains_key(target) {
                store
            } else {
                store.insert(target, (cand, Status::Unverified))
            };
            assert(store_keyed_by_height(store0));
            match spec_verdict(trusted, cand, options, now) {
                Verdict::Success => {
                    crate::trust::lemma_success_facts(trusted, cand, options, now);
                },
                Verdict::Invalid(_) => {},
                Verdict::Expired => {},
                Verdict::NotEnoughTrust => {
                    if target - trusted.height >= 2 {
                        let mid = midpoint(trusted.height, target);
                        lemma_midpoint_interior(trusted.height, target);
                        let run1 = spec_bisect(
                            trusted,
                            mid,
                            store0,
                            src,
                            options,
                            now,
                            (fuel - 1) as nat,
                        );
                        lemma_bisect_facts(
                            trusted,
                            mid,
                            store0,
                            src,
                            options,
                            now,
                            (fuel - 1) as nat,
                        );
                        match run1.outcome {
                            SpecOutcome::Verified(anchor2) => {
                                let run2 = spec_bisect(
                                    anchor2,
                                    target,
                                    run1.store,
                                    src,
                                    options,
                                    now,
                                    (fuel - 1) as nat,
                                );
                                lemma_bisect_facts(
                                    anchor2,
                                    target,
                                    run1.store,
                                    src,
                                    options,
                                    now,
                                    (fuel - 1) as nat,
                                );
                            },
                            _ => {},
                        }
                    }
                },
            }
        },
    }
}

/// Determinism of bisection: the session is a pure function of the anchor,
/// the target, the store and source contents, the options and the time; any
/// two sufficient fuels yield the very same run, so two sessions over
/// identical inputs produce identical traces and identical sequences of
/// fetched heights.
pub proof fn lemma_bisect_fuel_independent(
    trusted: LightBlockView,
    target: Height,
    store: Map<Height, (LightBlockView, Status)>,
    src: Map<Height, LightBlockView>,
    options: Options,
    now: u64,
    f1: nat,
    f2: nat,
)
    requires
        trusted.height < target,
        f1 >= target - trusted.height,
        f2 >= target - trusted.height,
        store_keyed_by_height(store),
        source_keyed_by_height(src),
    ensures
        spec_bisect(trusted, target, store, src, options, now, f1) == spec_bisect(
            trusted,
            target,
            store,
            src,
            options,
            now,
            f2,
        ),
    decreases f1,
{
    match candidate_at(store, src, target) {
        Option::None => {},
        Option::Some(cand) => {
            let store0 = if store.contains_key(target) {
                store
            } else {
                store.insert(target, (cand, Status::Unverified))
            };
            assert(store_keyed_by_height(store0));
            match spec_verdict(trusted, cand, options, now) {
                Verdict::NotEnoughTrust => {
                    if target - trusted.height >= 2 {
                        let mid = midpoint(trusted.height, target);
                        lemma_midpoint_interior(trusted.height, target);
                        lemma_bisect_fuel_independent(
                            trusted,
                            mid,
                            store0,
                            src,
                            options,
                            now,
                            (f1 - 1) as nat,
                            (f2 - 1) as nat,
                        );
                        let run1 = spec_bisect(
                            trusted,
                            mid,
                            store0,
                            src,
                            options,
                            now,
                            (f1 - 1) as nat,
                        );
                        lemma_bisect_facts(
                            trusted,
                            mid,
                            store0,
                            src,
                            options,
                            now,
                            (f1 - 1) as nat,
                        );
                        match run1.outcome {
                            SpecOutcome::Verified(anchor2) => {
                                lemma_bisect_fuel_independent(
                                    anchor2,
                                    target,
                                    run1.store,
                                    src,
                                    options,
                                    now,
                                    (f1 - 1) as nat,
                                    (f2 - 1) as nat,
                                );
                            },
                            _ => {},
                        }
                    }
                },
                _ => {},
            }
        },
    }
}

/// Monotonic progress: within one session no height is fetched from the
/// source twice, every fetched height lies in the half-open range between
/// anchor and target and was absent from the store when the session started,
/// and on a verified outcome every fetched height is present in the store
/// the session leaves behind.
pub proof fn lemma_bisect_monotonic(
    trusted: LightBlockView,
    target: Height,
    store: Map<Height, (LightBlockView, Status)>,
    src: Map<Height, LightBlockView>,
    options: Options,
    now: u64,
    fuel: nat,
)
    requires
        trusted.height < target,
        fuel >= target - trusted.height,
        store_keyed_by_height(store),
        source_keyed_by_height(src),
    ensures
        ({
            let run = spec_bisect(trusted, target, store, src, options, now, fuel);
            &&& (forall|i: int, j: int|
                0 <= i < j < run.fetched.len() ==> run.fetched[i] != run.fetched[j])
            &&& (forall|i: int|
                0 <= i < run.fetched.len() ==> trusted.height < #[trigger] run.fetched[i]
                    <= target && !store.contains_key(run.fetched[i]))
            &&& ((run.outcome is Verified) ==> forall|i: int|
                0 <= i < run.fetched.len() ==> run.store.contains_key(#[trigger] run.fetched[i]))
        }),
    decreases fuel,
{
    let run = spec_bisect(trusted, target, store, src, options, now, fuel);
    match candidate_at(store, src, target) {
        Option::None => {},
        Option::Some(cand) => {
            let fetched0: Seq<Height> = if store.contains_key(target) {
                Seq::empty()
            } else {
                seq![target]
            };
            let store0 = if store.contains_key(target) {
                store
            } else {
                store.insert(target, (cand, Status::Unverified))
            };
            assert(store_keyed_by_height(store0));
            assert(store0.contains_key(target));
            match spec_verdict(trusted, cand, options, now) {
                Verdict::NotEnoughTrust => {
                    if target - trusted.height >= 2 {
                        let mid = midpoint(trusted.height, target);
                        lemma_midpoint_interior(trusted.height, target);
                        let run1 = spec_bisect(
                            trusted,
                            mid,
                            store0,
                            src,
                            options,
                            now,
                            (fuel - 1) as nat,
                        );
                        lemma_bisect_facts(
                            trusted,
                            mid,
                            store0,
                            src,
                            options,
                            now,
                            (fuel - 1) as nat,
                        );
                        lemma_bisect_monotonic(
                            trusted,
                            mid,
                            store0,
                            src,
                            options,
                            now,
                            (fuel - 1) as nat,
                        );
                        match run1.outcome {
                            SpecOutcome::Verified(anchor2) => {
                                let run2 = spec_bisect(
                                    anchor2,
                                    target,
                                    run1.store,
                                    src,
                                    options,
                                    now,
                                    (fuel - 1) as nat,
                                );
                                lemma_bisect_facts(
                                    anchor2,
                                    target,
                                    run1.store,
                                    src,
                                    options,
                                    now,
                                    (fuel - 1) as nat,
                                );
                                lemma_bisect_monotonic(
                                    anchor2,
                                    target,
                                    run1.store,
                                    src,
                                    options,
                                    now,
                                    (fuel - 1) as nat,
                                );
                                let f = fetched0 + run1.fetched + run2.fetched;
                                assert(run.fetched == f);
                                assert forall|i: int|
                                    0 <= i < f.len() implies trusted.height < #[trigger] f[i]
                                    <= target && !store.contains_key(f[i]) by {
                                    if i < fetched0.len() {
                                        assert(f[i] == target);
                                    } else if i < fetched0.len() + run1.fetched.len() {
                                        let k = i - fetched0.len();
                                        assert(f[i] == run1.fetched[k]);
                                        assert(trusted.height < run1.fetched[k] <= mid);
                                        assert(!store0.contains_key(run1.fetched[k]));
                                    } else {
                                        let k = i - fetched0.len() - run1.fetched.len();
                                        assert(f[i] == run2.fetched[k]);
                                        assert(anchor2.height < run2.fetched[k] <= target);
                                        assert(!run1.store.contains_key(run2.fetched[k]));
                                        if store.contains_key(run2.fetched[k]) {
                                            assert(store0.contains_key(run2.fetched[k]));
                                            assert(run1.store.contains_key(run2.fetched[k]));
                                        }
                                    }
                                }
                                if run.outcome is Verified {
                                    assert(run2.outcome is Verified);
                                    assert forall|i: int| 0 <= i < f.len() implies
                                        run.store.contains_key(#[trigger] f[i]) by {
                                        if i < fetched0.len() {
                                            assert(f[i] == target);
                                            assert(run1.store.contains_key(target));
                                            assert(run2.store.contains_key(target));
                                        } else if i < fetched0.len() + run1.fetched.len() {
                                            let k = i - fetched0.len();
                                            assert(f[i] == run1.fetched[k]);
                                            assert(run1.store.contains_key(run1.fetched[k]));
                                            assert(run2.store.contains_key(run1.fetched[k]));
                                        } else {
                                            let k = i - fetched0.len() - run1.fetched.len();
                                            assert(f[i] == run2.fetched[k]);
                                            assert(run2.store.contains_key(run2.fetched[k]));
                                        }
                                    }
                                }
                                assert forall|i: int, j: int|
                                    0 <= i < j < f.len() implies f[i] != f[j] by {
                                    let n0 = fetched0.len() as int;
                                    let n1 = run1.fetched.len() as int;
                                    if j < n0 {
                                    } else if j < n0 + n1 {
                                        let jk = j - n0;
                                        assert(f[j] == run1.fetched[jk]);
                                        if i < n0 {
                                            assert(f[i] == target);
                                            assert(run1.fetched[jk] <= mid < target);
                                        } else {
                                            assert(f[i] == run1.fetched[i - n0]);
                                        }
                                    } else {
                                        let jk = j - n0 - n1;
                                        assert(f[j] == run2.fetched[jk]);
                                        assert(!run1.store.contains_key(run2.fetched[jk]));
                                        if i < n0 {
                                            assert(f[i] == target);
                                            assert(run1.store.contains_key(target));
                                        } else if i < n0 + n1 {
                                            assert(f[i] == run1.fetched[i - n0]);
                                            assert(run1.store.contains_key(run1.fetched[i - n0]));
                                        } else {
                                            assert(f[i] == run2.fetched[i - n0 - n1]);
                                        }
                                    }
                                }
                            },
                            _ => {
                                let f = fetched0 + run1.fetched;
                                assert(run.fetched == f);
                                assert forall|i: int|
                                    0 <= i < f.len() implies trusted.height < #[trigger] f[i]
                                    <= target && !store.contains_key(f[i]) by {
                                    if i < fetched0.len() {
                                        assert(f[i] == target);
                                    } else {
                                        let k = i - fetched0.len();
                                        assert(f[i] == run1.fetched[k]);
                                        assert(trusted.height < run1.fetched[k] <= mid);
                                        assert(!store0.contains_key(run1.fetched[k]));
                                    }
                                }
                                assert forall|i: int, j: int|
                                    0 <= i < j < f.len() implies f[i] != f[j] by {
                                    let n0 = fetched0.len() as int;
                                    if j >= n0 {
                                        assert(f[j] == run1.fetched[j - n0]);
                                        if i < n0 {
                                            assert(f[i] == target);
                                            assert(run1.fetched[j - n0] <= mid < target);
                                        } else {
                                            assert(f[i] == run1.fetched[i - n0]);
                                        }
                                    }
                                }
                            },
                        }
                    }
                },
                _ => {},
            }
        },
    }
}

/// Replaying a sequence of trace edges onto a trace map, in order.
pub open spec fn apply_edges(
    m: Map<Height, Set<Height>>,
    edges: Seq<(Height, Height)>,
) -> Map<Height, Set<Height>>
    decreases edges.len(),
{
    if edges.len() == 0 {
        m
    } else {
        apply_edges(trace_record(m, edges[0].0, edges[0].1), edges.skip(1))
    }
}

proof fn lemma_apply_edges_concat(
    m: Map<Height, Set<Height>>,
    e1: Seq<(Height, Height)>,
    e2: Seq<(Height, Height)>,
)
    ensures
        apply_edges(m, e1 + e2) == apply_edges(apply_edges(m, e1), e2),
    decreases e1.len(),
{
    if e1.len() == 0 {
        assert(e1 + e2 =~= e2);
    } else {
        assert((e1 + e2)[0] == e1[0]);
        assert((e1 + e2).skip(1) =~= e1.skip(1) + e2);
        lemma_apply_edges_concat(trace_record(m, e1[0].0, e1[0].1), e1.skip(1), e2);
    }
}

proof fn lemma_apply_edges_single(m: Map<Height, Set<Height>>, t: Height, h: Height)
    ensures
        apply_edges(m, seq![(t, h)]) == trace_record(m, t, h),
{
    let e = seq![(t, h)];
    let m2 = trace_record(m, t, h);
    assert(e[0] == (t, h));
    assert(e.skip(1).len() == 0);
    assert(apply_edges(m2, e.skip(1)) == m2);
}

/// The block at `height` in whatever status it is currently recorded.
fn store_get_any<S: LightStore>(store: &S, height: Height) -> (r: Option<LightBlock>)
    requires
        store.inv(),
    ensures
        match r {
            Some(b) => store.store_view().contains_key(height) && store.store_view()[height].0
                == b@,
            None => !store.store_view().contains_key(height),
        },
{
    match store.get(height, Status::Trusted) {
        Some(b) => { return Some(b); },
        None => {},
    }
    match store.get(height, Status::Verified) {
        Some(b) => { return Some(b); },
        None => {},
    }
    match store.get(height, Status::Unverified) {
        Some(b) => { return Some(b); },
        None => {},
    }
    match store.get(height, Status::Failed) {
        Some(b) => Some(b),
        None => {
            proof {
                if store.store_view().contains_key(height) {
                    match store.store_view()[height].1 {
                        Status::Unverified => { assert(false); },
                        Status::Verified => { assert(false); },
                        Status::Trusted => { assert(false); },
                        Status::Failed => { assert(false); },
                    }
                }
            }
            None
        },
    }
}

/// Extend trust from `trusted` (the anchor) to `target_height`.
///
/// Attempts the direct check at the target first; on insufficient trust,
/// bisects at the midpoint and verifies the two halves in order, the newly
/// verified midpoint block anchoring the upper half. Every verified height is
/// marked `Verified` in the store and traced; a structurally invalid
/// candidate is marked `Failed` and ends the session; an adjacent pair whose
/// direct check fails ends the session as exhausted, with the partial trace
/// retained.
///
/// The whole session equals [`spec_bisect`] applied to the initial store and
/// source contents: the final store, the recorded trace edges, the fetched
/// heights and the outcome are each pinned by that one pure function.
pub fn verify_bisection<S: LightStore, F: Fetcher>(
    state: &mut State<S>,
    fetcher: &mut F,
    trusted: &LightBlock,
    target_height: Height,
    options: &Options,
    now: u64,
) -> (r: Result<LightBlock, VerificationError>)
    requires
        old(state).wf(),
        trusted@.height < target_height,
        power_sum(trusted@.next_validators.validators) <= u64::MAX,
        options.trust_threshold.wf(),
        source_keyed_by_height(old(fetcher).blocks()),
    ensures
        final(state).wf(),
        ({
            let run = spec_bisect(
                trusted@,
                target_height,
                old(state).light_store.store_view(),
                old(fetcher).blocks(),
                *options,
                now,
                (target_height - trusted@.height) as nat,
            );
            &&& final(state).light_store.store_view() == run.store
            &&& final(state).verification_trace@ == apply_edges(
                old(state).verification_trace@,
                run.edges,
            )
            &&& final(fetcher).blocks() == old(fetcher).blocks()
            &&& final(fetcher).fetch_log() == old(fetcher).fetch_log() + run.fetched
            &&& (match r {
                Ok(b) => run.outcome == SpecOutcome::Verified(b@),
                Err(e) => run.outcome == SpecOutcome::Failed(e),
            })
        }),
    decreases target_height - trusted@.height,
{
    let ghost store_v = state.light_store.store_view();
    let ghost src_v = fetcher.blocks();
    let ghost trace_v = state.verification_trace@;
    let ghost log_v = fetcher.fetch_log();
    let ghost fuel = (target_height - trusted@.height) as nat;
    let ghost run = spec_bisect(trusted@, target_height, store_v, src_v, *options, now, fuel);
    proof {
        state.light_store.lemma_inv_keyed_by_height();
    }

    // Retrieve the candidate at the target height from the store, fetching
    // it from the source on a miss.
    let cand: LightBlock;
    let ghost fetched0: Seq<Height> = Seq::empty();
    match store_get_any(&state.light_store, target_height) {
        Some(b) => {
            cand = b;
            proof {
                assert(log_v + fetched0 =~= log_v);
            }
        },
        None => {
            match fetcher.fetch(target_height) {
                Some(b) => {
                    state.light_store.update(b.clone(), Status::Unverified);
                    cand = b;
                    proof {
                        fetched0 = seq![target_height];
                        assert(log_v + fetched0 =~= log_v.push(target_height));
                    }
                },
                None => {
                    proof {
                        assert(candidate_at(store_v, src_v, target_height) is None);
                        assert(run.edges.len() == 0);
                        assert(apply_edges(trace_v, run.edges) == trace_v);
                        assert(log_v + run.fetched =~= log_v.push(target_height));
                    }
                    return Err(VerificationError::FetchUnavailable(target_height));
                },
            }
        },
    }
    let ghost store0_v = state.light_store.store_view();
    proof {
        assert(cand@.height == target_height);
        assert(candidate_at(store_v, src_v, target_height) == Some(cand@));
        assert(store0_v == if store_v.contains_key(target_height) {
            store_v
        } else {
            store_v.insert(target_height, (cand@, Status::Unverified))
        });
        assert(store_keyed_by_height(store0_v));
        assert(fetcher.fetch_log() == log_v + fetched0);
        assert(fetched0 == if store_v.contains_key(target_height) {
            Seq::<Height>::empty()
        } else {
            seq![target_height]
        });
    }

    match verify_candidate(trusted, &cand, options, now) {
        Verdict::Success => {
            state.light_store.update(cand.clone(), Status::Verified);
            state.trace_block(target_height, trusted.height);
            proof {
                lemma_apply_edges_single(trace_v, target_height, trusted@.height);
                assert(run.store == store0_v.insert(target_height, (cand@, Status::Verified)));
                assert(run.edges == seq![(target_height, trusted@.height)]);
                assert(run.fetched == fetched0);
            }
            Ok(cand)
        },
        Verdict::Invalid(k) => {
            state.light_store.update(cand.clone(), Status::Failed);
            proof {
                assert(run.edges.len() == 0);
                assert(apply_edges(trace_v, run.edges) == trace_v);
            }
            Err(VerificationError::StructuralInvalid(k))
        },
        Verdict::Expired => {
            proof {
                assert(run.store == store0_v);
                assert(run.edges.len() == 0);
                assert(apply_edges(trace_v, run.edges) == trace_v);
            }
            Err(VerificationError::Expired)
        },
        Verdict::NotEnoughTrust => {
            if target_height - trusted.height < 2 {
                state.light_store.update(cand.clone(), Status::Failed);
                proof {
                    assert(run.edges.len() == 0);
                    assert(apply_edges(trace_v, run.edges) == trace_v);
                }
                Err(VerificationError::BisectionExhausted(trusted.height, target_height))
            } else {
                let mid = pick_midpoint(trusted.height, target_height);
                let ghost run1 = spec_bisect(
                    trusted@,
                    mid,
                    store0_v,
                    src_v,
                    *options,
                    now,
                    (fuel - 1) as nat,
                );
                proof {
                    lemma_bisect_fuel_independent(
                        trusted@,
                        mid,
                        store0_v,
                        src_v,
                        *options,
                        now,
                        (fuel - 1) as nat,
                        (mid - trusted@.height) as nat,
                    );
                    lemma_bisect_facts(
                        trusted@,
                        mid,
                        store0_v,
                        src_v,
                        *options,
                        now,
                        (fuel - 1) as nat,
                    );
                }
                match verify_bisection(state, fetcher, trusted, mid, options, now) {
                    Err(e) => {
                        proof {
                            assert(run.store == run1.store);
                            assert(run.edges == run1.edges);
                            assert(run.fetched == fetched0 + run1.fetched);
                            assert((log_v + fetched0) + run1.fetched =~= log_v + (fetched0
                                + run1.fetched));
                        }
                        Err(e)
                    },
                    Ok(new_anchor) => {
                        proof {
                            assert(run1.outcome == SpecOutcome::Verified(new_anchor@));
                            assert(new_anchor@.height == mid);
                            lemma_bisect_fuel_independent(
                                new_anchor@,
                                target_height,
                                run1.store,
                                src_v,
                                *options,
                                now,
                                (fuel - 1) as nat,
                                (target_height - mid) as nat,
                            );
                            lemma_bisect_facts(
                                new_anchor@,
                                target_height,
                                run1.store,
                                src_v,
                                *options,
                                now,
                                (fuel - 1) as nat,
                            );
                        }
                        let ghost run2 = spec_bisect(
                            new_anchor@,
                            target_height,
                            run1.store,
                            src_v,
                            *options,
                            now,
                            (fuel - 1) as nat,
                        );
                        match verify_bisection(
                            state,
                            fetcher,
                            &new_anchor,
                            target_height,
                            options,
                            now,
                        ) {
                            Err(e) => {
                                proof {
                                    lemma_apply_edges_concat(trace_v, run1.edges, run2.edges);
                                    assert(run.store == run2.store);
                                    assert(run.edges == run1.edges + run2.edges);
                                    assert(run.fetched == fetched0 + run1.fetched + run2.fetched);
                                    assert(((log_v + fetched0) + run1.fetched) + run2.fetched
                                        =~= log_v + (fetched0 + run1.fetched + run2.fetched));
                                }
                                Err(e)
                            },
                            Ok(top) => {
                                state.trace_block(target_height, mid);
                                proof {
                                    lemma_apply_edges_concat(trace_v, run1.edges, run2.edges);
                                    lemma_apply_edges_concat(
                                        trace_v,
                                        run1.edges + run2.edges,
                                        seq![(target_height, mid)],
                                    );
                                    lemma_apply_edges_single(
                                        apply_edges(trace_v, run1.edges + run2.edges),
                                        target_height,
                                        mid,
                                    );
                                    assert(run.store == run2.store);
                                    assert(run.edges == run1.edges + run2.edges + seq![
                                        (target_height, mid),
                                    ]);
                                    assert(run.fetched == fetched0 + run1.fetched + run2.fetched);
                                    assert(((log_v + fetched0) + run1.fetched) + run2.fetched
                                        =~= log_v + (fetched0 + run1.fetched + run2.fetched));
                                }
                                Ok(top)
                            },
                        }
                    },
                }
            }
        },
    }
}

} // verus!
