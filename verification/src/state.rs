//! State maintained by the light client: store handle and verification trace.
//!
//! The verification trace maps a target height to the set of heights whose
//! blocks were directly used as evidence to justify that target. Its
//! invariant: every evidence height is at most its target height. The trace
//! is conceptually a dependency graph flattened into a mapping for idempotent
//! edge insertion.

use vstd::prelude::*;

use crate::store::{store_keyed_by_height, LightStore};
use crate::types::{copy_u64s, Height, LightBlock, LightBlockView, Status};

verus! {

/// A sequence of heights in strictly descending order.
pub open spec fn strictly_descending(s: Seq<Height>) -> bool {
    forall|i: int, j: int| 0 <= i < j < s.len() ==> s[i] > s[j]
}

/// Mathematical effect of recording evidence `height` for `target`:
/// idempotently insert `height` into the evidence set of `target`.
pub open spec fn trace_record(m: Map<Height, Set<Height>>, target: Height, height: Height) -> Map<
    Height,
    Set<Height>,
> {
    let s = if m.contains_key(target) {
        m[target]
    } else {
        Set::empty()
    };
    m.insert(target, s.insert(height))
}

/// Recording the same evidence twice yields the same trace as recording it
/// once.
pub proof fn lemma_trace_record_idempotent(m: Map<Height, Set<Height>>, target: Height, height: Height)
    ensures
        trace_record(trace_record(m, target, height), target, height) == trace_record(
            m,
            target,
            height,
        ),
{
    let once = trace_record(m, target, height);
    let twice = trace_record(once, target, height);
    assert(once[target].insert(height) =~= once[target]);
    assert(twice =~= once);
}

#[derive(Debug)]
struct TraceEntry {
    target: Height,
    evidence: Vec<Height>,
}

/// Records which blocks were needed to verify a target block, eg. during
/// bisection. Modelled as a map from target height to evidence-height set.
#[derive(Debug)]
pub struct VerificationTrace {
    entries: Vec<TraceEntry>,
}

spec fn targets_have(s: Seq<TraceEntry>, t: Height) -> bool {
    exists|i: int| 0 <= i < s.len() && s[i].target == t
}

spec fn target_index(s: Seq<TraceEntry>, t: Height) -> int {
    choose|i: int| 0 <= i < s.len() && s[i].target == t
}

spec fn trace_map_of(s: Seq<TraceEntry>) -> Map<Height, Set<Height>> {
    Map::new(|t: Height| targets_have(s, t), |t: Height| s[target_index(s, t)].evidence@.to_set())
}

spec fn entry_wf(e: TraceEntry) -> bool {
    strictly_descending(e.evidence@) && forall|k: int|
        0 <= k < e.evidence@.len() ==> e.evidence@[k] <= e.target
}

spec fn trace_entries_wf(s: Seq<TraceEntry>) -> bool {
    (forall|i: int, j: int| 0 <= i < j < s.len() ==> s[i].target != s[j].target) && forall|i: int|
        0 <= i < s.len() ==> #[trigger] entry_wf(s[i])
}

proof fn lemma_target_index_agrees(s: Seq<TraceEntry>, i: int)
    requires
        trace_entries_wf(s),
        0 <= i < s.len(),
    ensures
        targets_have(s, s[i].target),
        target_index(s, s[i].target) == i,
{
    let t = s[i].target;
    assert(targets_have(s, t));
    let j = target_index(s, t);
    if i < j {
        assert(s[i].target != s[j].target);
    } else if j < i {
        assert(s[j].target != s[i].target);
    }
}

proof fn lemma_trace_map_update(s: Seq<TraceEntry>, k: int, e: TraceEntry)
    requires
        trace_entries_wf(s),
        0 <= k < s.len(),
        e.target == s[k].target,
        entry_wf(e),
    ensures
        trace_entries_wf(s.update(k, e)),
        trace_map_of(s.update(k, e)) == trace_map_of(s).insert(e.target, e.evidence@.to_set()),
{
    let s2 = s.update(k, e);
    let t0 = e.target;
    assert forall|i: int, j: int| 0 <= i < j < s2.len() implies s2[i].target != s2[j].target by {
        assert(s[i].target != s[j].target);
    }
    assert forall|i: int| 0 <= i < s2.len() implies #[trigger] entry_wf(s2[i]) by {
        if i != k {
            assert(s2[i] == s[i]);
        }
    }
    assert forall|t: Height| #[trigger] targets_have(s2, t) && t != t0 implies targets_have(s, t)
        && trace_map_of(s2)[t] == trace_map_of(s)[t] by {
        let i = target_index(s2, t);
        assert(0 <= i < s2.len() && s2[i].target == t);
        assert(i != k);
        assert(s[i].target == t);
        lemma_target_index_agrees(s2, i);
        lemma_target_index_agrees(s, i);
    }
    assert forall|t: Height| #[trigger] targets_have(s, t) implies targets_have(s2, t) by {
        let i = target_index(s, t);
        assert(0 <= i < s.len() && s[i].target == t);
        if i == k {
            assert(s2[k].target == t0);
        } else {
            assert(s2[i].target == t);
        }
    }
    lemma_target_index_agrees(s2, k);
    assert(trace_map_of(s2) =~= trace_map_of(s).insert(t0, e.evidence@.to_set()));
}

proof fn lemma_trace_map_push(s: Seq<TraceEntry>, e: TraceEntry)
    requires
        trace_entries_wf(s),
        !targets_have(s, e.target),
        entry_wf(e),
    ensures
        trace_entries_wf(s.push(e)),
        trace_map_of(s.push(e)) == trace_map_of(s).insert(e.target, e.evidence@.to_set()),
{
    let s2 = s.push(e);
    let t0 = e.target;
    assert forall|i: int, j: int| 0 <= i < j < s2.len() implies s2[i].target != s2[j].target by {
        if j == s.len() {
            if s[i].target == t0 {
                assert(targets_have(s, t0));
            }
        } else {
            assert(s[i].target != s[j].target);
        }
    }
    assert forall|i: int| 0 <= i < s2.len() implies #[trigger] entry_wf(s2[i]) by {
        if i != s.len() {
            assert(s2[i] == s[i]);
        }
    }
    assert forall|t: Height| #[trigger] targets_have(s2, t) && t != t0 implies targets_have(s, t)
        && trace_map_of(s2)[t] == trace_map_of(s)[t] by {
        let i = target_index(s2, t);
        assert(0 <= i < s2.len() && s2[i].target == t);
        assert(i != s.len());
        assert(s[i].target == t);
        lemma_target_index_agrees(s2, i);
        lemma_target_index_agrees(s, i);
    }
    assert forall|t: Height| #[trigger] targets_have(s, t) implies targets_have(s2, t) by {
        let i = target_index(s, t);
        assert(0 <= i < s.len() && s[i].target == t);
        assert(s2[i].target == t);
    }
    lemma_target_index_agrees(s2, s.len() as int);
    assert(trace_map_of(s2) =~= trace_map_of(s).insert(t0, e.evidence@.to_set()));
}

/// Insert `h` into a strictly descending list of heights, keeping order and
/// leaving the list unchanged when `h` is already present.
fn insert_sorted_desc(ev: &Vec<Height>, h: Height) -> (r: Vec<Height>)
    requires
        strictly_descending(ev@),
    ensures
        strictly_descending(r@),
        r@.to_set() == ev@.to_set().insert(h),
        forall|x: Height| r@.contains(x) ==> ev@.contains(x) || x == h,
{
    let mut p: usize = 0;
    while p < ev.len() && ev[p] > h
        invariant
            p <= ev@.len(),
            forall|k: int| 0 <= k < p ==> ev@[k] > h,
        decreases ev@.len() - p,
    {
        p = p + 1;
    }
    if p < ev.len() && ev[p] == h {
        let r = copy_u64s(ev);
        proof {
            assert(ev@.contains(h));
            assert(r@.to_set() =~= ev@.to_set().insert(h));
        }
        return r;
    }
    let mut r = copy_u64s(ev);
    r.insert(p, h);
    proof {
        ev@.insert_ensures(p as int, h);
        let rs = r@;
        let pi = p as int;
        assert(rs.len() == ev@.len() + 1);
        assert forall|x: Height| rs.contains(x) implies (ev@.contains(x) || x == h) by {
            let i = choose|i: int| 0 <= i < rs.len() && rs[i] == x;
            if i < pi {
                assert(ev@[i] == x);
            } else if i > pi {
                assert(rs[(i - 1) + 1] == ev@[i - 1]);
                assert(ev@[i - 1] == x);
            }
        }
        assert forall|x: Height| ev@.contains(x) || x == h implies rs.contains(x) by {
            if x == h {
                assert(rs[pi] == x);
            } else {
                let i = choose|i: int| 0 <= i < ev@.len() && ev@[i] == x;
                if i < pi {
                    assert(rs[i] == x);
                } else {
                    assert(rs[i + 1] == x);
                }
            }
        }
        assert(rs.to_set() =~= ev@.to_set().insert(h));
        assert forall|i: int, j: int| 0 <= i < j < rs.len() implies rs[i] > rs[j] by {
            if j < pi {
                assert(rs[i] == ev@[i] && rs[j] == ev@[j]);
            } else if j == pi {
                assert(rs[i] == ev@[i] && ev@[i] > h);
            } else {
                assert(rs[j] == ev@[j - 1]);
                assert(pi <= j - 1 < ev@.len());
                assert(ev@[pi] < h);
                if i < pi {
                    assert(rs[i] == ev@[i]);
                } else if i == pi {
                    assert(ev@[j - 1] <= ev@[pi]);
                } else {
                    assert(rs[i] == ev@[i - 1]);
                }
            }
        }
    }
    r
}

impl View for VerificationTrace {
    type V = Map<Height, Set<Height>>;

    closed spec fn view(&self) -> Map<Height, Set<Height>> {
        trace_map_of(self.entries@)
    }
}

impl VerificationTrace {
    /// Representation invariant: distinct targets, evidence strictly
    /// descending, and every evidence height at most its target.
    pub closed spec fn wf(&self) -> bool {
        trace_entries_wf(self.entries@)
    }

    /// The evidence heights recorded for `t`, most recent first; empty when
    /// nothing was recorded for `t`.
    pub closed spec fn evidence_list(&self, t: Height) -> Seq<Height> {
        if targets_have(self.entries@, t) {
            self.entries@[target_index(self.entries@, t)].evidence@
        } else {
            Seq::empty()
        }
    }

    /// Trace height invariant: every recorded evidence height is at most its
    /// target height.
    pub proof fn lemma_height_invariant(&self, t: Height, h: Height)
        requires
            self.wf(),
            self@.contains_key(t),
            self@[t].contains(h),
        ensures
            h <= t,
    {
        let i = target_index(self.entries@, t);
        assert(0 <= i < self.entries@.len() && self.entries@[i].target == t);
        assert(entry_wf(self.entries@[i]));
        let ev = self.entries@[i].evidence@;
        assert(ev.contains(h));
        let k = choose|k: int| 0 <= k < ev.len() && ev[k] == h;
        assert(ev[k] <= t);
    }

    /// The evidence list is strictly descending, and carries exactly the
    /// evidence set recorded for `t`.
    pub proof fn lemma_evidence_list(&self, t: Height)
        requires
            self.wf(),
        ensures
            strictly_descending(self.evidence_list(t)),
            self@.contains_key(t) ==> self.evidence_list(t).to_set() == self@[t],
            !self@.contains_key(t) ==> self.evidence_list(t) == Seq::<Height>::empty(),
    {
        if targets_have(self.entries@, t) {
            let i = target_index(self.entries@, t);
            assert(0 <= i < self.entries@.len() && self.entries@[i].target == t);
            assert(entry_wf(self.entries@[i]));
        }
    }

    /// An empty trace.
    pub fn new() -> (tr: VerificationTrace)
        ensures
            tr.wf(),
            tr@ == Map::<Height, Set<Height>>::empty(),
    {
        let tr = VerificationTrace { entries: Vec::new() };
        proof {
            assert(tr@ =~= Map::<Height, Set<Height>>::empty());
        }
        tr
    }

    /// Idempotently insert `height` into the evidence set for `target`.
    pub fn record(&mut self, target: Height, height: Height)
        requires
            height <= target,
            old(self).wf(),
        ensures
            final(self).wf(),
            final(self)@ == trace_record(old(self)@, target, height),
    {
        let ghost s0 = self.entries@;
        let mut k: usize = 0;
        let mut found: bool = false;
        while k < self.entries.len() && !found
            invariant
                k <= self.entries@.len(),
                found ==> k < self.entries@.len() && self.entries@[k as int].target == target,
                !found ==> forall|j: int| 0 <= j < k ==> self.entries@[j].target != target,
            decreases self.entries@.len() - k, (if found { 0int } else { 1int }),
        {
            if self.entries[k].target == target {
                found = true;
            } else {
                k = k + 1;
            }
        }
        if found {
            proof {
                lemma_target_index_agrees(s0, k as int);
                assert(entry_wf(s0[k as int]));
            }
            let new_ev = insert_sorted_desc(&self.entries[k].evidence, height);
            let ghost e = TraceEntry { target: target, evidence: new_ev };
            proof {
                assert forall|x: int| 0 <= x < new_ev@.len() implies new_ev@[x] <= target by {
                    let v = new_ev@[x];
                    assert(new_ev@.contains(v));
                    if s0[k as int].evidence@.contains(v) {
                        let j = choose|j: int|
                            0 <= j < s0[k as int].evidence@.len() && s0[k as int].evidence@[j]
                                == v;
                        assert(s0[k as int].evidence@[j] <= target);
                    }
                }
                assert(entry_wf(e));
                lemma_trace_map_update(s0, k as int, e);
                assert(trace_map_of(s0)[target] == s0[k as int].evidence@.to_set());
                assert(new_ev@.to_set() =~= trace_map_of(s0)[target].insert(height));
            }
            self.entries.set(k, TraceEntry { target, evidence: new_ev });
            proof {
                assert(self@ == trace_record(trace_map_of(s0), target, height));
            }
        } else {
            let mut ev: Vec<Height> = Vec::new();
            ev.push(height);
            let ghost e = TraceEntry { target: target, evidence: ev };
            proof {
                assert(!targets_have(s0, target));
                assert(ev@ =~= seq![height]);
                assert(entry_wf(e));
                lemma_trace_map_push(s0, e);
                assert forall|x: Height| ev@.contains(x) implies x == height by {
                    let i = choose|i: int| 0 <= i < ev@.len() && ev@[i] == x;
                    assert(i == 0);
                }
                assert(ev@[0] == height);
                assert(ev@.contains(height));
                assert(ev@.to_set() =~= Set::<Height>::empty().insert(height));
                assert(!trace_map_of(s0).contains_key(target));
            }
            self.entries.push(TraceEntry { target, evidence: ev });
            proof {
                assert(self@ == trace_record(trace_map_of(s0), target, height));
            }
        }
    }

    /// The evidence heights recorded for `t`, most recent first, as a fresh
    /// vector.
    pub fn evidence(&self, t: Height) -> (r: Vec<Height>)
        requires
            self.wf(),
        ensures
            r@ == self.evidence_list(t),
    {
        let mut k: usize = 0;
        while k < self.entries.len()
            invariant
                k <= self.entries@.len(),
                self.wf(),
                forall|j: int| 0 <= j < k ==> self.entries@[j].target != t,
            decreases self.entries@.len() - k,
        {
            if self.entries[k].target == t {
                proof {
                    lemma_target_index_agrees(self.entries@, k as int);
                }
                return copy_u64s(&self.entries[k].evidence);
            }
            k = k + 1;
        }
        proof {
            if targets_have(self.entries@, t) {
                let i = target_index(self.entries@, t);
                assert(0 <= i < self.entries@.len() && self.entries@[i].target == t);
            }
        }
        Vec::new()
    }
}

/// Two strictly descending height lists with the same elements are equal:
/// a strictly descending list is determined by the set it carries.
pub proof fn lemma_descending_unique(a: Seq<Height>, b: Seq<Height>)
    requires
        strictly_descending(a),
        strictly_descending(b),
        a.to_set() == b.to_set(),
    ensures
        a == b,
    decreases a.len(),
{
    if a.len() == 0 {
        if b.len() > 0 {
            assert(b.contains(b[0]));
            assert(b.to_set().contains(b[0]));
            assert(a.contains(b[0]));
            assert(false);
        }
        assert(a =~= b);
    } else if b.len() == 0 {
        assert(a.contains(a[0]));
        assert(a.to_set().contains(a[0]));
        assert(b.contains(a[0]));
        assert(false);
    } else {
        assert(a.contains(a[0]));
        assert(b.contains(b[0]));
        assert(a.to_set().contains(b[0]));
        assert(a.contains(b[0]));
        let i = choose|i: int| 0 <= i < a.len() && a[i] == b[0];
        assert(a[i] <= a[0]);
        assert(b.to_set().contains(a[0]));
        assert(b.contains(a[0]));
        let j = choose|j: int| 0 <= j < b.len() && b[j] == a[0];
        assert(b[j] <= b[0]);
        assert(a[0] == b[0]);
        let at = a.skip(1);
        let bt = b.skip(1);
        assert forall|x: Height| at.contains(x) implies a.contains(x) && x != a[0] by {
            let k = choose|k: int| 0 <= k < at.len() && at[k] == x;
            assert(a[k + 1] == x);
            assert(a[0] > a[k + 1]);
        }
        assert forall|x: Height| a.contains(x) && x != a[0] implies at.contains(x) by {
            let k = choose|k: int| 0 <= k < a.len() && a[k] == x;
            assert(k >= 1);
            assert(at[k - 1] == x);
        }
        assert forall|x: Height| bt.contains(x) implies b.contains(x) && x != b[0] by {
            let k = choose|k: int| 0 <= k < bt.len() && bt[k] == x;
            assert(b[k + 1] == x);
            assert(b[0] > b[k + 1]);
        }
        assert forall|x: Height| b.contains(x) && x != b[0] implies bt.contains(x) by {
            let k = choose|k: int| 0 <= k < b.len() && b[k] == x;
            assert(k >= 1);
            assert(bt[k - 1] == x);
        }
        assert forall|x: Height| at.to_set().contains(x) implies bt.to_set().contains(x) by {
            assert(a.to_set().contains(x));
            assert(b.contains(x));
        }
        assert forall|x: Height| bt.to_set().contains(x) implies at.to_set().contains(x) by {
            assert(b.to_set().contains(x));
            assert(a.contains(x));
        }
        assert(at.to_set() =~= bt.to_set());
        lemma_descending_unique(at, bt);
        assert(a.len() == b.len());
        assert forall|k: int| 0 <= k < a.len() implies a[k] == b[k] by {
            if k >= 1 {
                assert(at[k - 1] == a[k]);
                assert(bt[k - 1] == b[k]);
            }
        }
        assert(a =~= b);
    }
}

/// The evidence list, and with it the result of `get_trace`, is determined
/// by the recorded trace map alone: two well-formed traces with equal views
/// carry equal evidence lists for every target.
pub proof fn lemma_evidence_list_determined(
    t1: &VerificationTrace,
    t2: &VerificationTrace,
    target: Height,
)
    requires
        t1.wf(),
        t2.wf(),
        t1@ == t2@,
    ensures
        t1.evidence_list(target) == t2.evidence_list(target),
{
    t1.lemma_evidence_list(target);
    t2.lemma_evidence_list(target);
    if t1@.contains_key(target) {
        lemma_descending_unique(t1.evidence_list(target), t2.evidence_list(target));
    }
}

/// Whether the store records a `Verified` block at `h`.
pub open spec fn verified_at(
    store: Map<Height, (LightBlockView, Status)>,
    h: Height,
) -> bool {
    store.contains_key(h) && store[h].1 == Status::Verified
}

/// The views of a sequence of light blocks.
pub open spec fn blocks_view(s: Seq<LightBlock>) -> Seq<LightBlockView> {
    s.map_values(|b: LightBlock| b@)
}

/// The blocks that `get_trace` resolves from an evidence list: each height
/// whose block the store currently reports as `Verified`, in list order;
/// heights the store no longer reports as `Verified` are silently omitted.
pub open spec fn trace_result(
    ev: Seq<Height>,
    store: Map<Height, (LightBlockView, Status)>,
) -> Seq<LightBlockView>
    decreases ev.len(),
{
    if ev.len() == 0 {
        Seq::empty()
    } else {
        let front = trace_result(ev.drop_last(), store);
        if verified_at(store, ev.last()) {
            front.push(store[ev.last()].0)
        } else {
            front
        }
    }
}

/// Resolving a strictly descending evidence list in a store keyed by height
/// yields blocks in strictly descending height order, each at a height of
/// the list.
pub proof fn lemma_trace_result_sorted(ev: Seq<Height>, store: Map<Height, (LightBlockView, Status)>)
    requires
        strictly_descending(ev),
        store_keyed_by_height(store),
    ensures
        forall|a: int, b: int|
            0 <= a < b < trace_result(ev, store).len() ==> trace_result(ev, store)[a].height
                > trace_result(ev, store)[b].height,
        forall|a: int|
            0 <= a < trace_result(ev, store).len() ==> ev.contains(
                #[trigger] trace_result(ev, store)[a].height,
            ),
    decreases ev.len(),
{
    if ev.len() > 0 {
        let front = trace_result(ev.drop_last(), store);
        lemma_trace_result_sorted(ev.drop_last(), store);
        let out = trace_result(ev, store);
        assert forall|a: int|
            0 <= a < front.len() implies ev.contains(#[trigger] front[a].height) && front[a].height
            > ev.last() by {
            assert(ev.drop_last().contains(front[a].height));
            let k = choose|k: int|
                0 <= k < ev.drop_last().len() && ev.drop_last()[k] == front[a].height;
            assert(ev[k] == front[a].height);
            assert(ev[k] > ev[ev.len() - 1]);
        }
        if verified_at(store, ev.last()) {
            assert(store[ev.last()].0.height == ev.last());
            assert(out == front.push(store[ev.last()].0));
            assert(ev.contains(ev.last()));
        }
    }
}

/// The state managed by the light client.
#[derive(Debug)]
pub struct State<S: LightStore> {
    /// Store for light blocks.
    pub light_store: S,

    /// Records which blocks were needed to verify a target block, eg. during
    /// bisection.
    pub verification_trace: VerificationTrace,
}

impl<S: LightStore> State<S> {
    /// Both owned parts are internally consistent.
    pub open spec fn wf(&self) -> bool {
        self.light_store.inv() && self.verification_trace.wf()
    }

    /// Create a new state from the given light store with an empty
    /// verification trace.
    pub fn new(light_store: S) -> (s: State<S>)
        ensures
            s.light_store == light_store,
            s.verification_trace@ == Map::<Height, Set<Height>>::empty(),
            s.verification_trace.wf(),
    {
        State { light_store, verification_trace: VerificationTrace::new() }
    }

    /// Record that the block at `height` was needed to verify the block at
    /// `target_height`.
    ///
    /// Requires `height <= target_height`: evidence can only justify a
    /// height at or after it.
    pub fn trace_block(&mut self, target_height: Height, height: Height)
        requires
            height <= target_height,
            old(self).verification_trace.wf(),
        ensures
            final(self).verification_trace.wf(),
            final(self).verification_trace@ == trace_record(
                old(self).verification_trace@,
                target_height,
                height,
            ),
            final(self).light_store == old(self).light_store,
    {
        self.verification_trace.record(target_height, height);
    }

    /// Get the verification trace for the block at `target_height`: every
    /// recorded evidence height whose block the store still reports as
    /// `Verified`, ordered by height descending (most recent evidence
    /// first).
    pub fn get_trace(&self, target_height: Height) -> (r: Vec<LightBlock>)
        requires
            self.wf(),
        ensures
            blocks_view(r@) == trace_result(
                self.verification_trace.evidence_list(target_height),
                self.light_store.store_view(),
            ),
            forall|a: int, b: int| 0 <= a < b < r@.len() ==> r@[a]@.height > r@[b]@.height,
    {
        let ev = self.verification_trace.evidence(target_height);
        let ghost store = self.light_store.store_view();
        let mut out: Vec<LightBlock> = Vec::new();
        let mut i: usize = 0;
        while i < ev.len()
        invariant
            self.wf(),
            i <= ev@.len(),
            ev@ == self.verification_trace.evidence_list(target_height),
            store == self.light_store.store_view(),
            blocks_view(out@) == trace_result(ev@.take(i as int), store),
        decreases ev@.len() - i,
        {
            proof {
                assert(ev@.take(i + 1 as int).drop_last() =~= ev@.take(i as int));
                assert(ev@.take(i + 1 as int).last() == ev@[i as int]);
            }
            match self.light_store.get(ev[i], Status::Verified) {
                Some(b) => {
                    out.push(b);
                    proof {
                        assert(blocks_view(out@) =~= trace_result(ev@.take(i as int), store).push(
                            store[ev@[i as int]].0,
                        ));
                    }
                },
                None => {
                    proof {
                        assert(!verified_at(store, ev@[i as int]));
                    }
                },
            }
            i = i + 1;
        }
        proof {
            assert(ev@.take(ev@.len() as int) =~= ev@);
            self.verification_trace.lemma_evidence_list(target_height);
            self.light_store.lemma_inv_keyed_by_height();
            lemma_trace_result_sorted(ev@, store);
            assert forall|a: int, b: int| 0 <= a < b < out@.len() implies out@[a]@.height
                > out@[b]@.height by {
                assert(blocks_view(out@)[a] == out@[a]@);
                assert(blocks_view(out@)[b] == out@[b]@);
            }
        }
        out
    }
}

} // verus!
