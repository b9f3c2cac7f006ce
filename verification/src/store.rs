//! Light-block store interface and an in-memory implementation.
//!
//! A store is a keyed repository of light blocks indexed by height, each
//! tagged with a verification status. The core is polymorphic over the
//! backing implementation: any type satisfying the [`LightStore`] contract is
//! substitutable. The model of a store is a map from height to the block at
//! that height together with its current status; every store keys each
//! record by the height of its block.

use vstd::prelude::*;

use crate::types::{Height, LightBlock, LightBlockView, Status};

verus! {

/// A well-formed store view keys every record by the height of its block.
pub open spec fn store_keyed_by_height(m: Map<Height, (LightBlockView, Status)>) -> bool {
    forall|h: Height| #[trigger] m.contains_key(h) ==> m[h].0.height == h
}

/// Keyed repository of light blocks, indexed by height and tagged with a
/// verification status.
pub trait LightStore: Sized {
    /// Model of the store: height to (block, status).
    spec fn store_view(&self) -> Map<Height, (LightBlockView, Status)>;

    /// Representation invariant of the implementation.
    spec fn inv(&self) -> bool;

    /// Every store keys each record by the height of its block.
    proof fn lemma_inv_keyed_by_height(&self)
        requires
            self.inv(),
        ensures
            store_keyed_by_height(self.store_view()),
    ;

    /// The block at `height`, iff its currently recorded status is `status`.
    /// "Not present in that status" is a normal outcome, not an error.
    fn get(&self, height: Height, status: Status) -> (r: Option<LightBlock>)
        requires
            self.inv(),
        ensures
            match r {
                Some(b) => self.store_view().contains_key(height) && self.store_view()[height]
                    == (b@, status),
                None => !(self.store_view().contains_key(height) && self.store_view()[height].1
                    == status),
            },
    ;

    /// Insert or overwrite the record for `block.height` with `status`.
    /// Status-transition legality is the caller's responsibility.
    fn update(&mut self, block: LightBlock, status: Status)
        requires
            old(self).inv(),
        ensures
            final(self).inv(),
            final(self).store_view() == old(self).store_view().insert(
                block@.height,
                (block@, status),
            ),
    ;

    /// The greatest height currently recorded with `status`, if any.
    fn highest(&self, status: Status) -> (r: Option<Height>)
        requires
            self.inv(),
        ensures
            match r {
                Some(h) => self.store_view().contains_key(h) && self.store_view()[h].1 == status
                    && forall|h2: Height|
                    self.store_view().contains_key(h2) && #[trigger] self.store_view()[h2].1
                        == status ==> h2 <= h,
                None => forall|h2: Height|
                    #[trigger] self.store_view().contains_key(h2) ==> self.store_view()[h2].1
                        != status,
            },
    ;

    /// The least height currently recorded with `status`, if any.
    fn lowest(&self, status: Status) -> (r: Option<Height>)
        requires
            self.inv(),
        ensures
            match r {
                Some(h) => self.store_view().contains_key(h) && self.store_view()[h].1 == status
                    && forall|h2: Height|
                    self.store_view().contains_key(h2) && #[trigger] self.store_view()[h2].1
                        == status ==> h2 >= h,
                None => forall|h2: Height|
                    #[trigger] self.store_view().contains_key(h2) ==> self.store_view()[h2].1
                        != status,
            },
    ;
}

/// Statuses that qualify a block as a basis for extending trust.
pub open spec fn trusted_or_verified(s: Status) -> bool {
    s == Status::Trusted || s == Status::Verified
}

/// The block at the greatest height currently recorded as `Trusted` or
/// `Verified`: the closest prior anchor for extending trust onward.
pub fn latest_trusted_or_verified<S: LightStore>(store: &S) -> (r: Option<LightBlock>)
    requires
        store.inv(),
    ensures
        match r {
            Some(b) => store.store_view().contains_key(b@.height) && store.store_view()[b@.height].0
                == b@ && trusted_or_verified(store.store_view()[b@.height].1) && forall|h2: Height|
                store.store_view().contains_key(h2) && trusted_or_verified(
                    #[trigger] store.store_view()[h2].1,
                ) ==> h2 <= b@.height,
            None => forall|h2: Height|
                #[trigger] store.store_view().contains_key(h2) ==> !trusted_or_verified(
                    store.store_view()[h2].1,
                ),
        },
{
    proof {
        store.lemma_inv_keyed_by_height();
    }
    let ht = store.highest(Status::Trusted);
    let hv = store.highest(Status::Verified);
    let pick: Option<(Height, Status)> = match (ht, hv) {
        (Some(a), Some(b)) => if a >= b {
            Some((a, Status::Trusted))
        } else {
            Some((b, Status::Verified))
        },
        (Some(a), None) => Some((a, Status::Trusted)),
        (None, Some(b)) => Some((b, Status::Verified)),
        (None, None) => None,
    };
    match pick {
        Some((h, st)) => {
            match store.get(h, st) {
                Some(b) => Some(b),
                None => {
                    proof {
                        assert(false);
                    }
                    None
                },
            }
        },
        None => None,
    }
}

#[derive(Debug)]
struct StoreEntry {
    block: LightBlock,
    status: Status,
}

/// In-memory [`LightStore`]: one record per height.
#[derive(Debug)]
pub struct MemoryStore {
    entries: Vec<StoreEntry>,
}

spec fn entries_have_height(s: Seq<StoreEntry>, h: Height) -> bool {
    exists|i: int| 0 <= i < s.len() && s[i].block@.height == h
}

spec fn entry_index(s: Seq<StoreEntry>, h: Height) -> int {
    choose|i: int| 0 <= i < s.len() && s[i].block@.height == h
}

spec fn entries_view(s: Seq<StoreEntry>) -> Map<Height, (LightBlockView, Status)> {
    Map::new(
        |h: Height| entries_have_height(s, h),
        |h: Height| (s[entry_index(s, h)].block@, s[entry_index(s, h)].status),
    )
}

spec fn entries_distinct(s: Seq<StoreEntry>) -> bool {
    forall|i: int, j: int| 0 <= i < j < s.len() ==> s[i].block@.height != s[j].block@.height
}

proof fn lemma_entry_index_agrees(s: Seq<StoreEntry>, i: int)
    requires
        entries_distinct(s),
        0 <= i < s.len(),
    ensures
        entries_have_height(s, s[i].block@.height),
        entry_index(s, s[i].block@.height) == i,
{
    let h = s[i].block@.height;
    assert(entries_have_height(s, h));
    let j = entry_index(s, h);
    if i < j {
        assert(s[i].block@.height != s[j].block@.height);
    } else if j < i {
        assert(s[j].block@.height != s[i].block@.height);
    }
}

proof fn lemma_entries_view_update(s: Seq<StoreEntry>, k: int, e: StoreEntry)
    requires
        entries_distinct(s),
        0 <= k < s.len(),
        e.block@.height == s[k].block@.height,
    ensures
        entries_distinct(s.update(k, e)),
        entries_view(s.update(k, e)) == entries_view(s).insert(
            e.block@.height,
            (e.block@, e.status),
        ),
{
    let s2 = s.update(k, e);
    let h0 = e.block@.height;
    assert forall|i: int, j: int| 0 <= i < j < s2.len() implies s2[i].block@.height
        != s2[j].block@.height by {
        assert(s[i].block@.height != s[j].block@.height);
    }
    assert forall|h: Height| #[trigger] entries_have_height(s2, h) && h != h0 implies
        entries_have_height(s, h) && entries_view(s2)[h] == entries_view(s)[h] by {
        let i = entry_index(s2, h);
        assert(0 <= i < s2.len() && s2[i].block@.height == h);
        assert(i != k);
        assert(s[i].block@.height == h);
        lemma_entry_index_agrees(s2, i);
        lemma_entry_index_agrees(s, i);
    }
    assert forall|h: Height| #[trigger] entries_have_height(s, h) implies entries_have_height(
        s2,
        h,
    ) by {
        let i = entry_index(s, h);
        assert(0 <= i < s.len() && s[i].block@.height == h);
        if i == k {
            assert(s2[k].block@.height == h0);
            assert(h == h0);
            assert(s2[k].block@.height == h);
        } else {
            assert(s2[i].block@.height == h);
        }
    }
    lemma_entry_index_agrees(s2, k);
    assert(entries_view(s2) =~= entries_view(s).insert(h0, (e.block@, e.status)));
}

proof fn lemma_entries_view_push(s: Seq<StoreEntry>, e: StoreEntry)
    requires
        entries_distinct(s),
        !entries_have_height(s, e.block@.height),
    ensures
        entries_distinct(s.push(e)),
        entries_view(s.push(e)) == entries_view(s).insert(e.block@.height, (e.block@, e.status)),
{
    let s2 = s.push(e);
    let h0 = e.block@.height;
    assert forall|i: int, j: int| 0 <= i < j < s2.len() implies s2[i].block@.height
        != s2[j].block@.height by {
        if j == s.len() {
            if s[i].block@.height == h0 {
                assert(entries_have_height(s, h0));
            }
        } else {
            assert(s[i].block@.height != s[j].block@.height);
        }
    }
    assert forall|h: Height| #[trigger] entries_have_height(s2, h) && h != h0 implies
        entries_have_height(s, h) && entries_view(s2)[h] == entries_view(s)[h] by {
        let i = entry_index(s2, h);
        assert(0 <= i < s2.len() && s2[i].block@.height == h);
        assert(i != s.len());
        assert(s[i].block@.height == h);
        lemma_entry_index_agrees(s2, i);
        lemma_entry_index_agrees(s, i);
    }
    assert forall|h: Height| #[trigger] entries_have_height(s, h) implies entries_have_height(
        s2,
        h,
    ) by {
        let i = entry_index(s, h);
        assert(0 <= i < s.len() && s[i].block@.height == h);
        assert(s2[i].block@.height == h);
    }
    lemma_entry_index_agrees(s2, s.len() as int);
    assert(entries_view(s2) =~= entries_view(s).insert(h0, (e.block@, e.status)));
}

impl MemoryStore {
    /// An empty store.
    pub fn new() -> (s: MemoryStore)
        ensures
            s.inv(),
            s.store_view() == Map::<Height, (LightBlockView, Status)>::empty(),
    {
        let s = MemoryStore { entries: Vec::new() };
        proof {
            assert(s.store_view() =~= Map::<Height, (LightBlockView, Status)>::empty());
        }
        s
    }

    fn find_index(&self, height: Height) -> (r: Option<usize>)
        ensures
            match r {
                Some(i) => i < self.entries@.len() && self.entries@[i as int].block@.height
                    == height,
                None => !entries_have_height(self.entries@, height),
            },
    {
        let mut i: usize = 0;
        while i < self.entries.len()
            invariant
                i <= self.entries@.len(),
                forall|k: int| 0 <= k < i ==> self.entries@[k].block@.height != height,
            decreases self.entries@.len() - i,
        {
            if self.entries[i].block.height == height {
                return Some(i);
            }
            i = i + 1;
        }
        None
    }
}

impl LightStore for MemoryStore {
    closed spec fn store_view(&self) -> Map<Height, (LightBlockView, Status)> {
        entries_view(self.entries@)
    }

    closed spec fn inv(&self) -> bool {
        entries_distinct(self.entries@)
    }

    proof fn lemma_inv_keyed_by_height(&self) {
        assert forall|h: Height| #[trigger] self.store_view().contains_key(h) implies
            self.store_view()[h].0.height == h by {
            let i = entry_index(self.entries@, h);
            assert(0 <= i < self.entries@.len() && self.entries@[i].block@.height == h);
        }
    }

    fn get(&self, height: Height, status: Status) -> (r: Option<LightBlock>) {
        match self.find_index(height) {
            Some(i) => {
                proof {
                    lemma_entry_index_agrees(self.entries@, i as int);
                }
                if self.entries[i].status == status {
                    Some(self.entries[i].block.clone())
                } else {
                    None
                }
            },
            None => None,
        }
    }

    fn update(&mut self, block: LightBlock, status: Status) {
        let ghost s0 = self.entries@;
        let height = block.height;
        match self.find_index(height) {
            Some(i) => {
                proof {
                    lemma_entries_view_update(
                        s0,
                        i as int,
                        StoreEntry { block: block, status: status },
                    );
                }
                self.entries.set(i, StoreEntry { block, status });
            },
            None => {
                proof {
                    lemma_entries_view_push(s0, StoreEntry { block: block, status: status });
                }
                self.entries.push(StoreEntry { block, status });
            },
        }
    }

    fn highest(&self, status: Status) -> (r: Option<Height>) {
        let mut best: Option<Height> = None;
        let mut i: usize = 0;
        while i < self.entries.len()
            invariant
                self.inv(),
                i <= self.entries@.len(),
                match best {
                    Some(h) => self.store_view().contains_key(h) && self.store_view()[h].1
                        == status && forall|k: int|
                        0 <= k < i && self.entries@[k].status == status
                            ==> self.entries@[k].block@.height <= h,
                    None => forall|k: int| 0 <= k < i ==> self.entries@[k].status != status,
                },
            decreases self.entries@.len() - i,
        {
            if self.entries[i].status == status {
                let h = self.entries[i].block.height;
                proof {
                    lemma_entry_index_agrees(self.entries@, i as int);
                }
                match best {
                    Some(b) => {
                        if h > b {
                            best = Some(h);
                        }
                    },
                    None => {
                        best = Some(h);
                    },
                }
            }
            i = i + 1;
        }
        proof {
            match best {
                Some(h) => {
                    assert forall|h2: Height|
                        self.store_view().contains_key(h2) && #[trigger] self.store_view()[h2].1
                            == status implies h2 <= h by {
                        let k = entry_index(self.entries@, h2);
                        assert(0 <= k < self.entries@.len() && self.entries@[k].block@.height
                            == h2);
                        lemma_entry_index_agrees(self.entries@, k);
                    }
                },
                None => {
                    assert forall|h2: Height| #[trigger] self.store_view().contains_key(h2)
                        implies self.store_view()[h2].1 != status by {
                        let k = entry_index(self.entries@, h2);
                        assert(0 <= k < self.entries@.len() && self.entries@[k].block@.height
                            == h2);
                        lemma_entry_index_agrees(self.entries@, k);
                    }
                },
            }
        }
        best
    }

    fn lowest(&self, status: Status) -> (r: Option<Height>) {
        let mut best: Option<Height> = None;
        let mut i: usize = 0;
        while i < self.entries.len()
            invariant
                self.inv(),
                i <= self.entries@.len(),
                match best {
                    Some(h) => self.store_view().contains_key(h) && self.store_view()[h].1
                        == status && forall|k: int|
                        0 <= k < i && self.entries@[k].status == status
                            ==> self.entries@[k].block@.height >= h,
                    None => forall|k: int| 0 <= k < i ==> self.entries@[k].status != status,
                },
            decreases self.entries@.len() - i,
        {
            if self.entries[i].status == status {
                let h = self.entries[i].block.height;
                proof {
                    lemma_entry_index_agrees(self.entries@, i as int);
                }
                match best {
                    Some(b) => {
                        if h < b {
                            best = Some(h);
                        }
                    },
                    None => {
                        best = Some(h);
                    },
                }
            }
            i = i + 1;
        }
        proof {
            match best {
                Some(h) => {
                    assert forall|h2: Height|
                        self.store_view().contains_key(h2) && #[trigger] self.store_view()[h2].1
                            == status implies h2 >= h by {
                        let k = entry_index(self.entries@, h2);
                        assert(0 <= k < self.entries@.len() && self.entries@[k].block@.height
                            == h2);
                        lemma_entry_index_agrees(self.entries@, k);
                    }
                },
                None => {
                    assert forall|h2: Height| #[trigger] self.store_view().contains_key(h2)
                        implies self.store_view()[h2].1 != status by {
                        let k = entry_index(self.entries@, h2);
                        assert(0 <= k < self.entries@.len() && self.entries@[k].block@.height
                            == h2);
                        lemma_entry_index_agrees(self.entries@, k);
                    }
                },
            }
        }
        best
    }
}

} // verus!
