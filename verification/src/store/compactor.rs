//! Which partitions are merged, and in what order.
use std::sync::Arc;
use vstd::prelude::*;

use crate::store::catalog::{
    distinct_keys, due_exactly_over_the_threshold, files_of, key_models, keys_over, lemma_place,
    place, replaced_files_are_listed, with_files, Catalog, Kind, PartitionKey, PartitionModel,
};
use crate::utils::times::Date;

verus! {

/// Walks over the partitions that have too many files. On each tick of its timer
/// a pass begins, and every partition that is due then is merged in turn.
pub struct Compactor {
    threshold: usize,
    due: Vec<(Arc<str>, Kind, Date)>,
    done: usize,
}

impl Compactor {
    /// The number of files that a partition may have.
    pub closed spec fn limit(&self) -> nat {
        self.threshold as nat
    }

    /// The partitions that are still to be merged in this pass.
    pub closed spec fn pending(&self) -> Seq<PartitionKey> {
        key_models(self.due@).skip(self.done as int)
    }

    pub closed spec fn wf(&self) -> bool {
        self.done <= self.due@.len()
    }

    /// A compactor outside any pass.
    pub fn new(threshold: usize) -> (r: Self)
        ensures
            r.wf(),
            r.limit() == threshold,
            r.pending() == Seq::<PartitionKey>::empty(),
    {
        let r = Compactor { threshold, due: Vec::new(), done: 0 };
        assert(r.pending() =~= Seq::<PartitionKey>::empty());
        r
    }

    /// Begins a pass over the partitions of `catalog` that are due.
    pub fn begin_pass(&mut self, catalog: &Catalog)
        ensures
            final(self).wf(),
            final(self).limit() == old(self).limit(),
            final(self).pending() == keys_over(catalog@, old(self).limit()),
    {
        self.due = catalog.partitions_over(self.threshold);
        self.done = 0;
        assert(self.pending() =~= keys_over(catalog@, old(self).limit()));
    }

    /// The next partition to merge in this pass.
    pub fn next_due(&mut self) -> (r: Option<(Arc<str>, Kind, Date)>)
        requires
            old(self).wf(),
        ensures
            final(self).wf(),
            final(self).limit() == old(self).limit(),
            match r {
                Some((symbol, kind, date)) => {
                    &&& old(self).pending().len() > 0
                    &&& old(self).pending()[0] == (PartitionKey { symbol: symbol@, kind, date })
                    &&& final(self).pending() == old(self).pending().skip(1)
                },
                None => old(self).pending().len() == 0 && final(self).pending() == old(self).pending(),
            },
    {
        if self.done == self.due.len() {
            return None;
        }
        let symbol: Arc<str> = self.due[self.done].0.clone();
        let kind: Kind = self.due[self.done].1;
        let date: Date = self.due[self.done].2;
        self.done = self.done + 1;
        assert(self.pending() =~= old(self).pending().skip(1));
        Some((symbol, kind, date))
    }
}

/// The partitions after each of `keys` has been merged into the target at its
/// place.
pub open spec fn all_merged(
    partitions: Seq<PartitionModel>,
    keys: Seq<PartitionKey>,
    targets: Seq<Seq<char>>,
) -> Seq<PartitionModel>
    decreases keys.len(),
{
    if keys.len() == 0 {
        partitions
    } else {
        with_files(
            all_merged(partitions, keys.drop_last(), targets),
            keys.last(),
            seq![targets[keys.len() - 1]],
        )
    }
}

proof fn lemma_all_merged(
    partitions: Seq<PartitionModel>,
    keys: Seq<PartitionKey>,
    targets: Seq<Seq<char>>,
    key: PartitionKey,
)
    requires
        distinct_keys(partitions),
        forall|i: int| 0 <= i < keys.len() ==> place(partitions, #[trigger] keys[i]) is Some,
    ensures
        distinct_keys(all_merged(partitions, keys, targets)),
        place(partitions, key) is Some ==> place(all_merged(partitions, keys, targets), key) is Some,
        keys.contains(key) ==> files_of(all_merged(partitions, keys, targets), key).len() == 1,
        !keys.contains(key) ==> files_of(all_merged(partitions, keys, targets), key) == files_of(partitions, key),
    decreases keys.len(),
{
    if keys.len() > 0 {
        let before = keys.drop_last();
        let last = keys.last();
        let mid = all_merged(partitions, before, targets);
        let files = seq![targets[keys.len() - 1]];
        assert forall|i: int| 0 <= i < before.len() implies place(partitions, #[trigger] before[i]) is Some by {
            assert(before[i] == keys[i]);
        }
        lemma_all_merged(partitions, before, targets, key);
        lemma_all_merged(partitions, before, targets, last);
        assert(place(partitions, keys[keys.len() - 1]) is Some);
        replaced_files_are_listed(mid, last, files, key);
        let after = all_merged(partitions, keys, targets);
        lemma_place(mid, key);
        lemma_place(after, key);
        lemma_place(mid, last);
        assert(after.len() == mid.len());
        assert forall|k: int| 0 <= k < after.len() implies (#[trigger] after[k]).key == mid[k].key by {}
        if place(partitions, key) is Some && place(after, key) is None {
            let k = place(mid, key)->Some_0;
            assert(after[k].key == key);
        }
        if keys.contains(key) && key != last {
            let i = choose|i: int| 0 <= i < keys.len() && keys[i] == key;
            assert(before[i] == key);
            assert(before.contains(key));
        }
        if !keys.contains(key) {
            assert(keys[keys.len() - 1] == last);
            assert(key != last);
            if before.contains(key) {
                let i = choose|i: int| 0 <= i < before.len() && before[i] == key;
                assert(keys[i] == key);
            }
        }
    }
}

/// A pass in which every merge succeeds leaves no partition that is due, for any
/// threshold of at least one; and it leaves every partition alone that was not
/// due.
pub proof fn full_pass_leaves_nothing_due(
    partitions: Seq<PartitionModel>,
    threshold: nat,
    targets: Seq<Seq<char>>,
    key: PartitionKey,
)
    requires
        distinct_keys(partitions),
        threshold >= 1,
    ensures
        ({
            let keys = keys_over(partitions, threshold);
            let after = all_merged(partitions, keys, targets);
            &&& !keys_over(after, threshold).contains(key)
            &&& !keys.contains(key) ==> files_of(after, key) == files_of(partitions, key)
        }),
{
    let keys = keys_over(partitions, threshold);
    assert forall|i: int| 0 <= i < keys.len() implies place(partitions, #[trigger] keys[i]) is Some by {
        assert(keys.contains(keys[i]));
        due_exactly_over_the_threshold(partitions, threshold, keys[i]);
    }
    let after = all_merged(partitions, keys, targets);
    lemma_all_merged(partitions, keys, targets, key);
    due_exactly_over_the_threshold(after, threshold, key);
    due_exactly_over_the_threshold(partitions, threshold, key);
}

} // verus!
