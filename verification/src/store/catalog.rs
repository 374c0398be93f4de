//! Which files hold the rows of which partition.
use std::sync::Arc;
use vstd::prelude::*;

use crate::store::paths::{
    files_of_a_partition_are_distinct, get_output_path, merged_name, merged_name_text, output_path,
    part_name,
};
use crate::text::text_eq;
use crate::utils::times::Date;

verus! {

/// The two kinds of ticks.
#[derive(Debug, Clone, Copy, PartialEq, Eq, Hash, Structural)]
pub enum Kind {
    Quote,
    Trade,
}

impl Kind {
    /// The name of a kind.
    pub open spec fn label(self) -> Seq<char> {
        match self {
            Kind::Quote => "Quote"@,
            Kind::Trade => "Trade"@,
        }
    }

    /// The name of a kind.
    pub fn get_label(&self) -> (r: &'static str)
        ensures
            r@ == self.label(),
    {
        match self {
            Kind::Quote => "Quote",
            Kind::Trade => "Trade",
        }
    }
}

/// The rows of one symbol, one kind and one day, and the files that hold them,
/// in the order in which they were written.
pub struct Partition {
    pub symbol: Arc<str>,
    pub kind: Kind,
    pub date: Date,
    pub files: Vec<String>,
}

/// What a partition is about.
pub struct PartitionKey {
    pub symbol: Seq<char>,
    pub kind: Kind,
    pub date: Date,
}

/// The model of a `Partition`.
#[verifier::ext_equal]
pub struct PartitionModel {
    pub key: PartitionKey,
    pub files: Seq<Seq<char>>,
}

/// Texts as sequences of characters.
pub open spec fn texts(files: Seq<String>) -> Seq<Seq<char>> {
    files.map_values(|f: String| f@)
}

impl View for Partition {
    type V = PartitionModel;

    open spec fn view(&self) -> PartitionModel {
        PartitionModel {
            key: PartitionKey { symbol: self.symbol@, kind: self.kind, date: self.date },
            files: texts(self.files@),
        }
    }
}

/// The place of a partition, from place `i` on.
pub open spec fn place_from(partitions: Seq<PartitionModel>, key: PartitionKey, i: int) -> Option<int>
    decreases partitions.len() - i,
{
    if i >= partitions.len() {
        None
    } else if partitions[i].key == key {
        Some(i)
    } else {
        place_from(partitions, key, i + 1)
    }
}

/// The place of a partition.
pub open spec fn place(partitions: Seq<PartitionModel>, key: PartitionKey) -> Option<int> {
    place_from(partitions, key, 0)
}

/// The files of a partition; none where the partition is unknown.
pub open spec fn files_of(partitions: Seq<PartitionModel>, key: PartitionKey) -> Seq<Seq<char>> {
    match place(partitions, key) {
        Some(i) => partitions[i].files,
        None => seq![],
    }
}

/// No partition is held twice.
pub open spec fn distinct_keys(partitions: Seq<PartitionModel>) -> bool {
    forall|i: int, j: int|
        0 <= i < j < partitions.len() ==> (#[trigger] partitions[i]).key != (#[trigger] partitions[j]).key
}

/// The partitions are ordered by their days.
pub open spec fn in_day_order(partitions: Seq<PartitionModel>) -> bool {
    forall|i: int, j: int|
        0 <= i < j < partitions.len() ==> (#[trigger] partitions[i]).key.date.day <= (
        #[trigger] partitions[j]).key.date.day
}

/// The first place from `i` on that holds a later day than `day`, or the end.
pub open spec fn later_from(partitions: Seq<PartitionModel>, day: i32, i: int) -> int
    decreases partitions.len() - i,
{
    if i >= partitions.len() || partitions[i].key.date.day > day {
        i
    } else {
        later_from(partitions, day, i + 1)
    }
}

/// The files of all partitions that a condition picks, partition by partition.
pub open spec fn picked_files(partitions: Seq<PartitionModel>, pick: spec_fn(PartitionKey) -> bool) -> Seq<Seq<char>>
    decreases partitions.len(),
{
    if partitions.len() == 0 {
        seq![]
    } else {
        let before = picked_files(partitions.drop_last(), pick);
        if pick(partitions.last().key) {
            before + partitions.last().files
        } else {
            before
        }
    }
}

/// The partitions with more than `threshold` files.
pub open spec fn keys_over(partitions: Seq<PartitionModel>, threshold: nat) -> Seq<PartitionKey>
    decreases partitions.len(),
{
    if partitions.len() == 0 {
        seq![]
    } else {
        let before = keys_over(partitions.drop_last(), threshold);
        if partitions.last().files.len() > threshold {
            before.push(partitions.last().key)
        } else {
            before
        }
    }
}

proof fn lemma_place_from(partitions: Seq<PartitionModel>, key: PartitionKey, i: int)
    requires
        0 <= i <= partitions.len(),
    ensures
        match place_from(partitions, key, i) {
            Some(k) => i <= k < partitions.len() && partitions[k].key == key,
            None => forall|k: int| i <= k < partitions.len() ==> (#[trigger] partitions[k]).key != key,
        },
    decreases partitions.len() - i,
{
    if i < partitions.len() {
        lemma_place_from(partitions, key, i + 1);
    }
}

/// A partition's place holds that partition, and a partition without a place is
/// nowhere.
pub proof fn lemma_place(partitions: Seq<PartitionModel>, key: PartitionKey)
    ensures
        match place(partitions, key) {
            Some(k) => 0 <= k < partitions.len() && partitions[k].key == key,
            None => forall|k: int| 0 <= k < partitions.len() ==> (#[trigger] partitions[k]).key != key,
        },
{
    lemma_place_from(partitions, key, 0);
}

/// Where no partition is held twice, the place that holds a key is its place.
pub proof fn lemma_place_unique(partitions: Seq<PartitionModel>, key: PartitionKey, i: int)
    requires
        distinct_keys(partitions),
        0 <= i < partitions.len(),
        partitions[i].key == key,
    ensures
        place(partitions, key) == Some(i),
{
    lemma_place(partitions, key);
    if place(partitions, key) is Some {
        let k = place(partitions, key)->Some_0;
        if k < i {
            assert(partitions[k].key != partitions[i].key);
        } else if i < k {
            assert(partitions[i].key != partitions[k].key);
        }
    }
}

/// A list of partitions with one more file in one of them. A new partition comes
/// behind those of its day and of earlier days.
pub open spec fn with_file(partitions: Seq<PartitionModel>, key: PartitionKey, file: Seq<char>) -> Seq<PartitionModel> {
    match place(partitions, key) {
        Some(i) => partitions.update(i, PartitionModel { key, files: partitions[i].files.push(file) }),
        None => partitions.insert(
            later_from(partitions, key.date.day, 0),
            PartitionModel { key, files: seq![file] },
        ),
    }
}

/// Where a new partition goes, and what stands around it.
pub(crate) proof fn lemma_later_from(partitions: Seq<PartitionModel>, day: i32, i: int)
    requires
        0 <= i <= partitions.len(),
    ensures
        i <= later_from(partitions, day, i) <= partitions.len(),
        forall|k: int|
            i <= k < later_from(partitions, day, i) ==> (#[trigger] partitions[k]).key.date.day <= day,
        later_from(partitions, day, i) < partitions.len() ==> partitions[later_from(
            partitions,
            day,
            i,
        )].key.date.day > day,
    decreases partitions.len() - i,
{
    if i < partitions.len() && partitions[i].key.date.day <= day {
        lemma_later_from(partitions, day, i + 1);
    }
}

/// One more file keeps the partitions in the order of their days.
pub(crate) proof fn lemma_with_file_in_day_order(partitions: Seq<PartitionModel>, key: PartitionKey, file: Seq<char>)
    requires
        in_day_order(partitions),
    ensures
        in_day_order(with_file(partitions, key, file)),
{
    let after = with_file(partitions, key, file);
    lemma_place(partitions, key);
    if place(partitions, key) is None {
        let day = key.date.day;
        let at = later_from(partitions, day, 0);
        lemma_later_from(partitions, day, 0);
        assert forall|k: int| 0 <= k < after.len() implies #[trigger] after[k] == (if k < at {
            partitions[k]
        } else if k == at {
            PartitionModel { key, files: seq![file] }
        } else {
            partitions[k - 1]
        }) by {}
        assert forall|k: int| at <= k < partitions.len() implies (#[trigger] partitions[k]).key.date.day > day by {
            assert(partitions[at].key.date.day <= partitions[k].key.date.day);
        }
    }
}

/// A list of partitions with the files of one of them replaced.
pub open spec fn with_files(
    partitions: Seq<PartitionModel>,
    key: PartitionKey,
    files: Seq<Seq<char>>,
) -> Seq<PartitionModel> {
    match place(partitions, key) {
        Some(i) => partitions.update(i, PartitionModel { key, files }),
        None => partitions,
    }
}

/// Which files hold the rows of which partition: the single source of truth for
/// everything that reads or rewrites them.
pub struct Catalog {
    data_dir: String,
    merged_idx: usize,
    partitions: Vec<Partition>,
}

/// What a merge reads, and where it writes.
#[derive(Debug)]
pub struct MergePlan {
    /// The files of the partition, in the order in which they were written.
    pub sources: Vec<String>,
    /// The file that takes their place.
    pub target: String,
}

/// How a merge went.
#[derive(Debug, Clone, Copy, PartialEq, Eq, Structural)]
pub enum MergeOutcome {
    /// The files could not be put together; nothing was written.
    NotPlanned,
    /// The merged file could not be written.
    NotWritten,
    /// The merged file is written.
    Written,
}

fn copy_files(files: &Vec<String>) -> (r: Vec<String>)
    ensures
        r@ == files@,
{
    let mut r: Vec<String> = Vec::new();
    extend_files(&mut r, files);
    assert(r@ =~= files@);
    r
}

fn extend_files(into: &mut Vec<String>, files: &Vec<String>)
    ensures
        final(into)@ == old(into)@ + files@,
{
    let mut i: usize = 0;
    assert(old(into)@ + files@.take(0) =~= old(into)@);
    while i < files.len()
        invariant
            i <= files@.len(),
            into@ == old(into)@ + files@.take(i as int),
        decreases files@.len() - i,
    {
        into.push(files[i].clone());
        i = i + 1;
        assert(into@ =~= old(into)@ + files@.take(i as int));
    }
    assert(files@.take(i as int) =~= files@);
}

impl View for Catalog {
    type V = Seq<PartitionModel>;

    closed spec fn view(&self) -> Seq<PartitionModel> {
        self.partitions@.map_values(|p: Partition| p@)
    }
}

impl Catalog {
    /// The directory under which files are written.
    pub closed spec fn dir(&self) -> Seq<char> {
        self.data_dir@
    }

    /// The number of the next merged file.
    pub closed spec fn next_merged(&self) -> nat {
        self.merged_idx as nat
    }

    /// No partition is held twice, and they are ordered by their days.
    pub open spec fn wf(&self) -> bool {
        &&& distinct_keys(self@)
        &&& in_day_order(self@)
    }

    /// A catalog without partitions.
    pub fn new(data_dir: String) -> (catalog: Self)
        ensures
            catalog.wf(),
            catalog@ == Seq::<PartitionModel>::empty(),
            catalog.dir() == data_dir@,
            catalog.next_merged() == 0,
    {
        let catalog = Self { data_dir, merged_idx: 0, partitions: Vec::new() };
        assert(catalog@ =~= Seq::<PartitionModel>::empty());
        catalog
    }

    /// The root directory this catalog's files are written under. Callers that
    /// also need to write files directly (the batcher's flush path) should
    /// derive their target path from this rather than tracking their own copy of
    /// the same value -- two independently-configured data_dirs that happen to
    /// disagree is exactly the kind of bug that's easy to introduce and hard to
    /// notice.
    pub fn data_dir(&self) -> (r: &str)
        ensures
            r@ == self.dir(),
    {
        self.data_dir.as_str()
    }

    /// Whether there is a number left for a merged file.
    pub fn can_merge(&self) -> (r: bool)
        ensures
            r == (self.next_merged() < usize::MAX),
    {
        self.merged_idx < usize::MAX
    }

    fn position(&self, symbol: &str, kind: Kind, date: Date) -> (r: Option<usize>)
        ensures
            match r {
                Some(i) => place(self@, PartitionKey { symbol: symbol@, kind, date }) == Some(i as int) && i
                    < self.partitions@.len(),
                None => place(self@, PartitionKey { symbol: symbol@, kind, date }) is None,
            },
    {
        let mut i: usize = 0;
        let ghost key = PartitionKey { symbol: symbol@, kind, date };
        while i < self.partitions.len()
            invariant
                key == (PartitionKey { symbol: symbol@, kind, date }),
                i <= self.partitions@.len(),
                place(self@, key) == place_from(self@, key, i as int),
            decreases self.partitions@.len() - i,
        {
            assert(self@[i as int] == self.partitions@[i as int]@);
            if self.partitions[i].kind == kind && self.partitions[i].date == date && text_eq(
                &*self.partitions[i].symbol,
                symbol,
            ) {
                return Some(i);
            }
            i = i + 1;
        }
        None
    }

    /// Where a new partition of this day goes.
    fn later_than(&self, day: i32) -> (at: usize)
        ensures
            at == later_from(self@, day, 0),
            at <= self.partitions@.len(),
    {
        let mut at: usize = 0;
        while at < self.partitions.len() && self.partitions[at].date.day <= day
            invariant
                at <= self.partitions@.len(),
                later_from(self@, day, 0) == later_from(self@, day, at as int),
            decreases self.partitions@.len() - at,
        {
            assert(self@[at as int] == self.partitions@[at as int]@);
            at = at + 1;
        }
        proof {
            if at < self.partitions@.len() {
                assert(self@[at as int] == self.partitions@[at as int]@);
            }
        }
        at
    }

    /// Appends a file to a partition.
    pub fn add_file(&mut self, symbol: Arc<str>, kind: Kind, date: Date, path: String)
        requires
            old(self).wf(),
        ensures
            final(self).wf(),
            final(self)@ == with_file(old(self)@, PartitionKey { symbol: symbol@, kind, date }, path@),
            final(self).dir() == old(self).dir(),
            final(self).next_merged() == old(self).next_merged(),
    {
        let ghost key = PartitionKey { symbol: symbol@, kind, date };
        proof {
            lemma_place(self@, key);
            lemma_later_from(self@, date.day, 0);
            lemma_with_file_in_day_order(self@, key, path@);
            added_file_is_listed_last(self@, key, path@, key);
        }
        match self.position(&*symbol, kind, date) {
            Some(i) => {
                assert(self@[i as int] == self.partitions@[i as int]@);
                let partition: &mut Partition = &mut self.partitions[i];
                partition.files.push(path);
                assert(self@[i as int].files =~= old(self)@[i as int].files.push(path@));
                assert(self@ =~= with_file(old(self)@, key, path@));
            },
            None => {
                let at: usize = self.later_than(date.day);
                let files: Vec<String> = vec![path];
                self.partitions.insert(at, Partition { symbol, kind, date, files });
                assert(texts(files@) =~= seq![path@]);
                assert(self@ =~= with_file(old(self)@, key, path@));
            },
        }
    }

    /// Files currently representing one partition, in write order -- what a
    /// reader (a query, an as-of join) should scan to see that partition's data.
    /// Empty if the partition has no tracked files (never flushed, or nothing
    /// past `Catalog::new`).
    pub fn files_for(&self, symbol: Arc<str>, kind: Kind, date: Date) -> (files: &[String])
        ensures
            texts(files@) == files_of(self@, PartitionKey { symbol: symbol@, kind, date }),
    {
        match self.position(&*symbol, kind, date) {
            Some(i) => {
                assert(self@[i as int] == self.partitions@[i as int]@);
                self.partitions[i].files.as_slice()
            },
            None => {
                let files: &[String] = &[];
                assert(texts(files@) =~= seq![]);
                files
            },
        }
    }

    /// All files currently tracked for one `Kind`, across every symbol and date
    /// -- what a general "SELECT * FROM trades" (or quotes) query scans. Cold
    /// data only: rows still sitting in a hot buffer that hasn't flushed yet
    /// aren't included here.
    pub fn all_files(&self, kind: Kind) -> (files: Vec<String>)
        ensures
            texts(files@) == picked_files(self@, |k: PartitionKey| k.kind == kind),
    {
        let mut files: Vec<String> = Vec::new();
        let mut i: usize = 0;
        let ghost pick = |k: PartitionKey| k.kind == kind;
        assert(self@.take(0) =~= seq![]);
        assert(texts(files@) =~= picked_files(self@.take(0), pick));
        while i < self.partitions.len()
            invariant
                i <= self.partitions@.len(),
                pick == (|k: PartitionKey| k.kind == kind),
                texts(files@) == picked_files(self@.take(i as int), pick),
            decreases self.partitions@.len() - i,
        {
            let ghost before = files@;
            assert(self@[i as int] == self.partitions@[i as int]@);
            assert(self@.take(i + 1).drop_last() =~= self@.take(i as int));
            if self.partitions[i].kind == kind {
                extend_files(&mut files, &self.partitions[i].files);
                assert(texts(files@) =~= texts(before) + texts(self.partitions@[i as int].files@));
            }
            i = i + 1;
        }
        assert(self@.take(i as int) =~= self@);
        files
    }

    /// All files currently tracked for one `(symbol, kind)`, across every date
    /// -- what a symbol-scoped query scans. Unlike [`Self::all_files`], this
    /// never touches any other symbol's files at all: the lookup is scoped
    /// before any file is even opened, not filtered afterward.
    pub fn files_for_symbol(&self, symbol: &Arc<str>, kind: Kind) -> (files: Vec<String>)
        ensures
            texts(files@) == picked_files(self@, |k: PartitionKey| k.symbol == symbol@ && k.kind == kind),
    {
        let mut files: Vec<String> = Vec::new();
        let mut i: usize = 0;
        let ghost pick = |k: PartitionKey| k.symbol == symbol@ && k.kind == kind;
        assert(self@.take(0) =~= seq![]);
        assert(texts(files@) =~= picked_files(self@.take(0), pick));
        while i < self.partitions.len()
            invariant
                i <= self.partitions@.len(),
                pick == (|k: PartitionKey| k.symbol == symbol@ && k.kind == kind),
                texts(files@) == picked_files(self@.take(i as int), pick),
            decreases self.partitions@.len() - i,
        {
            let ghost before = files@;
            assert(self@[i as int] == self.partitions@[i as int]@);
            assert(self@.take(i + 1).drop_last() =~= self@.take(i as int));
            if text_eq(&*self.partitions[i].symbol, &**symbol) && self.partitions[i].kind == kind {
                extend_files(&mut files, &self.partitions[i].files);
                assert(texts(files@) =~= texts(before) + texts(self.partitions@[i as int].files@));
            }
            i = i + 1;
        }
        assert(self@.take(i as int) =~= self@);
        files
    }

    /// Same as [`Self::files_for_symbol`], but further scoped to dates in
    /// `start..=end` (inclusive both ends) -- what a query with an explicit or
    /// defaulted date window scans, without touching any file outside that
    /// window.
    pub fn files_for_symbol_in_range(&self, symbol: &Arc<str>, kind: Kind, start: Date, end: Date) -> (files: Vec<String>)
        ensures
            texts(files@) == picked_files(self@, in_window(symbol@, kind, start, end)),
    {
        let mut files: Vec<String> = Vec::new();
        let mut i: usize = 0;
        let ghost pick = in_window(symbol@, kind, start, end);
        assert(self@.take(0) =~= seq![]);
        assert(texts(files@) =~= picked_files(self@.take(0), pick));
        while i < self.partitions.len()
            invariant
                i <= self.partitions@.len(),
                pick == in_window(symbol@, kind, start, end),
                texts(files@) == picked_files(self@.take(i as int), pick),
            decreases self.partitions@.len() - i,
        {
            let ghost before = files@;
            assert(self@[i as int] == self.partitions@[i as int]@);
            assert(self@.take(i + 1).drop_last() =~= self@.take(i as int));
            let day: i32 = self.partitions[i].date.day;
            if text_eq(&*self.partitions[i].symbol, &**symbol) && self.partitions[i].kind == kind && start.day <= day
                && day <= end.day {
                extend_files(&mut files, &self.partitions[i].files);
                assert(texts(files@) =~= texts(before) + texts(self.partitions@[i as int].files@));
            }
            i = i + 1;
        }
        assert(self@.take(i as int) =~= self@);
        files
    }

    /// Partition keys currently tracking more than `threshold` files -- what the
    /// compactor should merge on its next pass. Returns owned keys (cheap:
    /// `Arc<str>` clone is a refcount bump) so the caller can act on each one
    /// without holding a borrow into `self` while it does.
    pub fn partitions_over(&self, threshold: usize) -> (keys: Vec<(Arc<str>, Kind, Date)>)
        ensures
            key_models(keys@) == keys_over(self@, threshold as nat),
    {
        let mut keys: Vec<(Arc<str>, Kind, Date)> = Vec::new();
        let mut i: usize = 0;
        assert(self@.take(0) =~= seq![]);
        assert(key_models(keys@) =~= keys_over(self@.take(0), threshold as nat));
        while i < self.partitions.len()
            invariant
                i <= self.partitions@.len(),
                key_models(keys@) == keys_over(self@.take(i as int), threshold as nat),
            decreases self.partitions@.len() - i,
        {
            let ghost before = keys@;
            assert(self@[i as int] == self.partitions@[i as int]@);
            assert(self@.take(i + 1).drop_last() =~= self@.take(i as int));
            if self.partitions[i].files.len() > threshold {
                let symbol: Arc<str> = self.partitions[i].symbol.clone();
                keys.push((symbol, self.partitions[i].kind, self.partitions[i].date));
                assert(key_models(keys@) =~= key_models(before).push(self@[i as int].key));
            }
            i = i + 1;
        }
        assert(self@.take(i as int) =~= self@);
        keys
    }

    /// What a merge of a partition reads, and where it writes. `None` where the
    /// partition has no files, and there is nothing to merge.
    pub fn plan_merge(&self, symbol: &Arc<str>, kind: Kind, date: Date) -> (r: Option<MergePlan>)
        requires
            date.wf(),
        ensures
            ({
                let sources = files_of(self@, PartitionKey { symbol: symbol@, kind, date });
                match r {
                    Some(plan) => self.plans(
                        PartitionKey { symbol: symbol@, kind, date },
                        texts(plan.sources@),
                        plan.target@,
                    ),
                    None => sources.len() == 0,
                }
            }),
    {
        match self.position(&**symbol, kind, date) {
            Some(i) => {
                assert(self@[i as int] == self.partitions@[i as int]@);
                if self.partitions[i].files.len() == 0 {
                    return None;
                }
                let sources: Vec<String> = copy_files(&self.partitions[i].files);
                let file_name: String = merged_name_text(self.merged_idx);
                let target: String = get_output_path(
                    self.data_dir.as_str(),
                    kind,
                    symbol.clone(),
                    file_name.as_str(),
                    &date,
                );
                Some(MergePlan { sources, target })
            },
            None => None,
        }
    }

    /// The path of the next merged file of a partition.
    pub open spec fn merge_target(&self, symbol: Seq<char>, kind: Kind, date: Date) -> Seq<char> {
        output_path(self.dir(), kind, symbol, merged_name(self.next_merged()), date)
    }

    /// Whether a merge of a partition is to read these files, and to write that
    /// one.
    pub open spec fn plans(&self, key: PartitionKey, sources: Seq<Seq<char>>, target: Seq<char>) -> bool {
        &&& sources.len() > 0
        &&& sources == files_of(self@, key)
        &&& target == self.merge_target(key.symbol, key.kind, key.date)
    }

    /// Whether `after` is this catalog once a merge of a partition was written,
    /// and `superseded` are the files that it stands for.
    pub open spec fn merges(&self, key: PartitionKey, after: &Catalog, superseded: Seq<Seq<char>>) -> bool {
        &&& after@ == with_files(self@, key, seq![self.merge_target(key.symbol, key.kind, key.date)])
        &&& after.next_merged() == self.next_merged() + 1
        &&& superseded == files_of(self@, key)
    }

    /// Takes up how a merge of a partition went, and says which files it has
    /// superseded and may be removed.
    ///
    /// Only once the merged file is written does the partition point at it, and
    /// only the files that it stands for are superseded. A merge that failed
    /// leaves the partition as it was.
    pub fn concat_from_cache(&mut self, symbol: Arc<str>, kind: Kind, date: Date, outcome: MergeOutcome) -> (superseded:
        Vec<String>)
        requires
            old(self).wf(),
            date.wf(),
            outcome != MergeOutcome::NotPlanned ==> old(self).next_merged() < usize::MAX,
        ensures
            final(self).wf(),
            final(self).dir() == old(self).dir(),
            ({
                let key = PartitionKey { symbol: symbol@, kind, date };
                let sources = files_of(old(self)@, key);
                if sources.len() == 0 || outcome == MergeOutcome::NotPlanned {
                    &&& final(self)@ == old(self)@
                    &&& final(self).next_merged() == old(self).next_merged()
                    &&& superseded@.len() == 0
                } else if outcome == MergeOutcome::NotWritten {
                    &&& final(self)@ == old(self)@
                    &&& final(self).next_merged() == old(self).next_merged() + 1
                    &&& superseded@.len() == 0
                } else {
                    old(self).merges(key, final(self), texts(superseded@))
                }
            }),
    {
        let none: Vec<String> = Vec::new();
        match self.position(&*symbol, kind, date) {
            Some(i) => {
                let ghost key = PartitionKey { symbol: symbol@, kind, date };
                assert(self@[i as int] == self.partitions@[i as int]@);
                proof {
                    lemma_place(self@, key);
                }
                if self.partitions[i].files.len() == 0 {
                    return none;
                }
                match outcome {
                    MergeOutcome::NotPlanned => none,
                    MergeOutcome::NotWritten => {
                        self.merged_idx = self.merged_idx + 1;
                        none
                    },
                    MergeOutcome::Written => {
                        let file_name: String = merged_name_text(self.merged_idx);
                        let target: String = get_output_path(
                            self.data_dir.as_str(),
                            kind,
                            symbol.clone(),
                            file_name.as_str(),
                            &date,
                        );
                        self.merged_idx = self.merged_idx + 1;
                        let ghost path = target@;
                        let mut files: Vec<String> = vec![target];
                        assert(texts(files@) =~= seq![path]);
                        let partition: &mut Partition = &mut self.partitions[i];
                        std::mem::swap(&mut partition.files, &mut files);
                        assert(self@ =~= with_files(old(self)@, key, seq![path]));
                        files
                    },
                }
            },
            None => none,
        }
    }
}

/// The model of partition keys.
pub open spec fn key_models(keys: Seq<(Arc<str>, Kind, Date)>) -> Seq<PartitionKey> {
    keys.map_values(|k: (Arc<str>, Kind, Date)| PartitionKey { symbol: k.0@, kind: k.1, date: k.2 })
}

/// The partitions of one symbol and one kind on the days of a window, both ends
/// included.
pub open spec fn in_window(symbol: Seq<char>, kind: Kind, start: Date, end: Date) -> spec_fn(PartitionKey) -> bool {
    |k: PartitionKey| k.symbol == symbol && k.kind == kind && start.day <= k.date.day <= end.day
}

/// A file that is added to a partition is the last of its files, and no other
/// partition changes.
pub proof fn added_file_is_listed_last(
    partitions: Seq<PartitionModel>,
    key: PartitionKey,
    file: Seq<char>,
    other: PartitionKey,
)
    requires
        distinct_keys(partitions),
    ensures
        distinct_keys(with_file(partitions, key, file)),
        files_of(with_file(partitions, key, file), key) == files_of(partitions, key).push(file),
        other != key ==> files_of(with_file(partitions, key, file), other) == files_of(partitions, other),
{
    let after = with_file(partitions, key, file);
    lemma_place(partitions, key);
    lemma_place(partitions, other);
    lemma_place(after, other);
    match place(partitions, key) {
        Some(i) => {
            lemma_place_unique(after, key, i);
            assert forall|k: int| 0 <= k < after.len() implies (#[trigger] after[k]).key == partitions[k].key by {}
        },
        None => {
            let at = later_from(partitions, key.date.day, 0);
            lemma_later_from(partitions, key.date.day, 0);
            assert forall|k: int| 0 <= k < after.len() implies #[trigger] after[k] == (if k < at {
                partitions[k]
            } else if k == at {
                PartitionModel { key, files: seq![file] }
            } else {
                partitions[k - 1]
            }) by {}
            lemma_place_unique(after, key, at);
            assert(files_of(partitions, key).push(file) =~= seq![file]);
        },
    }
    if other != key {
        match place(partitions, other) {
            Some(k) => {
                let moved: int = if place(partitions, key) is None && k >= later_from(partitions, key.date.day, 0) {
                    k + 1
                } else {
                    k
                };
                assert(after[moved] == partitions[k]);
                lemma_place_unique(after, other, moved);
            },
            None => {
                if place(after, other) is Some {
                    let k = place(after, other)->Some_0;
                    if place(partitions, key) is None && k > later_from(partitions, key.date.day, 0) {
                        assert(partitions[k - 1].key == other);
                    } else if k < partitions.len() {
                        assert(partitions[k].key == after[k].key || after[k].key == key);
                    }
                }
            },
        }
    }
}

/// Replacing the files of a partition changes no other partition.
pub proof fn replaced_files_are_listed(
    partitions: Seq<PartitionModel>,
    key: PartitionKey,
    files: Seq<Seq<char>>,
    other: PartitionKey,
)
    requires
        distinct_keys(partitions),
        place(partitions, key) is Some,
    ensures
        distinct_keys(with_files(partitions, key, files)),
        files_of(with_files(partitions, key, files), key) == files,
        other != key ==> files_of(with_files(partitions, key, files), other) == files_of(partitions, other),
{
    let after = with_files(partitions, key, files);
    let i = place(partitions, key)->Some_0;
    lemma_place(partitions, key);
    lemma_place(partitions, other);
    lemma_place(after, other);
    assert forall|k: int| 0 <= k < after.len() implies (#[trigger] after[k]).key == partitions[k].key by {}
    lemma_place_unique(after, key, i);
    if other != key {
        match place(partitions, other) {
            Some(k) => {
                assert(after[k] == partitions[k]);
                lemma_place_unique(after, other, k);
            },
            None => {
                if place(after, other) is Some {
                    let k = place(after, other)->Some_0;
                    assert(partitions[k].key == other);
                }
            },
        }
    }
}

proof fn lemma_keys_over(partitions: Seq<PartitionModel>, threshold: nat, key: PartitionKey)
    ensures
        keys_over(partitions, threshold).contains(key) <==> exists|i: int|
            0 <= i < partitions.len() && (#[trigger] partitions[i]).key == key && partitions[i].files.len() > threshold,
    decreases partitions.len(),
{
    if partitions.len() > 0 {
        let before = partitions.drop_last();
        let last = partitions.len() - 1;
        lemma_keys_over(before, threshold, key);
        let earlier = keys_over(before, threshold);
        let now = keys_over(partitions, threshold);
        if now.contains(key) {
            let j = choose|j: int| 0 <= j < now.len() && now[j] == key;
            if j < earlier.len() {
                assert(earlier[j] == key);
                assert(earlier.contains(key));
                let i = choose|i: int|
                    0 <= i < before.len() && (#[trigger] before[i]).key == key && before[i].files.len() > threshold;
                assert(partitions[i] == before[i]);
            } else {
                assert(partitions[last].key == key);
            }
        }
        if exists|i: int|
            0 <= i < partitions.len() && (#[trigger] partitions[i]).key == key && partitions[i].files.len()
                > threshold {
            let i = choose|i: int|
                0 <= i < partitions.len() && (#[trigger] partitions[i]).key == key && partitions[i].files.len()
                    > threshold;
            if i < last {
                assert(before[i] == partitions[i]);
                let j = choose|j: int| 0 <= j < earlier.len() && earlier[j] == key;
                assert(now[j] == key);
            } else {
                assert(now[now.len() - 1] == key);
            }
        }
    }
}

/// A partition is due for compaction exactly where it has more files than the
/// threshold.
pub proof fn due_exactly_over_the_threshold(partitions: Seq<PartitionModel>, threshold: nat, key: PartitionKey)
    requires
        distinct_keys(partitions),
    ensures
        keys_over(partitions, threshold).contains(key) <==> files_of(partitions, key).len() > threshold,
{
    lemma_keys_over(partitions, threshold, key);
    lemma_place(partitions, key);
    if keys_over(partitions, threshold).contains(key) {
        let i = choose|i: int|
            0 <= i < partitions.len() && (#[trigger] partitions[i]).key == key && partitions[i].files.len()
                > threshold;
        lemma_place_unique(partitions, key, i);
    }
}

/// A partition that was merged has one file and is no longer due, for any
/// threshold of at least one.
pub proof fn merged_partition_is_no_longer_due(
    partitions: Seq<PartitionModel>,
    key: PartitionKey,
    merged: Seq<char>,
    threshold: nat,
)
    requires
        distinct_keys(partitions),
        place(partitions, key) is Some,
        threshold >= 1,
    ensures
        files_of(with_files(partitions, key, seq![merged]), key) == seq![merged],
        !keys_over(with_files(partitions, key, seq![merged]), threshold).contains(key),
{
    replaced_files_are_listed(partitions, key, seq![merged], key);
    due_exactly_over_the_threshold(with_files(partitions, key, seq![merged]), threshold, key);
}

/// The files that are picked are those of the picked partitions, and no others.
pub proof fn picked_files_are_those_of_picked_partitions(
    partitions: Seq<PartitionModel>,
    pick: spec_fn(PartitionKey) -> bool,
    file: Seq<char>,
)
    ensures
        picked_files(partitions, pick).contains(file) <==> exists|i: int|
            0 <= i < partitions.len() && pick((#[trigger] partitions[i]).key) && partitions[i].files.contains(file),
    decreases partitions.len(),
{
    if partitions.len() > 0 {
        let before = partitions.drop_last();
        let last = partitions.len() - 1;
        picked_files_are_those_of_picked_partitions(before, pick, file);
        let earlier = picked_files(before, pick);
        let own = partitions[last].files;
        let now = picked_files(partitions, pick);
        if now.contains(file) {
            let j = choose|j: int| 0 <= j < now.len() && now[j] == file;
            if j < earlier.len() {
                assert(earlier[j] == file);
                assert(earlier.contains(file));
                let i = choose|i: int|
                    0 <= i < before.len() && pick((#[trigger] before[i]).key) && before[i].files.contains(file);
                assert(partitions[i] == before[i]);
            } else {
                assert(own[j - earlier.len()] == file);
                assert(own.contains(file));
                assert(pick(partitions[last].key));
            }
        }
        if exists|i: int|
            0 <= i < partitions.len() && pick((#[trigger] partitions[i]).key) && partitions[i].files.contains(file) {
            let i = choose|i: int|
                0 <= i < partitions.len() && pick((#[trigger] partitions[i]).key) && partitions[i].files.contains(file);
            if i < last {
                assert(before[i] == partitions[i]);
                let j = choose|j: int| 0 <= j < earlier.len() && earlier[j] == file;
                assert(now[j] == file);
            } else {
                let j = choose|j: int| 0 <= j < own.len() && own[j] == file;
                assert(now[earlier.len() + j] == file);
            }
        }
    }
}

/// The files that are picked are in the order of their days: those of the days
/// up to any one stand before those of all later days.
pub proof fn picked_files_are_in_day_order(
    partitions: Seq<PartitionModel>,
    pick: spec_fn(PartitionKey) -> bool,
    day: i32,
)
    requires
        in_day_order(partitions),
    ensures
        picked_files(partitions, pick) == picked_files(
            partitions,
            |k: PartitionKey| pick(k) && k.date.day <= day,
        ) + picked_files(partitions, |k: PartitionKey| pick(k) && k.date.day > day),
    decreases partitions.len(),
{
    let upto = |k: PartitionKey| pick(k) && k.date.day <= day;
    let past = |k: PartitionKey| pick(k) && k.date.day > day;
    if partitions.len() > 0 {
        let before = partitions.drop_last();
        let last = partitions.last();
        picked_files_are_in_day_order(before, pick, day);
        if last.key.date.day <= day {
            lemma_none_picked(before, past);
            assert(picked_files(before, pick) =~= picked_files(before, upto));
        }
    }
    assert(picked_files(partitions, pick) =~= picked_files(partitions, upto) + picked_files(partitions, past));
}

proof fn lemma_none_picked(partitions: Seq<PartitionModel>, pick: spec_fn(PartitionKey) -> bool)
    requires
        forall|i: int| 0 <= i < partitions.len() ==> !pick((#[trigger] partitions[i]).key),
    ensures
        picked_files(partitions, pick) == Seq::<Seq<char>>::empty(),
    decreases partitions.len(),
{
    if partitions.len() > 0 {
        let before = partitions.drop_last();
        assert forall|i: int| 0 <= i < before.len() implies !pick((#[trigger] before[i]).key) by {
            assert(before[i] == partitions[i]);
        }
        lemma_none_picked(before, pick);
        assert(!pick(partitions[partitions.len() - 1].key));
    }
}

/// A merge that was carried out as planned is taken up as planned: where the
/// catalog has not changed in between, the files that are superseded are those
/// that the merge read, the partition then holds the one file that the merge
/// wrote, and no other partition changes.
pub proof fn carried_out_plan_is_taken_up(
    planned: &Catalog,
    current: &Catalog,
    after: &Catalog,
    key: PartitionKey,
    sources: Seq<Seq<char>>,
    target: Seq<char>,
    superseded: Seq<Seq<char>>,
    other: PartitionKey,
)
    requires
        current.wf(),
        current@ == planned@,
        current.dir() == planned.dir(),
        current.next_merged() == planned.next_merged(),
        planned.plans(key, sources, target),
        current.merges(key, after, superseded),
    ensures
        superseded == sources,
        files_of(after@, key) == seq![target],
        other != key ==> files_of(after@, other) == files_of(current@, other),
{
    replaced_files_are_listed(current@, key, seq![target], other);
}

/// Whether a file is one that a flush, or an earlier merge, wrote for a
/// partition.
pub open spec fn written_before(
    file: Seq<char>,
    data_dir: Seq<char>,
    key: PartitionKey,
    next_merged: nat,
) -> bool {
    ||| exists|n: nat|
        file == output_path(data_dir, key.kind, key.symbol, #[trigger] part_name(n), key.date)
    ||| exists|n: nat|
        n < next_merged && file == output_path(data_dir, key.kind, key.symbol, #[trigger] merged_name(n), key.date)
}

/// A merge never removes the file that it wrote: the target of the next merge is
/// none of the files that flushes and earlier merges wrote.
pub proof fn merge_target_is_new(file: Seq<char>, data_dir: Seq<char>, key: PartitionKey, next_merged: nat)
    requires
        written_before(file, data_dir, key, next_merged),
    ensures
        file != output_path(data_dir, key.kind, key.symbol, merged_name(next_merged), key.date),
{
    if exists|n: nat| file == output_path(data_dir, key.kind, key.symbol, #[trigger] part_name(n), key.date) {
        let n = choose|n: nat|
            file == output_path(data_dir, key.kind, key.symbol, #[trigger] part_name(n), key.date);
        files_of_a_partition_are_distinct(data_dir, key.kind, key.symbol, key.date, n, next_merged);
    } else {
        let n = choose|n: nat|
            n < next_merged && file == output_path(
                data_dir,
                key.kind,
                key.symbol,
                #[trigger] merged_name(n),
                key.date,
            );
        files_of_a_partition_are_distinct(data_dir, key.kind, key.symbol, key.date, n, next_merged);
    }
}

} // verus!
