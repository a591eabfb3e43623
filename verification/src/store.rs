//! An in-memory model of the remote store's begin/commit interface, with the
//! store's conflict-detection, key-assignment and all-or-nothing transaction
//! semantics. The protocol logic is verified against this model.

use vstd::prelude::*;

use crate::entity::{
    check_key_incomplete, clone_properties, keys_equal, key_is_incomplete, DatastoreEntity,
    DatastoreEntityView, Key, KeyView, PathElement, PathElementView, Property, PropertyView,
};
use crate::mutation::{
    CommitResponse, CommitResponseView, Mutation, MutationOperation, MutationOperationView,
    MutationResult, MutationResultView, MutationView,
};

verus! {

/// One entity as the store holds it: a resolved key, the written properties,
/// and the version assigned by the commit that last wrote it.
pub struct StoredEntity {
    pub key: Key,
    pub properties: Vec<Property>,
    pub version: i64,
}

/// Mathematical model of a [`StoredEntity`].
#[verifier::ext_equal]
pub ghost struct StoredEntityView {
    pub key: KeyView,
    pub properties: Seq<PropertyView>,
    pub version: i64,
}

impl View for StoredEntity {
    type V = StoredEntityView;

    open spec fn view(&self) -> StoredEntityView {
        StoredEntityView {
            key: self.key@,
            properties: self.properties.deep_view(),
            version: self.version,
        }
    }
}

impl DeepView for StoredEntity {
    type V = StoredEntityView;

    open spec fn deep_view(&self) -> StoredEntityView {
        self.view()
    }
}

/// The entity stored under `k`: the first entry whose key equals `k`.
pub open spec fn spec_lookup(entries: Seq<StoredEntityView>, k: KeyView) -> Option<StoredEntityView>
    decreases entries.len(),
{
    if entries.len() == 0 {
        None
    } else if entries[0].key == k {
        Some(entries[0])
    } else {
        spec_lookup(entries.drop_first(), k)
    }
}

/// Whether some entry is stored under `k`.
pub open spec fn contains_key(entries: Seq<StoredEntityView>, k: KeyView) -> bool {
    spec_lookup(entries, k) is Some
}

/// The entries after writing `ne`: the first entry stored under the same key
/// is replaced, otherwise `ne` is appended.
pub open spec fn spec_upsert(entries: Seq<StoredEntityView>, ne: StoredEntityView) -> Seq<
    StoredEntityView,
>
    decreases entries.len(),
{
    if entries.len() == 0 {
        seq![ne]
    } else if entries[0].key == ne.key {
        seq![ne] + entries.drop_first()
    } else {
        seq![entries[0]] + spec_upsert(entries.drop_first(), ne)
    }
}

/// The entries after removing the first entry stored under `k`, if any.
pub open spec fn spec_remove(entries: Seq<StoredEntityView>, k: KeyView) -> Seq<StoredEntityView>
    decreases entries.len(),
{
    if entries.len() == 0 {
        entries
    } else if entries[0].key == k {
        entries.drop_first()
    } else {
        seq![entries[0]] + spec_remove(entries.drop_first(), k)
    }
}

/// No two entries share a key.
pub open spec fn entries_unique(entries: Seq<StoredEntityView>) -> bool
    decreases entries.len(),
{
    if entries.len() == 0 {
        true
    } else {
        !contains_key(entries.drop_first(), entries[0].key) && entries_unique(entries.drop_first())
    }
}

/// Every stored key is resolved: the store never holds an entity under an
/// incomplete key placeholder.
pub open spec fn entries_resolved(entries: Seq<StoredEntityView>) -> bool
    decreases entries.len(),
{
    if entries.len() == 0 {
        true
    } else {
        !key_is_incomplete(entries[0].key) && entries_resolved(entries.drop_first())
    }
}

/// Every stored version is below `bound`.
pub open spec fn entries_versions_below(entries: Seq<StoredEntityView>, bound: int) -> bool
    decreases entries.len(),
{
    if entries.len() == 0 {
        true
    } else {
        entries[0].version < bound && entries_versions_below(entries.drop_first(), bound)
    }
}

/// Looking up the key of a fresh write finds exactly that write.
pub proof fn lemma_lookup_upsert_same(entries: Seq<StoredEntityView>, ne: StoredEntityView)
    ensures
        spec_lookup(spec_upsert(entries, ne), ne.key) == Some(ne),
    decreases entries.len(),
{
    if entries.len() == 0 {
        assert(spec_upsert(entries, ne)[0] == ne);
    } else if entries[0].key == ne.key {
        assert(spec_upsert(entries, ne)[0] == ne);
    } else {
        lemma_lookup_upsert_same(entries.drop_first(), ne);
        assert(spec_upsert(entries, ne)[0] == entries[0]);
        assert(spec_upsert(entries, ne).drop_first() =~= spec_upsert(entries.drop_first(), ne));
    }
}

/// A write leaves every other key's lookup unchanged.
pub proof fn lemma_lookup_upsert_other(
    entries: Seq<StoredEntityView>,
    ne: StoredEntityView,
    k: KeyView,
)
    requires
        k != ne.key,
    ensures
        spec_lookup(spec_upsert(entries, ne), k) == spec_lookup(entries, k),
    decreases entries.len(),
{
    let up = spec_upsert(entries, ne);
    if entries.len() == 0 {
        assert(up[0] == ne);
        assert(up.drop_first() =~= Seq::<StoredEntityView>::empty());
        assert(spec_lookup(up.drop_first(), k) is None);
    } else if entries[0].key == ne.key {
        assert(up[0] == ne);
        assert(up.drop_first() =~= entries.drop_first());
    } else {
        lemma_lookup_upsert_other(entries.drop_first(), ne, k);
        assert(up[0] == entries[0]);
        assert(up.drop_first() =~= spec_upsert(entries.drop_first(), ne));
    }
}

/// Removing a key makes its lookup fail, provided keys were unique.
pub proof fn lemma_lookup_remove_same(entries: Seq<StoredEntityView>, k: KeyView)
    requires
        entries_unique(entries),
    ensures
        spec_lookup(spec_remove(entries, k), k) is None,
    decreases entries.len(),
{
    if entries.len() == 0 {
    } else if entries[0].key == k {
    } else {
        lemma_lookup_remove_same(entries.drop_first(), k);
        assert(spec_remove(entries, k)[0] == entries[0]);
        assert(spec_remove(entries, k).drop_first() =~= spec_remove(entries.drop_first(), k));
    }
}

/// Removing a key leaves every other key's lookup unchanged.
pub proof fn lemma_lookup_remove_other(entries: Seq<StoredEntityView>, k: KeyView, k2: KeyView)
    requires
        k2 != k,
    ensures
        spec_lookup(spec_remove(entries, k), k2) == spec_lookup(entries, k2),
    decreases entries.len(),
{
    if entries.len() == 0 {
    } else if entries[0].key == k {
    } else {
        lemma_lookup_remove_other(entries.drop_first(), k, k2);
        assert(spec_remove(entries, k)[0] == entries[0]);
        assert(spec_remove(entries, k).drop_first() =~= spec_remove(entries.drop_first(), k));
    }
}

/// A write preserves key uniqueness.
pub proof fn lemma_upsert_unique(entries: Seq<StoredEntityView>, ne: StoredEntityView)
    requires
        entries_unique(entries),
    ensures
        entries_unique(spec_upsert(entries, ne)),
    decreases entries.len(),
{
    let up = spec_upsert(entries, ne);
    if entries.len() == 0 {
        assert(up[0] == ne);
        assert(up.drop_first() =~= Seq::<StoredEntityView>::empty());
        assert(spec_lookup(up.drop_first(), ne.key) is None);
        assert(entries_unique(up.drop_first()));
    } else if entries[0].key == ne.key {
        assert(up[0] == ne);
        assert(up.drop_first() =~= entries.drop_first());
        assert(!contains_key(up.drop_first(), up[0].key));
    } else {
        lemma_upsert_unique(entries.drop_first(), ne);
        lemma_lookup_upsert_other(entries.drop_first(), ne, entries[0].key);
        assert(up[0] == entries[0]);
        assert(up.drop_first() =~= spec_upsert(entries.drop_first(), ne));
        assert(!contains_key(up.drop_first(), up[0].key));
    }
}

/// A removal preserves key uniqueness.
pub proof fn lemma_remove_unique(entries: Seq<StoredEntityView>, k: KeyView)
    requires
        entries_unique(entries),
    ensures
        entries_unique(spec_remove(entries, k)),
    decreases entries.len(),
{
    if entries.len() == 0 {
    } else if entries[0].key == k {
    } else {
        lemma_remove_unique(entries.drop_first(), k);
        lemma_lookup_remove_other(entries.drop_first(), k, entries[0].key);
        assert(spec_remove(entries, k)[0] == entries[0]);
        assert(spec_remove(entries, k).drop_first() =~= spec_remove(entries.drop_first(), k));
    }
}

/// A write of a resolved key preserves key resolvedness.
pub proof fn lemma_upsert_resolved(entries: Seq<StoredEntityView>, ne: StoredEntityView)
    requires
        entries_resolved(entries),
        !key_is_incomplete(ne.key),
    ensures
        entries_resolved(spec_upsert(entries, ne)),
    decreases entries.len(),
{
    let up = spec_upsert(entries, ne);
    if entries.len() == 0 {
        assert(up[0] == ne);
        assert(up.drop_first() =~= Seq::<StoredEntityView>::empty());
        assert(entries_resolved(up.drop_first()));
    } else if entries[0].key == ne.key {
        assert(up[0] == ne);
        assert(up.drop_first() =~= entries.drop_first());
    } else {
        lemma_upsert_resolved(entries.drop_first(), ne);
        assert(up[0] == entries[0]);
        assert(up.drop_first() =~= spec_upsert(entries.drop_first(), ne));
    }
}

/// A removal preserves key resolvedness.
pub proof fn lemma_remove_resolved(entries: Seq<StoredEntityView>, k: KeyView)
    requires
        entries_resolved(entries),
    ensures
        entries_resolved(spec_remove(entries, k)),
    decreases entries.len(),
{
    if entries.len() == 0 {
    } else if entries[0].key == k {
    } else {
        lemma_remove_resolved(entries.drop_first(), k);
        assert(spec_remove(entries, k)[0] == entries[0]);
        assert(spec_remove(entries, k).drop_first() =~= spec_remove(entries.drop_first(), k));
    }
}

/// A write of a version below the bound preserves the version bound.
pub proof fn lemma_upsert_versions(
    entries: Seq<StoredEntityView>,
    ne: StoredEntityView,
    bound: int,
)
    requires
        entries_versions_below(entries, bound),
        ne.version < bound,
    ensures
        entries_versions_below(spec_upsert(entries, ne), bound),
    decreases entries.len(),
{
    let up = spec_upsert(entries, ne);
    if entries.len() == 0 {
        assert(up[0] == ne);
        assert(up.drop_first() =~= Seq::<StoredEntityView>::empty());
        assert(entries_versions_below(up.drop_first(), bound));
    } else if entries[0].key == ne.key {
        assert(up[0] == ne);
        assert(up.drop_first() =~= entries.drop_first());
    } else {
        lemma_upsert_versions(entries.drop_first(), ne, bound);
        assert(up[0] == entries[0]);
        assert(up.drop_first() =~= spec_upsert(entries.drop_first(), ne));
    }
}

/// A removal preserves the version bound.
pub proof fn lemma_remove_versions(entries: Seq<StoredEntityView>, k: KeyView, bound: int)
    requires
        entries_versions_below(entries, bound),
    ensures
        entries_versions_below(spec_remove(entries, k), bound),
    decreases entries.len(),
{
    if entries.len() == 0 {
    } else if entries[0].key == k {
    } else {
        lemma_remove_versions(entries.drop_first(), k, bound);
        assert(spec_remove(entries, k)[0] == entries[0]);
        assert(spec_remove(entries, k).drop_first() =~= spec_remove(entries.drop_first(), k));
    }
}

/// A looser bound also bounds the versions.
pub proof fn lemma_versions_below_widen(entries: Seq<StoredEntityView>, bound: int, wider: int)
    requires
        entries_versions_below(entries, bound),
        bound <= wider,
    ensures
        entries_versions_below(entries, wider),
    decreases entries.len(),
{
    if entries.len() > 0 {
        lemma_versions_below_widen(entries.drop_first(), bound, wider);
    }
}

/// What the version bound says of a successful lookup.
pub proof fn lemma_lookup_version_below(entries: Seq<StoredEntityView>, k: KeyView, bound: int)
    requires
        entries_versions_below(entries, bound),
        spec_lookup(entries, k) is Some,
    ensures
        spec_lookup(entries, k)->Some_0.version < bound,
    decreases entries.len(),
{
    if entries.len() == 0 {
    } else if entries[0].key == k {
    } else {
        lemma_lookup_version_below(entries.drop_first(), k, bound);
    }
}

/// Whether a mutation conflicts against the given stored entries: it carries
/// an expected version, and the entity it addresses is not currently stored
/// at exactly that version.
pub open spec fn mutation_conflicts(entries: Seq<StoredEntityView>, m: MutationView) -> bool {
    match m.base_version {
        Some(v) => match m.target() {
            Some(k) => match spec_lookup(entries, k) {
                Some(se) => se.version != v,
                None => true,
            },
            None => true,
        },
        None => false,
    }
}

/// The conflict verdict the store reports for one mutation: set only when the
/// mutation asked for conflict detection by carrying an expected version.
pub open spec fn conflict_flag(entries: Seq<StoredEntityView>, m: MutationView) -> Option<bool> {
    match m.base_version {
        Some(v) => Some(mutation_conflicts(entries, m)),
        None => None,
    }
}

/// Whether any mutation of the batch conflicts against the entries.
pub open spec fn spec_any_conflict(
    entries: Seq<StoredEntityView>,
    muts: Seq<MutationView>,
) -> bool {
    exists|i: int| 0 <= i < muts.len() && mutation_conflicts(entries, muts[i])
}

/// The key under which an upsert with an incomplete key is stored: the first
/// path element receives the allocated id.
pub open spec fn spec_assign_key(k: KeyView, id: i64) -> KeyView {
    KeyView {
        path: k.path.update(0, PathElementView { kind: k.path[0].kind, name: None, id: Some(id) }),
    }
}

/// The store's whole state, as the specification sees it.
#[verifier::ext_equal]
pub ghost struct DatastoreView {
    pub entries: Seq<StoredEntityView>,
    pub next_id: int,
    pub next_version: int,
    pub next_handle: int,
}

impl DatastoreView {
    /// The store's invariant: keys are unique and resolved, and every stored
    /// version lies below the version the next commit will assign.
    pub open spec fn wf(self) -> bool {
        &&& entries_unique(self.entries)
        &&& entries_resolved(self.entries)
        &&& entries_versions_below(self.entries, self.next_version)
    }
}

/// What applying one (conflict-free) mutation does to the store, and the key
/// it allocates, if any.
pub open spec fn spec_apply_one(s: DatastoreView, m: MutationView, version: i64) -> (
    DatastoreView,
    Option<KeyView>,
) {
    match m.operation {
        MutationOperationView::Upsert(e) => match e.key {
            Some(k) => {
                if key_is_incomplete(k) {
                    let nk = spec_assign_key(k, s.next_id as i64);
                    let ne = StoredEntityView { key: nk, properties: e.properties, version };
                    (
                        DatastoreView {
                            entries: spec_upsert(s.entries, ne),
                            next_id: s.next_id + 1,
                            ..s
                        },
                        Some(nk),
                    )
                } else {
                    let ne = StoredEntityView { key: k, properties: e.properties, version };
                    (DatastoreView { entries: spec_upsert(s.entries, ne), ..s }, None)
                }
            },
            None => (s, None),
        },
        MutationOperationView::Delete(k) => (
            DatastoreView { entries: spec_remove(s.entries, k), ..s },
            None,
        ),
    }
}

/// What applying a conflict-free batch does, mutation by mutation in
/// submission order, all writes carrying the same commit version.
pub open spec fn spec_apply(s: DatastoreView, muts: Seq<MutationView>, version: i64) -> (
    DatastoreView,
    Seq<Option<KeyView>>,
)
    decreases muts.len(),
{
    if muts.len() == 0 {
        (s, Seq::empty())
    } else {
        let prev = spec_apply(s, muts.drop_last(), version);
        let step = spec_apply_one(prev.0, muts.last(), version);
        (step.0, prev.1.push(step.1))
    }
}

/// The per-mutation results of a commit: the conflict verdicts are judged
/// against the entries as they stood when the commit began, and keys are
/// reported only when the batch as a whole went through.
pub open spec fn spec_commit_results(
    entries0: Seq<StoredEntityView>,
    muts: Seq<MutationView>,
    keys: Seq<Option<KeyView>>,
    conflicted: bool,
) -> Seq<MutationResultView> {
    Seq::new(
        muts.len(),
        |i: int|
            MutationResultView {
                conflict_detected: conflict_flag(entries0, muts[i]),
                key: if conflicted {
                    None
                } else {
                    keys[i]
                },
            },
    )
}

/// What a commit of `muts` does: if any mutation conflicts against the state
/// the commit began with, nothing is applied and the results carry the
/// conflict verdicts; otherwise all mutations apply in order, the commit
/// version is consumed, and the results carry the allocated keys.
pub open spec fn spec_commit(s: DatastoreView, muts: Seq<MutationView>) -> (
    DatastoreView,
    Seq<MutationResultView>,
) {
    if spec_any_conflict(s.entries, muts) {
        (s, spec_commit_results(s.entries, muts, Seq::empty(), true))
    } else {
        let applied = spec_apply(s, muts, s.next_version as i64);
        (
            DatastoreView { next_version: s.next_version + 1, ..applied.0 },
            spec_commit_results(s.entries, muts, applied.1, false),
        )
    }
}

/// What beginning a transaction does: the store hands out the next handle.
pub open spec fn spec_begin(s: DatastoreView) -> (DatastoreView, i64) {
    (DatastoreView { next_handle: s.next_handle + 1, ..s }, s.next_handle as i64)
}

/// One applied mutation preserves the store's structural invariants.
pub proof fn lemma_apply_one_wf(s: DatastoreView, m: MutationView, version: i64, bound: int)
    requires
        entries_unique(s.entries),
        entries_resolved(s.entries),
        entries_versions_below(s.entries, bound),
        version < bound,
    ensures
        ({
            let s1 = spec_apply_one(s, m, version).0;
            &&& entries_unique(s1.entries)
            &&& entries_resolved(s1.entries)
            &&& entries_versions_below(s1.entries, bound)
            &&& s.next_id <= s1.next_id
            &&& s1.next_version == s.next_version
            &&& s1.next_handle == s.next_handle
        }),
{
    match m.operation {
        MutationOperationView::Upsert(e) => match e.key {
            Some(k) => {
                if key_is_incomplete(k) {
                    let nk = spec_assign_key(k, s.next_id as i64);
                    let ne = StoredEntityView { key: nk, properties: e.properties, version };
                    assert(!key_is_incomplete(nk));
                    lemma_upsert_unique(s.entries, ne);
                    lemma_upsert_resolved(s.entries, ne);
                    lemma_upsert_versions(s.entries, ne, bound);
                } else {
                    let ne = StoredEntityView { key: k, properties: e.properties, version };
                    lemma_upsert_unique(s.entries, ne);
                    lemma_upsert_resolved(s.entries, ne);
                    lemma_upsert_versions(s.entries, ne, bound);
                }
            },
            None => {},
        },
        MutationOperationView::Delete(k) => {
            lemma_remove_unique(s.entries, k);
            lemma_remove_resolved(s.entries, k);
            lemma_remove_versions(s.entries, k, bound);
        },
    }
}

/// An applied batch preserves the store's structural invariants.
pub proof fn lemma_apply_wf(s: DatastoreView, muts: Seq<MutationView>, version: i64, bound: int)
    requires
        entries_unique(s.entries),
        entries_resolved(s.entries),
        entries_versions_below(s.entries, bound),
        version < bound,
    ensures
        ({
            let applied = spec_apply(s, muts, version);
            &&& entries_unique(applied.0.entries)
            &&& entries_resolved(applied.0.entries)
            &&& entries_versions_below(applied.0.entries, bound)
            &&& s.next_id <= applied.0.next_id
            &&& applied.0.next_version == s.next_version
            &&& applied.0.next_handle == s.next_handle
            &&& applied.1.len() == muts.len()
        }),
    decreases muts.len(),
{
    if muts.len() > 0 {
        lemma_apply_wf(s, muts.drop_last(), version, bound);
        lemma_apply_one_wf(spec_apply(s, muts.drop_last(), version).0, muts.last(), version, bound);
    }
}

/// A commit leaves the store well-formed.
pub proof fn lemma_commit_wf(s: DatastoreView, muts: Seq<MutationView>)
    requires
        s.wf(),
        i64::MIN <= s.next_version <= i64::MAX,
    ensures
        spec_commit(s, muts).0.wf(),
        spec_commit(s, muts).1.len() == muts.len(),
        s.next_version <= spec_commit(s, muts).0.next_version,
{
    if spec_any_conflict(s.entries, muts) {
    } else {
        lemma_versions_below_widen(s.entries, s.next_version, s.next_version + 1);
        lemma_apply_wf(s, muts, s.next_version as i64, s.next_version + 1);
    }
}

/// The store itself: entries plus the id, version and transaction-handle
/// counters. The model performs every network interaction of the real store
/// locally and synchronously; it does not validate handles, since handle
/// bookkeeping is the transport's concern, not the protocol's.
pub struct InMemoryDatastore {
    entries: Vec<StoredEntity>,
    next_id: i64,
    next_version: i64,
    next_handle: i64,
}

impl View for InMemoryDatastore {
    type V = DatastoreView;

    closed spec fn view(&self) -> DatastoreView {
        DatastoreView {
            entries: self.entries.deep_view(),
            next_id: self.next_id as int,
            next_version: self.next_version as int,
            next_handle: self.next_handle as int,
        }
    }
}

impl InMemoryDatastore {
    /// An empty store.
    pub fn new() -> (r: Self)
        ensures
            r@ == (DatastoreView {
                entries: Seq::<StoredEntityView>::empty(),
                next_id: 1,
                next_version: 1,
                next_handle: 1,
            }),
            r@.wf(),
    {
        let r = InMemoryDatastore { entries: Vec::new(), next_id: 1, next_version: 1, next_handle: 1 };
        proof {
            assert(r@.entries =~= Seq::<StoredEntityView>::empty());
            assert(r@ =~= (DatastoreView {
                entries: Seq::<StoredEntityView>::empty(),
                next_id: 1,
                next_version: 1,
                next_handle: 1,
            }));
        }
        r
    }

    /// The index of the entry stored under `key`, scanning in storage order.
    fn find_index(&self, key: &Key) -> (r: Option<usize>)
        ensures
            match r {
                Some(i) => i < self@.entries.len() && self@.entries[i as int].key == key@
                    && spec_lookup(self@.entries, key@) == Some(self@.entries[i as int])
                    && (forall|j: int| 0 <= j < i ==> self@.entries[j].key != key@),
                None => spec_lookup(self@.entries, key@) is None,
            },
    {
        let n = self.entries.len();
        let mut i: usize = 0;
        proof {
            assert(self@.entries.skip(0) =~= self@.entries);
        }
        while i < n
            invariant
                i <= n,
                n == self.entries.len(),
                spec_lookup(self@.entries, key@) == spec_lookup(
                    self@.entries.skip(i as int),
                    key@,
                ),
                forall|j: int| 0 <= j < i ==> self@.entries[j].key != key@,
            decreases n - i,
        {
            proof {
                assert(self@.entries.skip(i as int)[0] == self@.entries[i as int]);
                assert(self@.entries.skip(i as int).drop_first() =~= self@.entries.skip(
                    i as int + 1,
                ));
                assert(self@.entries[i as int] == self.entries@[i as int]@);
            }
            if keys_equal(&self.entries[i].key, key) {
                return Some(i);
            }
            i = i + 1;
        }
        proof {
            assert(self@.entries.skip(n as int) =~= Seq::<StoredEntityView>::empty());
        }
        None
    }

    /// Writes `ne`, replacing the entry stored under the same key if there is
    /// one.
    fn upsert_entry(&mut self, ne: StoredEntity)
        ensures
            final(self)@ == (DatastoreView {
                entries: spec_upsert(old(self)@.entries, ne@),
                ..old(self)@
            }),
    {
        let ghost e0 = self@.entries;
        let ghost nev = ne@;
        match self.find_index(&ne.key) {
            Some(i) => {
                self.entries[i] = ne;
                proof {
                    assert forall|j: int| 0 <= j < self@.entries.len() implies self@.entries[j]
                        == e0.update(i as int, nev)[j] by {
                        if j != i {
                            assert(self.entries@[j] == old(self).entries@[j]);
                        }
                    }
                    assert(self@.entries =~= e0.update(i as int, nev));
                    lemma_upsert_at_index(e0, nev, i as int);
                    assert(self@ =~= (DatastoreView { entries: spec_upsert(e0, nev), ..old(self)@ }));
                }
            },
            None => {
                self.entries.push(ne);
                proof {
                    assert forall|j: int| 0 <= j < self@.entries.len() implies self@.entries[j]
                        == e0.push(nev)[j] by {
                        if j < e0.len() {
                            assert(self.entries@[j] == old(self).entries@[j]);
                        }
                    }
                    assert(self@.entries =~= e0.push(nev));
                    lemma_upsert_append(e0, nev);
                    assert(self@ =~= (DatastoreView { entries: spec_upsert(e0, nev), ..old(self)@ }));
                }
            },
        }
    }

    /// Removes the entry stored under `key`, if there is one.
    fn delete_entry(&mut self, key: &Key)
        ensures
            final(self)@ == (DatastoreView {
                entries: spec_remove(old(self)@.entries, key@),
                ..old(self)@
            }),
    {
        let ghost e0 = self@.entries;
        match self.find_index(key) {
            Some(i) => {
                self.entries.remove(i);
                proof {
                    assert(self.entries@ == old(self).entries@.remove(i as int));
                    assert forall|j: int| 0 <= j < self@.entries.len() implies self@.entries[j]
                        == e0.remove(i as int)[j] by {
                        if j < i {
                            assert(self.entries@[j] == old(self).entries@[j]);
                        } else {
                            assert(self.entries@[j] == old(self).entries@[j + 1]);
                        }
                    }
                    assert(self@.entries =~= e0.remove(i as int));
                    lemma_remove_at_index(e0, key@, i as int);
                    assert(self@ =~= (DatastoreView { entries: spec_remove(e0, key@), ..old(self)@ }));
                }
            },
            None => {
                proof {
                    lemma_remove_absent(e0, key@);
                    assert(self@ =~= (DatastoreView { entries: spec_remove(e0, key@), ..old(self)@ }));
                }
            },
        }
    }

    /// Whether one mutation conflicts against the current entries.
    fn conflicts(&self, m: &Mutation) -> (r: bool)
        ensures
            r == mutation_conflicts(self@.entries, m@),
    {
        match &m.base_version {
            None => false,
            Some(v) => {
                let target: Option<&Key> = match &m.operation {
                    MutationOperation::Upsert(e) => match &e.key {
                        Some(k) => Some(k),
                        None => None,
                    },
                    MutationOperation::Delete(k) => Some(k),
                };
                match target {
                    None => true,
                    Some(k) => match self.find_index(k) {
                        Some(idx) => {
                            proof {
                                assert(self@.entries[idx as int].version == self.entries@[
                                    idx as int
                                ]@.version);
                            }
                            self.entries[idx].version != *v
                        },
                        None => true,
                    },
                }
            },
        }
    }

    /// Hands out a transaction handle. A handle is acquired before a commit
    /// and quoted with it; the model keeps only the counter.
    pub fn begin_transaction(&mut self) -> (h: i64)
        requires
            old(self)@.next_handle < i64::MAX,
        ensures
            final(self)@ == spec_begin(old(self)@).0,
            h == spec_begin(old(self)@).1,
            old(self)@.wf() ==> final(self)@.wf(),
    {
        let h = self.next_handle;
        self.next_handle = self.next_handle + 1;
        h
    }

    /// Commits a batch of mutations atomically under a handle: if any
    /// mutation's expected version does not match the stored state, nothing
    /// is applied and the results carry the conflict verdicts; otherwise all
    /// mutations apply in order and the results carry the keys the store
    /// allocated. One result is returned per mutation, in submission order.
    pub fn apply_commit(&mut self, mutations: &Vec<Mutation>, _handle: i64) -> (r: CommitResponse)
        requires
            old(self)@.wf(),
            old(self)@.next_version < i64::MAX,
            old(self)@.next_id + mutations@.len() <= i64::MAX,
        ensures
            final(self)@.wf(),
            final(self)@ == spec_commit(old(self)@, mutations.deep_view()).0,
            r@ == (CommitResponseView {
                mutation_results: Some(spec_commit(old(self)@, mutations.deep_view()).1),
            }),
    {
        let ghost s0 = self@;
        let ghost mv = mutations.deep_view();
        let n = mutations.len();
        let mut any_conflict = false;
        let mut flags: Vec<Option<bool>> = Vec::new();
        let mut i: usize = 0;
        while i < n
            invariant
                i <= n,
                n == mutations@.len(),
                mv == mutations.deep_view(),
                self@ == s0,
                flags@.len() == i,
                forall|j: int| 0 <= j < i ==> flags@[j] == conflict_flag(s0.entries, mv[j]),
                any_conflict == exists|j: int| 0 <= j < i && mutation_conflicts(s0.entries, mv[j]),
            decreases n - i,
        {
            proof {
                assert(mv[i as int] == mutations@[i as int]@);
            }
            let c = self.conflicts(&mutations[i]);
            let has_base = mutations[i].base_version.is_some();
            flags.push(if has_base { Some(c) } else { None });
            any_conflict = any_conflict || c;
            i = i + 1;
        }
        if any_conflict {
            proof {
                assert(spec_any_conflict(s0.entries, mv));
            }
            let mut results: Vec<MutationResult> = Vec::new();
            let mut j: usize = 0;
            while j < n
                invariant
                    j <= n,
                    n == mutations@.len(),
                    mv == mutations.deep_view(),
                    self@ == s0,
                    flags@.len() == n,
                    forall|t: int| 0 <= t < n ==> flags@[t] == conflict_flag(s0.entries, mv[t]),
                    results@.len() == j,
                    forall|t: int|
                        0 <= t < j ==> results@[t]@ == (MutationResultView {
                            conflict_detected: conflict_flag(s0.entries, mv[t]),
                            key: None,
                        }),
                decreases n - j,
            {
                results.push(MutationResult { conflict_detected: flags[j], key: None });
                j = j + 1;
            }
            proof {
                let rs = spec_commit(s0, mv).1;
                assert forall|t: int| 0 <= t < n implies results.deep_view()[t] == rs[t] by {
                    assert(results@[t]@ == (MutationResultView {
                        conflict_detected: conflict_flag(s0.entries, mv[t]),
                        key: None,
                    }));
                }
                assert(results.deep_view() =~= rs);
            }
            return CommitResponse { mutation_results: Some(results) };
        }
        proof {
            assert(!spec_any_conflict(s0.entries, mv));
        }
        let version = self.next_version;
        let mut assigned: Vec<Option<Key>> = Vec::new();
        let mut i: usize = 0;
        proof {
            assert(mv.take(0) =~= Seq::<MutationView>::empty());
            assert(spec_apply(s0, mv.take(0), version).0 == s0);
        }
        while i < n
            invariant
                i <= n,
                n == mutations@.len(),
                mv == mutations.deep_view(),
                s0.wf(),
                s0.next_version == version as int,
                version < i64::MAX,
                self@.next_version == s0.next_version,
                self@.next_handle == s0.next_handle,
                self@ == spec_apply(s0, mv.take(i as int), version).0,
                assigned@.len() == i,
                assigned.deep_view() =~= spec_apply(s0, mv.take(i as int), version).1,
                self@.next_id + (n - i) <= i64::MAX,
            decreases n - i,
        {
            proof {
                assert(mv[i as int] == mutations@[i as int]@);
            }
            let ghost av0 = assigned@;
            let ghost dv0 = assigned.deep_view();
            let k = self.apply_one(&mutations[i], version);
            assigned.push(k);
            i = i + 1;
            proof {
                let prev = spec_apply(s0, mv.take(i as int - 1), version);
                let stepv = spec_apply(s0, mv.take(i as int), version);
                assert(mv.take(i as int).drop_last() =~= mv.take(i as int - 1));
                assert(mv.take(i as int).last() == mv[i as int - 1]);
                assert forall|t: int| 0 <= t < assigned@.len() implies assigned.deep_view()[t]
                    == stepv.1[t] by {
                    if t < assigned@.len() - 1 {
                        assert(assigned@[t] == av0[t]);
                        assert(dv0[t] == av0[t].deep_view());
                        assert(dv0[t] == prev.1[t]);
                    } else {
                        assert(assigned@[t] == k);
                    }
                }
                assert(assigned.deep_view() =~= stepv.1);
            }
        }
        proof {
            assert(mv.take(n as int) =~= mv);
        }
        self.next_version = self.next_version + 1;
        let mut results: Vec<MutationResult> = Vec::new();
        let mut j: usize = 0;
        while j < n
            invariant
                j <= n,
                n == mutations@.len(),
                mv == mutations.deep_view(),
                flags@.len() == n,
                forall|t: int| 0 <= t < n ==> flags@[t] == conflict_flag(s0.entries, mv[t]),
                assigned@.len() == n,
                assigned.deep_view() =~= spec_apply(s0, mv, version).1,
                results@.len() == j,
                forall|t: int|
                    0 <= t < j ==> results@[t]@ == (MutationResultView {
                        conflict_detected: conflict_flag(s0.entries, mv[t]),
                        key: assigned.deep_view()[t],
                    }),
            decreases n - j,
        {
            proof {
                assert(assigned.deep_view()[j as int] == assigned@[j as int].deep_view());
            }
            let key_opt: Option<Key> = match &assigned[j] {
                Some(k) => Some(k.clone()),
                None => None,
            };
            results.push(MutationResult { conflict_detected: flags[j], key: key_opt });
            j = j + 1;
        }
        proof {
            let rs = spec_commit(s0, mv).1;
            assert forall|t: int| 0 <= t < n implies results.deep_view()[t] == rs[t] by {
                assert(results@[t]@ == (MutationResultView {
                    conflict_detected: conflict_flag(s0.entries, mv[t]),
                    key: spec_apply(s0, mv, version).1[t],
                }));
            }
            assert(results.deep_view() =~= rs);
            lemma_commit_wf(s0, mv);
            lemma_versions_below_widen(s0.entries, s0.next_version, s0.next_version + 1);
            lemma_apply_wf(s0, mv, version, s0.next_version + 1);
            assert(self@ =~= spec_commit(s0, mv).0);
        }
        CommitResponse { mutation_results: Some(results) }
    }

    /// Applies one conflict-free mutation: writes or removes the addressed
    /// entity, allocating a key first when the upsert's key is incomplete.
    fn apply_one(&mut self, m: &Mutation, version: i64) -> (r: Option<Key>)
        requires
            old(self)@.next_id < i64::MAX,
        ensures
            final(self)@ == spec_apply_one(old(self)@, m@, version).0,
            r.deep_view() == spec_apply_one(old(self)@, m@, version).1,
    {
        match &m.operation {
            MutationOperation::Upsert(e) => match &e.key {
                Some(k) => {
                    if check_key_incomplete(k) {
                        let id = self.next_id;
                        self.next_id = self.next_id + 1;
                        let mut nk = k.clone();
                        let kind = nk.path[0].kind.clone();
                        nk.path[0] = PathElement { kind, name: None, id: Some(id) };
                        proof {
                            assert(nk@.path =~= k@.path.update(
                                0,
                                PathElementView { kind: k@.path[0].kind, name: None, id: Some(id) },
                            ));
                            assert(nk@ =~= spec_assign_key(k@, id));
                        }
                        let props = clone_properties(&e.properties);
                        let stored_key = nk.clone();
                        self.upsert_entry(StoredEntity { key: stored_key, properties: props, version });
                        proof {
                            assert(self@ =~= spec_apply_one(old(self)@, m@, version).0);
                        }
                        Some(nk)
                    } else {
                        let props = clone_properties(&e.properties);
                        self.upsert_entry(StoredEntity { key: k.clone(), properties: props, version });
                        proof {
                            assert(self@ =~= spec_apply_one(old(self)@, m@, version).0);
                        }
                        None
                    }
                },
                None => None,
            },
            MutationOperation::Delete(k) => {
                self.delete_entry(k);
                proof {
                    assert(self@ =~= spec_apply_one(old(self)@, m@, version).0);
                }
                None
            },
        }
    }

    /// Writes an entry directly, as if an earlier commit had stored it at the
    /// given version; the version counter advances past it. This is how a
    /// known store state is laid down without running commits.
    pub fn set_entry(&mut self, key: Key, properties: Vec<Property>, version: i64)
        requires
            old(self)@.wf(),
            !key_is_incomplete(key@),
            version < i64::MAX,
        ensures
            final(self)@.wf(),
            final(self)@.entries == spec_upsert(
                old(self)@.entries,
                StoredEntityView { key: key@, properties: properties.deep_view(), version },
            ),
            final(self)@.next_id == old(self)@.next_id,
            final(self)@.next_handle == old(self)@.next_handle,
            final(self)@.next_version == if version + 1 > old(self)@.next_version {
                version + 1
            } else {
                old(self)@.next_version
            },
    {
        let ghost s0 = self@;
        let ghost nev = StoredEntityView {
            key: key@,
            properties: properties.deep_view(),
            version,
        };
        self.upsert_entry(StoredEntity { key, properties, version });
        if self.next_version <= version {
            self.next_version = version + 1;
        }
        proof {
            lemma_upsert_unique(s0.entries, nev);
            lemma_upsert_resolved(s0.entries, nev);
            if version + 1 > s0.next_version {
                lemma_versions_below_widen(s0.entries, s0.next_version, version + 1);
                lemma_upsert_versions(s0.entries, nev, version + 1);
            } else {
                lemma_upsert_versions(s0.entries, nev, s0.next_version);
            }
        }
    }

    /// The entity stored under `key`, as a record carrying the stored
    /// identity, version and properties — what a fetch by identity returns.
    pub fn get_entity(&self, key: &Key) -> (r: Option<DatastoreEntity>)
        ensures
            match spec_lookup(self@.entries, key@) {
                Some(se) => r matches Some(e) && e@ == (DatastoreEntityView {
                    key: Some(se.key),
                    version: Some(se.version),
                    properties: se.properties,
                }),
                None => r is None,
            },
    {
        match self.find_index(key) {
            Some(i) => {
                let se = &self.entries[i];
                let e = DatastoreEntity {
                    key: Some(se.key.clone()),
                    version: Some(se.version),
                    properties: clone_properties(&se.properties),
                };
                proof {
                    assert(self@.entries[i as int] == self.entries@[i as int]@);
                    assert(e@ =~= (DatastoreEntityView {
                        key: Some(self@.entries[i as int].key),
                        version: Some(self@.entries[i as int].version),
                        properties: self@.entries[i as int].properties,
                    }));
                }
                Some(e)
            },
            None => None,
        }
    }
}

/// Writing at a first match replaces exactly that index.
proof fn lemma_upsert_at_index(entries: Seq<StoredEntityView>, ne: StoredEntityView, i: int)
    requires
        0 <= i < entries.len(),
        entries[i].key == ne.key,
        forall|j: int| 0 <= j < i ==> entries[j].key != ne.key,
    ensures
        spec_upsert(entries, ne) =~= entries.update(i, ne),
    decreases i,
{
    if i == 0 {
        assert(spec_upsert(entries, ne) =~= entries.update(0, ne));
    } else {
        lemma_upsert_at_index(entries.drop_first(), ne, i - 1);
        assert(spec_upsert(entries, ne) == seq![entries[0]] + spec_upsert(
            entries.drop_first(),
            ne,
        ));
        assert(seq![entries[0]] + entries.drop_first().update(i - 1, ne) =~= entries.update(i, ne));
    }
}

/// Writing an absent key appends.
proof fn lemma_upsert_append(entries: Seq<StoredEntityView>, ne: StoredEntityView)
    requires
        spec_lookup(entries, ne.key) is None,
    ensures
        spec_upsert(entries, ne) =~= entries.push(ne),
    decreases entries.len(),
{
    if entries.len() == 0 {
        assert(spec_upsert(entries, ne) =~= entries.push(ne));
    } else {
        assert(entries[0].key != ne.key);
        lemma_upsert_append(entries.drop_first(), ne);
        assert(spec_upsert(entries, ne) == seq![entries[0]] + spec_upsert(
            entries.drop_first(),
            ne,
        ));
        assert(seq![entries[0]] + entries.drop_first().push(ne) =~= entries.push(ne));
    }
}

/// Removing at a first match removes exactly that index.
proof fn lemma_remove_at_index(entries: Seq<StoredEntityView>, k: KeyView, i: int)
    requires
        0 <= i < entries.len(),
        entries[i].key == k,
        forall|j: int| 0 <= j < i ==> entries[j].key != k,
    ensures
        spec_remove(entries, k) =~= entries.remove(i),
    decreases i,
{
    if i == 0 {
        assert(spec_remove(entries, k) =~= entries.remove(0));
    } else {
        lemma_remove_at_index(entries.drop_first(), k, i - 1);
        assert(spec_remove(entries, k) == seq![entries[0]] + spec_remove(entries.drop_first(), k));
        assert(seq![entries[0]] + entries.drop_first().remove(i - 1) =~= entries.remove(i));
    }
}

/// Removing an absent key changes nothing.
proof fn lemma_remove_absent(entries: Seq<StoredEntityView>, k: KeyView)
    requires
        spec_lookup(entries, k) is None,
    ensures
        spec_remove(entries, k) =~= entries,
    decreases entries.len(),
{
    if entries.len() == 0 {
    } else {
        assert(entries[0].key != k);
        lemma_remove_absent(entries.drop_first(), k);
        assert(spec_remove(entries, k) == seq![entries[0]] + spec_remove(entries.drop_first(), k));
        assert(seq![entries[0]] + entries.drop_first() =~= entries);
    }
}

} // verus!
