//! The file index: the durable record store mapping path to file entry.
//! It owns entry records, assigns ids, detects duplicates by fingerprint
//! and is the sole writer of `duplicate_of`.

use vstd::prelude::*;
use vstd::pervasive::VecAdditionalExecFns;
use crate::models::{EntryModel, FileEntry, ScannedFile, ScannedModel};
use crate::text::{seq_has_str, str_eq, vec_contains_str};

verus! {

/// Outcome of recording a fingerprint: either the entry is the canonical
/// copy of its content, or it duplicates the named earlier entry.
#[derive(Clone, Copy, PartialEq, Eq, Structural, Debug)]
pub enum DedupOutcome {
    Original,
    Duplicate(u64),
}

/// Errors of the file index.
#[derive(Clone, Copy, PartialEq, Eq, Structural, Debug)]
pub enum IndexError {
    /// No entry carries the given id.
    NotFound,
}

/// Spec-level image of the whole index.
#[verifier::ext_equal]
pub struct IndexModel {
    pub entries: Seq<EntryModel>,
    pub next_id: u64,
}

/// Whether some entry of `m` has the path `p`.
pub open spec fn has_path(m: IndexModel, p: Seq<char>) -> bool {
    exists|i: int| 0 <= i < m.entries.len() && m.entries[i].path == p
}

/// The index of the entry of `m` with path `p` (unique under `model_wf`).
pub open spec fn path_index(m: IndexModel, p: Seq<char>) -> int {
    choose|i: int| 0 <= i < m.entries.len() && m.entries[i].path == p
}

/// Whether some entry of `m` has the id `id`.
pub open spec fn has_id(m: IndexModel, id: u64) -> bool {
    exists|i: int| 0 <= i < m.entries.len() && m.entries[i].id == id
}

/// The index of the entry of `m` with id `id` (unique under `model_wf`).
pub open spec fn id_index(m: IndexModel, id: u64) -> int {
    choose|i: int| 0 <= i < m.entries.len() && m.entries[i].id == id
}

/// Whether entry `j` of `m` is an eligible canonical target for an entry
/// with id `self_id` recording fingerprint `fp`: another entry that
/// already carries the same fingerprint and is itself no duplicate.
pub open spec fn is_candidate(m: IndexModel, fp: Seq<char>, self_id: u64, j: int) -> bool {
    &&& 0 <= j < m.entries.len()
    &&& m.entries[j].id != self_id
    &&& m.entries[j].content_hash == Option::Some(fp)
    &&& m.entries[j].duplicate_of is None
}

pub open spec fn has_candidate(m: IndexModel, fp: Seq<char>, self_id: u64) -> bool {
    exists|j: int| is_candidate(m, fp, self_id, j)
}

/// An eligible canonical target whose id is least ("first seen wins").
pub open spec fn min_candidate_idx(m: IndexModel, fp: Seq<char>, self_id: u64) -> int {
    choose|j: int|
        #[trigger] is_candidate(m, fp, self_id, j) && (forall|k: int|
            #[trigger] is_candidate(m, fp, self_id, k) ==> m.entries[j].id <= m.entries[k].id)
}

/// The least id among eligible canonical targets.
pub open spec fn min_candidate_id(m: IndexModel, fp: Seq<char>, self_id: u64) -> u64 {
    m.entries[min_candidate_idx(m, fp, self_id)].id
}

/// Entries `i` of `m1` and `m2` agree on id, path and duplicate link.
pub open spec fn same_identity(m1: IndexModel, m2: IndexModel, i: int) -> bool {
    &&& m2.entries[i].id == m1.entries[i].id
    &&& m2.entries[i].path == m1.entries[i].path
    &&& m2.entries[i].duplicate_of == m1.entries[i].duplicate_of
}

/// A change that touches no id, no path and no duplicate link keeps the
/// index well-formed.
proof fn lemma_wf_same_links(m1: IndexModel, m2: IndexModel)
    requires
        model_wf(m1),
        m2.next_id == m1.next_id,
        m2.entries.len() == m1.entries.len(),
        forall|i: int| 0 <= i < m1.entries.len() ==> #[trigger] same_identity(m1, m2, i),
    ensures
        model_wf(m2),
{
    assert forall|i: int| 0 <= i < m2.entries.len() implies m2.entries[i].id < m2.next_id by {
        assert(same_identity(m1, m2, i));
    }
    assert forall|i: int, j: int|
        0 <= i < j < m2.entries.len() implies m2.entries[i].id != m2.entries[j].id by {
        assert(same_identity(m1, m2, i));
        assert(same_identity(m1, m2, j));
    }
    assert forall|i: int, j: int|
        0 <= i < j < m2.entries.len() implies m2.entries[i].path != m2.entries[j].path by {
        assert(same_identity(m1, m2, i));
        assert(same_identity(m1, m2, j));
    }
    assert forall|i: int| 0 <= i < m2.entries.len() implies #[trigger] dup_ok(m2, i) by {
        assert(same_identity(m1, m2, i));
        assert(dup_ok(m1, i));
        match m1.entries[i].duplicate_of {
            Option::Some(d) => {
                let j = choose|j: int|
                    0 <= j < m1.entries.len() && m1.entries[j].id == d
                        && m1.entries[j].duplicate_of is None;
                assert(same_identity(m1, m2, j));
                assert(m2.entries[j].id == d && m2.entries[j].duplicate_of is None);
            },
            Option::None => {},
        }
    }
}

/// Among the candidates below index `n` there is one of least id.
#[verifier::rlimit(100)]
proof fn lemma_min_over_prefix(m: IndexModel, fp: Seq<char>, self_id: u64, n: int)
    requires
        exists|j: int| #[trigger] is_candidate(m, fp, self_id, j) && j < n,
    ensures
        exists|j: int|
            #[trigger] is_candidate(m, fp, self_id, j) && j < n && (forall|k: int|
                #[trigger] is_candidate(m, fp, self_id, k) && k < n ==> m.entries[j].id
                    <= m.entries[k].id),
    decreases n,
{
    let jw = choose|j: int| #[trigger] is_candidate(m, fp, self_id, j) && j < n;
    if is_candidate(m, fp, self_id, n - 1) {
        if exists|j: int| #[trigger] is_candidate(m, fp, self_id, j) && j < n - 1 {
            lemma_min_over_prefix(m, fp, self_id, n - 1);
            let jm = choose|j: int|
                #[trigger] is_candidate(m, fp, self_id, j) && j < n - 1 && (forall|k: int|
                    #[trigger] is_candidate(m, fp, self_id, k) && k < n - 1 ==> m.entries[j].id
                        <= m.entries[k].id);
            if m.entries[jm].id <= m.entries[n - 1].id {
                assert(is_candidate(m, fp, self_id, jm) && jm < n && (forall|k: int|
                    #[trigger] is_candidate(m, fp, self_id, k) && k < n ==> m.entries[jm].id
                        <= m.entries[k].id));
            } else {
                assert(is_candidate(m, fp, self_id, n - 1) && n - 1 < n && (forall|k: int|
                    #[trigger] is_candidate(m, fp, self_id, k) && k < n ==> m.entries[n - 1].id
                        <= m.entries[k].id));
            }
        } else {
            assert(is_candidate(m, fp, self_id, n - 1) && n - 1 < n && (forall|k: int|
                #[trigger] is_candidate(m, fp, self_id, k) && k < n ==> m.entries[n - 1].id
                    <= m.entries[k].id));
        }
    } else {
        assert(jw < n - 1);
        lemma_min_over_prefix(m, fp, self_id, n - 1);
        let jm = choose|j: int|
            #[trigger] is_candidate(m, fp, self_id, j) && j < n - 1 && (forall|k: int|
                #[trigger] is_candidate(m, fp, self_id, k) && k < n - 1 ==> m.entries[j].id
                    <= m.entries[k].id);
        assert(is_candidate(m, fp, self_id, jm) && jm < n && (forall|k: int|
            #[trigger] is_candidate(m, fp, self_id, k) && k < n ==> m.entries[jm].id
                <= m.entries[k].id));
    }
}

/// When a candidate exists, `min_candidate_idx` names a candidate whose id
/// is least among all candidates.
proof fn lemma_min_candidate(m: IndexModel, fp: Seq<char>, self_id: u64)
    requires
        has_candidate(m, fp, self_id),
    ensures
        is_candidate(m, fp, self_id, min_candidate_idx(m, fp, self_id)),
        forall|k: int|
            #[trigger] is_candidate(m, fp, self_id, k) ==> min_candidate_id(m, fp, self_id)
                <= m.entries[k].id,
{
    let n = m.entries.len() as int;
    let jw = choose|j: int| is_candidate(m, fp, self_id, j);
    assert(is_candidate(m, fp, self_id, jw) && jw < n);
    lemma_min_over_prefix(m, fp, self_id, n);
    let j0 = choose|j: int|
        #[trigger] is_candidate(m, fp, self_id, j) && j < n && (forall|k: int|
            #[trigger] is_candidate(m, fp, self_id, k) && k < n ==> m.entries[j].id
                <= m.entries[k].id);
    assert(is_candidate(m, fp, self_id, j0) && (forall|k: int|
        #[trigger] is_candidate(m, fp, self_id, k) ==> m.entries[j0].id <= m.entries[k].id));
    let jm = min_candidate_idx(m, fp, self_id);
    assert(is_candidate(m, fp, self_id, jm) && (forall|k: int|
        #[trigger] is_candidate(m, fp, self_id, k) ==> m.entries[jm].id <= m.entries[k].id));
}

/// Whether some entry of `m` names `id` as the original it duplicates.
pub open spec fn referenced(m: IndexModel, id: u64) -> bool {
    exists|k: int| 0 <= k < m.entries.len() && m.entries[k].duplicate_of == Option::Some(id)
}

/// Whether recording `fp` on the entry with id `id` links it to an earlier
/// canonical entry: an eligible target with a smaller id exists, and no
/// other entry already points at this one (linking then would form a
/// chain).
pub open spec fn record_links(m: IndexModel, id: u64, fp: Seq<char>) -> bool {
    &&& has_candidate(m, fp, id)
    &&& min_candidate_id(m, fp, id) < id
    &&& !referenced(m, id)
}

/// The index after `record_fingerprint(id, fp)`.
pub open spec fn record_model(m: IndexModel, id: u64, fp: Seq<char>) -> IndexModel {
    if !has_id(m, id) {
        m
    } else {
        let i = id_index(m, id);
        let e = m.entries[i];
        IndexModel {
            entries: m.entries.update(
                i,
                EntryModel {
                    content_hash: Option::Some(fp),
                    duplicate_of: if record_links(m, id, fp) {
                        Option::Some(min_candidate_id(m, fp, id))
                    } else {
                        e.duplicate_of
                    },
                    ..e
                },
            ),
            ..m
        }
    }
}

/// The outcome `record_fingerprint(id, fp)` reports.
pub open spec fn record_outcome(m: IndexModel, id: u64, fp: Seq<char>) -> Result<
    DedupOutcome,
    IndexError,
> {
    if !has_id(m, id) {
        Result::Err(IndexError::NotFound)
    } else if record_links(m, id, fp) {
        Result::Ok(DedupOutcome::Duplicate(min_candidate_id(m, fp, id)))
    } else {
        Result::Ok(DedupOutcome::Original)
    }
}

/// The index after `upsert` of the scanned record `f`: an existing entry
/// with the same path keeps its identity and gets its mutable metadata
/// refreshed (size, modified-at, and it is revived if it was marked
/// removed); an unseen path gets a fresh entry under the next id.
pub open spec fn upsert_model(m: IndexModel, f: ScannedModel) -> IndexModel {
    if has_path(m, f.path) {
        let i = path_index(m, f.path);
        IndexModel {
            entries: m.entries.update(
                i,
                EntryModel {
                    file_size: f.file_size,
                    modified_at: f.modified_at,
                    removed: false,
                    ..m.entries[i]
                },
            ),
            ..m
        }
    } else {
        IndexModel {
            entries: m.entries.push(
                EntryModel {
                    id: m.next_id,
                    path: f.path,
                    file_name: f.file_name,
                    file_extension: f.file_extension,
                    file_type: f.file_type,
                    content_hash: Option::None,
                    file_size: f.file_size,
                    duration_ms: Option::None,
                    created_at: f.created_at,
                    modified_at: f.modified_at,
                    indexed_at: Option::None,
                    duplicate_of: Option::None,
                    removed: false,
                },
            ),
            next_id: (m.next_id + 1) as u64,
        }
    }
}

/// The id `upsert` of `f` returns: the existing entry's id, or the id the
/// fresh entry was given.
pub open spec fn upsert_id(m: IndexModel, f: ScannedModel) -> u64 {
    if has_path(m, f.path) {
        m.entries[path_index(m, f.path)].id
    } else {
        m.next_id
    }
}

/// The index after reconciliation: every entry whose path the previous
/// scan knew but the new scan did not observe is marked removed; nothing
/// is deleted and nothing else changes.
pub open spec fn reconcile_model(
    m: IndexModel,
    known: Seq<String>,
    observed: Seq<String>,
) -> IndexModel {
    IndexModel {
        entries: Seq::new(
            m.entries.len(),
            |i: int|
                EntryModel {
                    removed: m.entries[i].removed || (seq_has_str(known, m.entries[i].path)
                        && !seq_has_str(observed, m.entries[i].path)),
                    ..m.entries[i]
                },
        ),
        ..m
    }
}

/// Whether a scan of `f` must (re-)hash the file: its entry is new, still
/// unhashed, or its recorded size or modified-at changed.
pub open spec fn needs_hash(m: IndexModel, f: ScannedModel) -> bool {
    if has_path(m, f.path) {
        let e = m.entries[path_index(m, f.path)];
        e.content_hash is None || e.file_size != f.file_size || e.modified_at != f.modified_at
    } else {
        true
    }
}

/// At most one entry per fingerprint is canonical (has `duplicate_of`
/// unset).
pub open spec fn single_canonical(m: IndexModel) -> bool {
    forall|i: int, j: int|
        0 <= i < j < m.entries.len() && (#[trigger] m.entries[i]).content_hash is Some
            && m.entries[i].content_hash == (#[trigger] m.entries[j]).content_hash ==> !(
        m.entries[i].duplicate_of is None && m.entries[j].duplicate_of is None)
}

/// The durable file index.
pub struct FileIndex {
    pub entries: Vec<FileEntry>,
    pub next_id: u64,
}

impl View for FileIndex {
    type V = IndexModel;

    open spec fn view(&self) -> IndexModel {
        IndexModel {
            entries: self.entries@.map_values(|e: FileEntry| e@),
            next_id: self.next_id,
        }
    }
}

/// Well-formedness of the index: ids are unique and below the id counter,
/// paths are unique, and a set `duplicate_of` names an existing entry that
/// itself is no duplicate (no duplicate chains).
pub open spec fn model_wf(m: IndexModel) -> bool {
    &&& forall|i: int| 0 <= i < m.entries.len() ==> m.entries[i].id < m.next_id
    &&& forall|i: int, j: int|
        0 <= i < j < m.entries.len() ==> m.entries[i].id != m.entries[j].id
    &&& forall|i: int, j: int|
        0 <= i < j < m.entries.len() ==> m.entries[i].path != m.entries[j].path
    &&& forall|i: int| 0 <= i < m.entries.len() ==> #[trigger] dup_ok(m, i)
}

/// Entry `i` is either no duplicate, or points at an existing entry that
/// itself is no duplicate.
pub open spec fn dup_ok(m: IndexModel, i: int) -> bool {
    match m.entries[i].duplicate_of {
        Option::Some(d) => {
            &&& d != m.entries[i].id
            &&& exists|j: int|
                0 <= j < m.entries.len() && m.entries[j].id == d && m.entries[j].duplicate_of
                    is None
        },
        Option::None => true,
    }
}

impl FileIndex {
    pub open spec fn wf(&self) -> bool {
        model_wf(self@)
    }

    /// An empty index.
    pub fn new() -> (r: FileIndex)
        ensures
            r@.entries.len() == 0,
            r@.next_id == 0,
            r.wf(),
    {
        let r = FileIndex { entries: Vec::new(), next_id: 0 };
        assert(r@.entries =~= Seq::<EntryModel>::empty());
        r
    }

    /// Index of the entry with path `path`, if any.
    fn find_path_idx(&self, path: &str) -> (r: Option<usize>)
        ensures
            match r {
                Option::Some(i) => i < self@.entries.len() && self@.entries[i as int].path
                    == path@,
                Option::None => !has_path(self@, path@),
            },
    {
        let mut i: usize = 0;
        while i < self.entries.len()
            invariant
                0 <= i <= self.entries@.len(),
                self@.entries.len() == self.entries@.len(),
                forall|k: int| 0 <= k < i ==> self@.entries[k].path != path@,
            decreases self.entries@.len() - i,
        {
            if str_eq(self.entries[i].path.as_str(), path) {
                return Option::Some(i);
            }
            i += 1;
        }
        Option::None
    }

    /// Index of the entry with id `id`, if any.
    fn find_id_idx(&self, id: u64) -> (r: Option<usize>)
        ensures
            match r {
                Option::Some(i) => i < self@.entries.len() && self@.entries[i as int].id == id,
                Option::None => !has_id(self@, id),
            },
    {
        let mut i: usize = 0;
        while i < self.entries.len()
            invariant
                0 <= i <= self.entries@.len(),
                self@.entries.len() == self.entries@.len(),
                forall|k: int| 0 <= k < i ==> self@.entries[k].id != id,
            decreases self.entries@.len() - i,
        {
            if self.entries[i].id == id {
                return Option::Some(i);
            }
            i += 1;
        }
        Option::None
    }

    /// The entry with id `id`, if any.
    pub fn get(&self, id: u64) -> (r: Option<&FileEntry>)
        requires
            self.wf(),
        ensures
            match r {
                Option::Some(e) => has_id(self@, id) && e@ == self@.entries[id_index(self@, id)],
                Option::None => !has_id(self@, id),
            },
    {
        match self.find_id_idx(id) {
            Option::Some(i) => {
                let e = &self.entries[i];
                proof {
                    let j = id_index(self@, id);
                    assert(0 <= j < self@.entries.len() && self@.entries[j].id == id);
                    assert(j == i);
                }
                Option::Some(e)
            },
            Option::None => Option::None,
        }
    }

    /// Whether ingesting `f` must (re-)hash the file: no entry for its
    /// path yet, no fingerprint recorded, or size or modified-at changed.
    pub fn hash_needed(&self, f: &ScannedFile) -> (r: bool)
        requires
            self.wf(),
        ensures
            r == needs_hash(self@, f@),
    {
        match self.find_path_idx(f.path.as_str()) {
            Option::Some(i) => {
                proof {
                    let j = path_index(self@, f@.path);
                    assert(0 <= j < self@.entries.len() && self@.entries[j].path == f@.path);
                    assert(j == i);
                }
                let e = &self.entries[i];
                e.content_hash.is_none() || e.file_size != f.file_size || !str_eq(
                    e.modified_at.as_str(),
                    f.modified_at.as_str(),
                )
            },
            Option::None => true,
        }
    }

    /// Insert or refresh the entry for one scanned file and return its id.
    pub fn upsert(&mut self, f: &ScannedFile) -> (id: u64)
        requires
            old(self).wf(),
            old(self).next_id < u64::MAX,
        ensures
            final(self)@ == upsert_model(old(self)@, f@),
            id == upsert_id(old(self)@, f@),
            final(self).wf(),
            has_id(final(self)@, id),
    {
        let ghost m0 = self@;
        match self.find_path_idx(f.path.as_str()) {
            Option::Some(i) => {
                proof {
                    let j = path_index(m0, f@.path);
                    assert(0 <= j < m0.entries.len() && m0.entries[j].path == f@.path);
                    assert(j == i);
                }
                let e = &self.entries[i];
                let id = e.id;
                let updated = FileEntry {
                    id: e.id,
                    path: e.path.clone(),
                    file_name: e.file_name.clone(),
                    file_extension: e.file_extension.clone(),
                    file_type: e.file_type,
                    content_hash: match &e.content_hash {
                        Option::Some(h) => Option::Some(h.clone()),
                        Option::None => Option::None,
                    },
                    file_size: f.file_size,
                    duration_ms: e.duration_ms,
                    created_at: e.created_at.clone(),
                    modified_at: f.modified_at.clone(),
                    indexed_at: match &e.indexed_at {
                        Option::Some(t) => Option::Some(t.clone()),
                        Option::None => Option::None,
                    },
                    duplicate_of: e.duplicate_of,
                    removed: false,
                };
                self.entries.set(i, updated);
                proof {
                    assert(self@.entries =~= upsert_model(m0, f@).entries);
                    assert(self@ =~= upsert_model(m0, f@));
                    assert(id == upsert_id(m0, f@));
                    lemma_upsert_wf(m0, f@);
                }
                id
            },
            Option::None => {
                let id = self.next_id;
                let entry = FileEntry {
                    id,
                    path: f.path.clone(),
                    file_name: f.file_name.clone(),
                    file_extension: f.file_extension.clone(),
                    file_type: f.file_type,
                    content_hash: Option::None,
                    file_size: f.file_size,
                    duration_ms: Option::None,
                    created_at: f.created_at.clone(),
                    modified_at: f.modified_at.clone(),
                    indexed_at: Option::None,
                    duplicate_of: Option::None,
                    removed: false,
                };
                self.entries.push(entry);
                self.next_id = self.next_id + 1;
                proof {
                    assert(self@.entries =~= upsert_model(m0, f@).entries);
                    assert(self@ =~= upsert_model(m0, f@));
                    assert(id == upsert_id(m0, f@));
                    lemma_upsert_wf(m0, f@);
                }
                id
            },
        }
    }

    /// Store the fingerprint of the entry with id `id` and resolve
    /// deduplication: when another entry already carries the same
    /// fingerprint, is itself no duplicate, and was seen first (smaller
    /// id), this entry is linked to it; otherwise this entry stays
    /// canonical. Linking is skipped when other entries already point at
    /// this one, so that no duplicate chain can form.
    pub fn record_fingerprint(&mut self, id: u64, fingerprint: &str) -> (r: Result<
        DedupOutcome,
        IndexError,
    >)
        requires
            old(self).wf(),
        ensures
            final(self)@ == record_model(old(self)@, id, fingerprint@),
            r == record_outcome(old(self)@, id, fingerprint@),
            final(self).wf(),
    {
        let ghost m0 = self@;
        let idx = match self.find_id_idx(id) {
            Option::Some(i) => i,
            Option::None => {
                return Result::Err(IndexError::NotFound);
            },
        };
        proof {
            let j = id_index(m0, id);
            assert(0 <= j < m0.entries.len() && m0.entries[j].id == id);
            assert(j == idx);
        }
        // Least id among eligible canonical targets, if any.
        let mut best: Option<u64> = Option::None;
        let ghost mut best_j: int = 0;
        let mut k: usize = 0;
        while k < self.entries.len()
            invariant
                0 <= k <= self.entries@.len(),
                self@ == m0,
                self@.entries.len() == self.entries@.len(),
                match best {
                    Option::Some(b) => {
                        &&& is_candidate(m0, fingerprint@, id, best_j)
                        &&& best_j < k
                        &&& m0.entries[best_j].id == b
                        &&& forall|j: int|
                            #[trigger] is_candidate(m0, fingerprint@, id, j) && j < k ==> b
                                <= m0.entries[j].id
                    },
                    Option::None => forall|j: int|
                        0 <= j < k ==> !#[trigger] is_candidate(m0, fingerprint@, id, j),
                },
            decreases self.entries@.len() - k,
        {
            let e = &self.entries[k];
            let is_cand = e.id != id && e.duplicate_of.is_none() && match &e.content_hash {
                Option::Some(h) => str_eq(h.as_str(), fingerprint),
                Option::None => false,
            };
            proof {
                if is_cand {
                    assert(is_candidate(m0, fingerprint@, id, k as int));
                } else {
                    assert(!is_candidate(m0, fingerprint@, id, k as int));
                }
            }
            if is_cand {
                match best {
                    Option::Some(b) => {
                        if e.id < b {
                            best = Option::Some(e.id);
                            proof {
                                best_j = k as int;
                            }
                        }
                    },
                    Option::None => {
                        best = Option::Some(e.id);
                        proof {
                            best_j = k as int;
                        }
                    },
                }
            }
            k += 1;
        }
        // Is any entry already pointing at this one?
        let mut is_target = false;
        let ghost mut tgt_j: int = 0;
        let mut k2: usize = 0;
        while k2 < self.entries.len()
            invariant
                0 <= k2 <= self.entries@.len(),
                self@ == m0,
                self@.entries.len() == self.entries@.len(),
                is_target ==> 0 <= tgt_j < k2 && m0.entries[tgt_j].duplicate_of == Option::Some(
                    id,
                ),
                !is_target ==> forall|j: int|
                    0 <= j < k2 ==> (#[trigger] m0.entries[j]).duplicate_of != Option::Some(id),
            decreases self.entries@.len() - k2,
        {
            match self.entries[k2].duplicate_of {
                Option::Some(d) => if d == id {
                    is_target = true;
                    proof {
                        tgt_j = k2 as int;
                    }
                },
                Option::None => {},
            }
            k2 += 1;
        }
        proof {
            if is_target {
                assert(referenced(m0, id));
            } else {
                assert(!referenced(m0, id));
            }
            match best {
                Option::Some(b) => {
                    assert(is_candidate(m0, fingerprint@, id, best_j));
                    assert(has_candidate(m0, fingerprint@, id));
                    lemma_min_candidate(m0, fingerprint@, id);
                    let jm = min_candidate_idx(m0, fingerprint@, id);
                    assert(m0.entries[jm].id <= b && b <= m0.entries[jm].id);
                    assert(b == min_candidate_id(m0, fingerprint@, id));
                },
                Option::None => {
                    assert(!has_candidate(m0, fingerprint@, id));
                },
            }
        }
        let links = match best {
            Option::Some(b) => b < id && !is_target,
            Option::None => false,
        };
        proof {
            assert(links == record_links(m0, id, fingerprint@));
        }
        let e = &self.entries[idx];
        let updated = FileEntry {
            id: e.id,
            path: e.path.clone(),
            file_name: e.file_name.clone(),
            file_extension: e.file_extension.clone(),
            file_type: e.file_type,
            content_hash: Option::Some(fingerprint.to_owned()),
            file_size: e.file_size,
            duration_ms: e.duration_ms,
            created_at: e.created_at.clone(),
            modified_at: e.modified_at.clone(),
            indexed_at: match &e.indexed_at {
                Option::Some(t) => Option::Some(t.clone()),
                Option::None => Option::None,
            },
            duplicate_of: if links {
                match best {
                    Option::Some(b) => Option::Some(b),
                    Option::None => e.duplicate_of,
                }
            } else {
                e.duplicate_of
            },
            removed: e.removed,
        };
        let outcome = if links {
            match best {
                Option::Some(b) => DedupOutcome::Duplicate(b),
                Option::None => DedupOutcome::Original,
            }
        } else {
            DedupOutcome::Original
        };
        self.entries.set(idx, updated);
        proof {
            assert(self@.entries =~= record_model(m0, id, fingerprint@).entries);
            assert(self@ =~= record_model(m0, id, fingerprint@));
            assert_wf_after_record(m0, id, fingerprint@);
        }
        Result::Ok(outcome)
    }

    /// Mark every entry whose path `known` holds but `observed` does not
    /// as removed. Entries are never deleted here; their tags and
    /// fingerprints survive a file's absence.
    pub fn reconcile_missing(&mut self, known: &Vec<String>, observed: &Vec<String>)
        requires
            old(self).wf(),
        ensures
            final(self)@ == reconcile_model(old(self)@, known@, observed@),
            final(self).wf(),
    {
        let ghost m0 = self@;
        let mut i: usize = 0;
        while i < self.entries.len()
            invariant
                0 <= i <= self.entries@.len(),
                self.entries@.len() == m0.entries.len(),
                self.next_id == m0.next_id,
                forall|k: int|
                    0 <= k < i ==> self@.entries[k] == reconcile_model(m0, known@, observed@)
                        .entries[k],
                forall|k: int| i <= k < m0.entries.len() ==> self@.entries[k] == m0.entries[k],
            decreases self.entries@.len() - i,
        {
            let ghost pre = self@;
            let in_known = vec_contains_str(known, self.entries[i].path.as_str());
            let in_observed = vec_contains_str(observed, self.entries[i].path.as_str());
            if in_known && !in_observed {
                let e = &self.entries[i];
                let updated = FileEntry {
                    id: e.id,
                    path: e.path.clone(),
                    file_name: e.file_name.clone(),
                    file_extension: e.file_extension.clone(),
                    file_type: e.file_type,
                    content_hash: match &e.content_hash {
                        Option::Some(h) => Option::Some(h.clone()),
                        Option::None => Option::None,
                    },
                    file_size: e.file_size,
                    duration_ms: e.duration_ms,
                    created_at: e.created_at.clone(),
                    modified_at: e.modified_at.clone(),
                    indexed_at: match &e.indexed_at {
                        Option::Some(t) => Option::Some(t.clone()),
                        Option::None => Option::None,
                    },
                    duplicate_of: e.duplicate_of,
                    removed: true,
                };
                self.entries.set(i, updated);
            }
            proof {
                let me = reconcile_model(m0, known@, observed@);
                assert(me.entries[i as int] == EntryModel {
                    removed: m0.entries[i as int].removed || (seq_has_str(
                        known@,
                        m0.entries[i as int].path,
                    ) && !seq_has_str(observed@, m0.entries[i as int].path)),
                    ..m0.entries[i as int]
                });
                assert(self@.entries[i as int] == me.entries[i as int]);
                assert forall|k: int|
                    0 <= k < i + 1 implies self@.entries[k] == me.entries[k] by {
                    if k < i as int {
                        assert(self@.entries[k] == pre.entries[k]);
                        assert(pre.entries[k] == me.entries[k]);
                    }
                }
            }
            i += 1;
        }
        proof {
            assert(self@.entries =~= reconcile_model(m0, known@, observed@).entries);
            assert(self@ =~= reconcile_model(m0, known@, observed@));
            assert forall|a: int|
                0 <= a < m0.entries.len() implies #[trigger] same_identity(m0, self@, a) by {}
            lemma_wf_same_links(m0, self@);
        }
    }

    /// Record the media duration a completed task derived for a file.
    pub fn set_duration(&mut self, id: u64, duration_ms: u64) -> (found: bool)
        requires
            old(self).wf(),
        ensures
            found == has_id(old(self)@, id),
            final(self)@ == if has_id(old(self)@, id) {
                IndexModel {
                    entries: old(self)@.entries.update(
                        id_index(old(self)@, id),
                        EntryModel {
                            duration_ms: Option::Some(duration_ms),
                            ..old(self)@.entries[id_index(old(self)@, id)]
                        },
                    ),
                    ..old(self)@
                }
            } else {
                old(self)@
            },
            final(self).wf(),
    {
        let ghost m0 = self@;
        match self.find_id_idx(id) {
            Option::Some(i) => {
                proof {
                    let j = id_index(m0, id);
                    assert(0 <= j < m0.entries.len() && m0.entries[j].id == id);
                    assert(j == i);
                }
                let e = &self.entries[i];
                let updated = FileEntry {
                    id: e.id,
                    path: e.path.clone(),
                    file_name: e.file_name.clone(),
                    file_extension: e.file_extension.clone(),
                    file_type: e.file_type,
                    content_hash: match &e.content_hash {
                        Option::Some(h) => Option::Some(h.clone()),
                        Option::None => Option::None,
                    },
                    file_size: e.file_size,
                    duration_ms: Option::Some(duration_ms),
                    created_at: e.created_at.clone(),
                    modified_at: e.modified_at.clone(),
                    indexed_at: match &e.indexed_at {
                        Option::Some(t) => Option::Some(t.clone()),
                        Option::None => Option::None,
                    },
                    duplicate_of: e.duplicate_of,
                    removed: e.removed,
                };
                self.entries.set(i, updated);
                proof {
                    let expected = IndexModel {
                        entries: m0.entries.update(
                            id_index(m0, id),
                            EntryModel {
                                duration_ms: Option::Some(duration_ms),
                                ..m0.entries[id_index(m0, id)]
                            },
                        ),
                        ..m0
                    };
                    assert(self@.entries =~= expected.entries);
                    assert(self@ =~= expected);
                    assert forall|a: int|
                        0 <= a < m0.entries.len() implies #[trigger] same_identity(
                        m0,
                        self@,
                        a,
                    ) by {}
                    lemma_wf_same_links(m0, self@);
                }
                true
            },
            Option::None => false,
        }
    }

    /// Record the moment a file finished full processing.
    pub fn mark_indexed(&mut self, id: u64, indexed_at: &str) -> (found: bool)
        requires
            old(self).wf(),
        ensures
            found == has_id(old(self)@, id),
            final(self)@ == if has_id(old(self)@, id) {
                IndexModel {
                    entries: old(self)@.entries.update(
                        id_index(old(self)@, id),
                        EntryModel {
                            indexed_at: Option::Some(indexed_at@),
                            ..old(self)@.entries[id_index(old(self)@, id)]
                        },
                    ),
                    ..old(self)@
                }
            } else {
                old(self)@
            },
            final(self).wf(),
    {
        let ghost m0 = self@;
        match self.find_id_idx(id) {
            Option::Some(i) => {
                proof {
                    let j = id_index(m0, id);
                    assert(0 <= j < m0.entries.len() && m0.entries[j].id == id);
                    assert(j == i);
                }
                let e = &self.entries[i];
                let updated = FileEntry {
                    id: e.id,
                    path: e.path.clone(),
                    file_name: e.file_name.clone(),
                    file_extension: e.file_extension.clone(),
                    file_type: e.file_type,
                    content_hash: match &e.content_hash {
                        Option::Some(h) => Option::Some(h.clone()),
                        Option::None => Option::None,
                    },
                    file_size: e.file_size,
                    duration_ms: e.duration_ms,
                    created_at: e.created_at.clone(),
                    modified_at: e.modified_at.clone(),
                    indexed_at: Option::Some(indexed_at.to_owned()),
                    duplicate_of: e.duplicate_of,
                    removed: e.removed,
                };
                self.entries.set(i, updated);
                proof {
                    let expected = IndexModel {
                        entries: m0.entries.update(
                            id_index(m0, id),
                            EntryModel {
                                indexed_at: Option::Some(indexed_at@),
                                ..m0.entries[id_index(m0, id)]
                            },
                        ),
                        ..m0
                    };
                    assert(self@.entries =~= expected.entries);
                    assert(self@ =~= expected);
                    assert forall|a: int|
                        0 <= a < m0.entries.len() implies #[trigger] same_identity(
                        m0,
                        self@,
                        a,
                    ) by {}
                    lemma_wf_same_links(m0, self@);
                }
                true
            },
            Option::None => false,
        }
    }
}

/// Upserting a scanned record keeps the index well-formed, and the
/// returned id names an entry with the scanned path.
pub proof fn lemma_upsert_wf(m: IndexModel, f: ScannedModel)
    requires
        model_wf(m),
        m.next_id < u64::MAX,
    ensures
        model_wf(upsert_model(m, f)),
        has_path(upsert_model(m, f), f.path),
        has_id(upsert_model(m, f), upsert_id(m, f)),
{
    let m1 = upsert_model(m, f);
    if has_path(m, f.path) {
        let i = path_index(m, f.path);
        assert(0 <= i < m.entries.len() && m.entries[i].path == f.path);
        assert forall|a: int|
            0 <= a < m.entries.len() implies #[trigger] same_identity(m, m1, a) by {}
        lemma_wf_same_links(m, m1);
        assert(m1.entries[i].path == f.path);
        assert(m1.entries[i].id == upsert_id(m, f));
    } else {
        let n = m.entries.len() as int;
        assert(m1.entries[n].id == upsert_id(m, f));
        assert(m1.entries[n].path == f.path);
        assert forall|a: int| 0 <= a < m1.entries.len() implies m1.entries[a].id
            < m1.next_id by {
            if a < n {
                assert(m1.entries[a] == m.entries[a]);
            }
        }
        assert forall|a: int, b: int|
            0 <= a < b < m1.entries.len() implies m1.entries[a].id != m1.entries[b].id by {
            if b == n {
                assert(m.entries[a].id < m.next_id);
            }
        }
        assert forall|a: int, b: int|
            0 <= a < b < m1.entries.len() implies m1.entries[a].path != m1.entries[b].path by {
            if b == n {
                assert(!(0 <= a < m.entries.len() && m.entries[a].path == f.path));
            }
        }
        assert forall|a: int| 0 <= a < m1.entries.len() implies #[trigger] dup_ok(m1, a) by {
            if a < n {
                assert(dup_ok(m, a));
                match m.entries[a].duplicate_of {
                    Option::Some(d) => {
                        let j = choose|j: int|
                            0 <= j < m.entries.len() && m.entries[j].id == d
                                && m.entries[j].duplicate_of is None;
                        assert(m1.entries[j].id == d && m1.entries[j].duplicate_of is None);
                    },
                    Option::None => {},
                }
            }
        }
    }
}

/// Recording fingerprints in id order keeps the index single-canonical:
/// when every entry that already carries this fingerprint was seen first
/// (smaller id), and nothing points at the entry being fingerprinted,
/// then afterwards at most one entry per fingerprint stays canonical, and
/// at least one entry with this fingerprint is canonical.
pub proof fn lemma_record_keeps_single_canonical(m: IndexModel, id: u64, fp: Seq<char>)
    requires
        model_wf(m),
        single_canonical(m),
        has_id(m, id),
        m.entries[id_index(m, id)].content_hash is None,
        m.entries[id_index(m, id)].duplicate_of is None,
        !referenced(m, id),
        forall|k: int|
            0 <= k < m.entries.len() && (#[trigger] m.entries[k]).content_hash == Option::Some(
                fp,
            ) ==> m.entries[k].id < id,
    ensures
        single_canonical(record_model(m, id, fp)),
        exists|i: int|
            0 <= i < record_model(m, id, fp).entries.len() && (#[trigger] record_model(
                m,
                id,
                fp,
            ).entries[i]).content_hash == Option::Some(fp) && record_model(
                m,
                id,
                fp,
            ).entries[i].duplicate_of is None,
{
    let idx = id_index(m, id);
    assert(0 <= idx < m.entries.len() && m.entries[idx].id == id);
    let m1 = record_model(m, id, fp);
    assert forall|i: int, j: int|
        0 <= i < j < m1.entries.len() && (#[trigger] m1.entries[i]).content_hash is Some
            && m1.entries[i].content_hash == (#[trigger] m1.entries[j]).content_hash implies !(
    m1.entries[i].duplicate_of is None && m1.entries[j].duplicate_of is None) by {
        if i != idx && j != idx {
            assert(m1.entries[i] == m.entries[i] && m1.entries[j] == m.entries[j]);
        } else {
            let k: int = if i == idx {
                j
            } else {
                i
            };
            if m1.entries[k].duplicate_of is None && m1.entries[idx].duplicate_of is None {
                assert(m1.entries[k] == m.entries[k]);
                assert(m.entries[k].content_hash == Option::Some(fp));
                assert(m.entries[k].id != id);
                assert(is_candidate(m, fp, id, k));
                assert(has_candidate(m, fp, id));
                lemma_min_candidate(m, fp, id);
                assert(min_candidate_id(m, fp, id) <= m.entries[k].id);
                assert(m.entries[k].id < id);
                assert(record_links(m, id, fp));
                assert(m1.entries[idx].duplicate_of is Some);
            }
        }
    }
    // at least one canonical holder of `fp` remains
    if record_links(m, id, fp) {
        lemma_min_candidate(m, fp, id);
        let jc = min_candidate_idx(m, fp, id);
        assert(is_candidate(m, fp, id, jc));
        assert(jc != idx);
        assert(m1.entries[jc] == m.entries[jc]);
        assert(m1.entries[jc].content_hash == Option::Some(fp) && m1.entries[jc].duplicate_of
            is None);
    } else {
        assert(m1.entries[idx].content_hash == Option::Some(fp) && m1.entries[idx].duplicate_of
            is None);
    }
}

/// Recording a fingerprint keeps the index well-formed.
#[verifier::rlimit(100)]
proof fn assert_wf_after_record(m: IndexModel, id: u64, fp: Seq<char>)
    requires
        model_wf(m),
    ensures
        model_wf(record_model(m, id, fp)),
{
    if has_id(m, id) {
        let i = id_index(m, id);
        assert(0 <= i < m.entries.len() && m.entries[i].id == id);
        let m1 = record_model(m, id, fp);
        assert forall|a: int| 0 <= a < m1.entries.len() implies m1.entries[a].id
            < m1.next_id by {
            assert(m1.entries[a].id == m.entries[a].id);
        }
        assert forall|a: int, b: int|
            0 <= a < b < m1.entries.len() implies m1.entries[a].id != m1.entries[b].id by {
            assert(m1.entries[a].id == m.entries[a].id);
            assert(m1.entries[b].id == m.entries[b].id);
        }
        assert forall|a: int, b: int|
            0 <= a < b < m1.entries.len() implies m1.entries[a].path != m1.entries[b].path by {
            assert(m1.entries[a].path == m.entries[a].path);
            assert(m1.entries[b].path == m.entries[b].path);
        }
        assert forall|k: int| 0 <= k < m1.entries.len() implies #[trigger] dup_ok(m1, k) by {
            assert(dup_ok(m, k));
            match m1.entries[k].duplicate_of {
                Option::Some(d) => {
                    if k == i && record_links(m, id, fp) && d == min_candidate_id(m, fp, id) {
                        // the link target is an eligible candidate
                        assert(has_candidate(m, fp, id));
                        lemma_min_candidate(m, fp, id);
                        let jc = min_candidate_idx(m, fp, id);
                        assert(is_candidate(m, fp, id, jc) && m.entries[jc].id == d);
                        assert(m.entries[i].id == id && m.entries[jc].id != id);
                        assert(jc != i);
                        assert(m1.entries[jc] == m.entries[jc]);
                        assert(m1.entries[jc].id == d && m1.entries[jc].duplicate_of is None);
                        assert(d != m1.entries[k].id);
                    } else {
                        // this entry's link existed before; its target is unchanged,
                        // because a referenced entry is never re-linked
                        assert(m.entries[k].duplicate_of == Option::Some(d));
                        let j = choose|j: int|
                            0 <= j < m.entries.len() && m.entries[j].id == d
                                && m.entries[j].duplicate_of is None;
                        assert(0 <= j < m.entries.len() && m.entries[j].id == d
                            && m.entries[j].duplicate_of is None);
                        if j == i {
                            assert(d == id);
                            assert(0 <= k < m.entries.len() && m.entries[k].duplicate_of
                                == Option::Some(id));
                            assert(referenced(m, id));
                            assert(!record_links(m, id, fp));
                            assert(m1.entries[i].duplicate_of == m.entries[i].duplicate_of);
                            assert(m1.entries[j].id == d && m1.entries[j].duplicate_of is None);
                        } else {
                            assert(m1.entries[j].id == d && m1.entries[j].duplicate_of is None);
                        }
                    }
                },
                Option::None => {},
            }
        }
    }
}

} // verus!
