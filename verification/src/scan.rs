//! The scan orchestrator: resolves scanned paths to index entries,
//! schedules hashing, and — once a fingerprint is recorded — schedules the
//! downstream tasks for the canonical entry only.

use vstd::prelude::*;
use crate::index::{
    has_id, id_index, needs_hash, record_model, record_outcome, upsert_id, upsert_model,
    DedupOutcome, FileIndex, IndexError, IndexModel, model_wf,
};
use crate::models::{FileType, ScannedFile, ScannedModel, TaskType};
use crate::queue::{
    complete_model, complete_result, enqueue_model, queue_wf, ItemModel, ProcessingQueue,
    QueueError, lemma_enqueue_collapses,
};
use crate::tags::{tags_wf, TagStore, TagsModel};

verus! {

/// Errors of the orchestrated hash-completion step.
#[derive(Clone, Copy, PartialEq, Eq, Structural, Debug)]
pub enum CatalogError {
    Queue(QueueError),
    Index(IndexError),
}

/// Spec-level image of the whole catalog.
#[verifier::ext_equal]
pub struct CatalogModel {
    pub index: IndexModel,
    pub queue: Seq<ItemModel>,
    pub tags: TagsModel,
}

pub open spec fn catalog_wf(c: CatalogModel) -> bool {
    &&& model_wf(c.index)
    &&& queue_wf(c.queue)
    &&& tags_wf(c.tags)
}

/// The catalog after ingesting one scanned file: the index entry is
/// upserted, and a hashing task is enqueued exactly when the file has no
/// fingerprint yet or its recorded size or modified-at changed.
pub open spec fn ingest_model(c: CatalogModel, f: ScannedModel) -> CatalogModel {
    CatalogModel {
        index: upsert_model(c.index, f),
        queue: if needs_hash(c.index, f) {
            enqueue_model(
                c.queue,
                upsert_id(c.index, f),
                TaskType::Hash,
                TaskType::Hash.spec_priority(),
            )
        } else {
            c.queue
        },
        tags: c.tags,
    }
}

/// The downstream tasks scheduled for a canonical entry, by file type.
pub open spec fn downstream_model(q: Seq<ItemModel>, id: u64, ft: FileType) -> Seq<ItemModel> {
    match ft {
        FileType::Video => enqueue_model(
            enqueue_model(
                enqueue_model(q, id, TaskType::Vlm, TaskType::Vlm.spec_priority()),
                id,
                TaskType::Transcription,
                TaskType::Transcription.spec_priority(),
            ),
            id,
            TaskType::Embedding,
            TaskType::Embedding.spec_priority(),
        ),
        FileType::Image => enqueue_model(
            enqueue_model(q, id, TaskType::Vlm, TaskType::Vlm.spec_priority()),
            id,
            TaskType::Embedding,
            TaskType::Embedding.spec_priority(),
        ),
        FileType::Audio => enqueue_model(
            enqueue_model(
                q,
                id,
                TaskType::Transcription,
                TaskType::Transcription.spec_priority(),
            ),
            id,
            TaskType::Embedding,
            TaskType::Embedding.spec_priority(),
        ),
        FileType::Document => enqueue_model(
            q,
            id,
            TaskType::Embedding,
            TaskType::Embedding.spec_priority(),
        ),
        FileType::Other => enqueue_model(
            q,
            id,
            TaskType::Embedding,
            TaskType::Embedding.spec_priority(),
        ),
    }
}

/// Whether the hash-completion step for `id` goes through: the entry
/// exists and its hashing item is Processing.
pub open spec fn hash_completion_result(c: CatalogModel, id: u64) -> Result<(), CatalogError> {
    if !has_id(c.index, id) {
        Result::Err(CatalogError::Index(IndexError::NotFound))
    } else {
        match complete_result(c.queue, id, TaskType::Hash) {
            Result::Ok(_) => Result::Ok(()),
            Result::Err(e) => Result::Err(CatalogError::Queue(e)),
        }
    }
}

/// The catalog after the hash-completion step: the hashing item becomes
/// Completed, the fingerprint is recorded with its dedup resolution, and
/// downstream tasks are enqueued only when the entry stays canonical.
pub open spec fn on_hash_model(
    c: CatalogModel,
    id: u64,
    fp: Seq<char>,
    now: Seq<char>,
) -> CatalogModel {
    if hash_completion_result(c, id) is Err {
        c
    } else {
        let queue1 = complete_model(c.queue, id, TaskType::Hash, now);
        let index1 = record_model(c.index, id, fp);
        let ft = c.index.entries[id_index(c.index, id)].file_type;
        CatalogModel {
            index: index1,
            queue: if record_outcome(c.index, id, fp) == Result::<
                DedupOutcome,
                IndexError,
            >::Ok(DedupOutcome::Original) {
                downstream_model(queue1, id, ft)
            } else {
                queue1
            },
            tags: c.tags,
        }
    }
}

/// The core state: file index, processing queue and tag store, backed by
/// one durable transactional store.
pub struct Catalog {
    pub index: FileIndex,
    pub queue: ProcessingQueue,
    pub tags: TagStore,
}

impl View for Catalog {
    type V = CatalogModel;

    open spec fn view(&self) -> CatalogModel {
        CatalogModel { index: self.index@, queue: self.queue@, tags: self.tags@ }
    }
}

impl Catalog {
    pub open spec fn wf(&self) -> bool {
        catalog_wf(self@)
    }

    /// An empty catalog.
    pub fn new() -> (r: Catalog)
        ensures
            r@.index.entries.len() == 0,
            r@.queue.len() == 0,
            r@.tags.tags.len() == 0,
            r@.tags.file_tags.len() == 0,
            r.wf(),
    {
        Catalog { index: FileIndex::new(), queue: ProcessingQueue::new(), tags: TagStore::new() }
    }

    /// Ingest one scanned file: upsert its entry and, when it has no
    /// fingerprint yet or its recorded size or modified-at changed,
    /// enqueue a hashing task. Returns the entry's id.
    pub fn ingest(&mut self, f: &ScannedFile) -> (id: u64)
        requires
            old(self).wf(),
            old(self)@.index.next_id < u64::MAX,
        ensures
            final(self)@ == ingest_model(old(self)@, f@),
            id == upsert_id(old(self)@.index, f@),
            final(self).wf(),
    {
        let need = self.index.hash_needed(f);
        let id = self.index.upsert(f);
        if need {
            let _ = self.queue.enqueue(id, TaskType::Hash, TaskType::Hash.priority());
        }
        proof {
            assert(self@ =~= ingest_model(old(self)@, f@));
        }
        id
    }

    /// Record that hashing finished for the entry `id` with the given
    /// fingerprint: completes the hashing item and stores the fingerprint
    /// in the same step, resolves deduplication, and enqueues the
    /// downstream tasks only when the entry stays canonical — duplicates
    /// receive no further work.
    pub fn on_hash_completed(&mut self, id: u64, fingerprint: &str, now: &str) -> (r: Result<
        DedupOutcome,
        CatalogError,
    >)
        requires
            old(self).wf(),
        ensures
            final(self)@ == on_hash_model(old(self)@, id, fingerprint@, now@),
            r is Ok <==> hash_completion_result(old(self)@, id) is Ok,
            r is Ok ==> record_outcome(old(self)@.index, id, fingerprint@) == Result::<
                DedupOutcome,
                IndexError,
            >::Ok(r->Ok_0),
            r is Err ==> r == Result::<DedupOutcome, CatalogError>::Err(
                hash_completion_result(old(self)@, id)->Err_0,
            ),
            final(self).wf(),
    {
        let ghost c0 = self@;
        let ft = match self.index.get(id) {
            Option::Some(e) => e.file_type,
            Option::None => {
                return Result::Err(CatalogError::Index(IndexError::NotFound));
            },
        };
        proof {
            let j = id_index(c0.index, id);
            assert(0 <= j < c0.index.entries.len() && c0.index.entries[j].id == id);
        }
        match self.queue.complete(id, TaskType::Hash, now) {
            Result::Ok(_) => {},
            Result::Err(e) => {
                return Result::Err(CatalogError::Queue(e));
            },
        }
        let outcome = match self.index.record_fingerprint(id, fingerprint) {
            Result::Ok(o) => o,
            Result::Err(_) => {
                proof {
                    assert(false);
                }
                DedupOutcome::Original
            },
        };
        match outcome {
            DedupOutcome::Original => {
                match ft {
                    FileType::Video => {
                        let _ = self.queue.enqueue(id, TaskType::Vlm, TaskType::Vlm.priority());
                        let _ = self.queue.enqueue(
                            id,
                            TaskType::Transcription,
                            TaskType::Transcription.priority(),
                        );
                        let _ = self.queue.enqueue(
                            id,
                            TaskType::Embedding,
                            TaskType::Embedding.priority(),
                        );
                    },
                    FileType::Image => {
                        let _ = self.queue.enqueue(id, TaskType::Vlm, TaskType::Vlm.priority());
                        let _ = self.queue.enqueue(
                            id,
                            TaskType::Embedding,
                            TaskType::Embedding.priority(),
                        );
                    },
                    FileType::Audio => {
                        let _ = self.queue.enqueue(
                            id,
                            TaskType::Transcription,
                            TaskType::Transcription.priority(),
                        );
                        let _ = self.queue.enqueue(
                            id,
                            TaskType::Embedding,
                            TaskType::Embedding.priority(),
                        );
                    },
                    FileType::Document => {
                        let _ = self.queue.enqueue(
                            id,
                            TaskType::Embedding,
                            TaskType::Embedding.priority(),
                        );
                    },
                    FileType::Other => {
                        let _ = self.queue.enqueue(
                            id,
                            TaskType::Embedding,
                            TaskType::Embedding.priority(),
                        );
                    },
                }
            },
            DedupOutcome::Duplicate(_) => {},
        }
        proof {
            assert(self@ =~= on_hash_model(c0, id, fingerprint@, now@));
        }
        Result::Ok(outcome)
    }

    /// Record that a downstream task finished: the work item becomes
    /// Completed and, when the task derived a media duration, the entry
    /// takes it in the same step — the side effect and the status
    /// transition land together or not at all.
    pub fn complete_task(
        &mut self,
        id: u64,
        t: TaskType,
        now: &str,
        duration_ms: Option<u64>,
    ) -> (r: Result<(), QueueError>)
        requires
            old(self).wf(),
        ensures
            r == complete_result(old(self)@.queue, id, t),
            final(self)@.queue == complete_model(old(self)@.queue, id, t, now@),
            final(self)@.tags == old(self)@.tags,
            final(self)@.index == if r is Ok && duration_ms is Some && has_id(
                old(self)@.index,
                id,
            ) {
                IndexModel {
                    entries: old(self)@.index.entries.update(
                        id_index(old(self)@.index, id),
                        crate::models::EntryModel {
                            duration_ms: duration_ms,
                            ..old(self)@.index.entries[id_index(old(self)@.index, id)]
                        },
                    ),
                    ..old(self)@.index
                }
            } else {
                old(self)@.index
            },
            final(self).wf(),
    {
        match self.queue.complete(id, t, now) {
            Result::Ok(_) => {
                match duration_ms {
                    Option::Some(d) => {
                        let _ = self.index.set_duration(id, d);
                    },
                    Option::None => {},
                }
                Result::Ok(())
            },
            Result::Err(e) => Result::Err(e),
        }
    }

    /// Mark the entries of paths seen by an earlier scan but missed by
    /// the new one as removed. Their tags stay queryable.
    pub fn reconcile_missing(&mut self, known: &Vec<String>, observed: &Vec<String>)
        requires
            old(self).wf(),
        ensures
            final(self)@.index == crate::index::reconcile_model(
                old(self)@.index,
                known@,
                observed@,
            ),
            final(self)@.queue == old(self)@.queue,
            final(self)@.tags == old(self)@.tags,
            final(self).wf(),
    {
        self.index.reconcile_missing(known, observed);
    }
}

/// Ingesting the same scanned record twice changes nothing the second
/// time: the entry is refreshed with the values it already has, and no
/// second hashing item appears.
pub proof fn lemma_ingest_idempotent(c: CatalogModel, f: ScannedModel)
    requires
        catalog_wf(c),
        c.index.next_id < u64::MAX,
    ensures
        ingest_model(ingest_model(c, f), f) == ingest_model(c, f),
{
    let c1 = ingest_model(c, f);
    let u1 = upsert_model(c.index, f);
    crate::index::lemma_upsert_wf(c.index, f);
    let i1 = crate::index::path_index(u1, f.path);
    assert(0 <= i1 < u1.entries.len() && u1.entries[i1].path == f.path);
    // locate the refreshed entry
    if crate::index::has_path(c.index, f.path) {
        let i0 = crate::index::path_index(c.index, f.path);
        assert(0 <= i0 < c.index.entries.len() && c.index.entries[i0].path == f.path);
        assert(u1.entries[i0].path == f.path);
        assert(i1 == i0);
        assert(u1.entries[i1].file_size == f.file_size && u1.entries[i1].modified_at
            == f.modified_at && !u1.entries[i1].removed);
    } else {
        let n = c.index.entries.len() as int;
        assert(u1.entries[n].path == f.path);
        assert(i1 == n);
        assert(u1.entries[i1].file_size == f.file_size && u1.entries[i1].modified_at
            == f.modified_at && !u1.entries[i1].removed);
    }
    // the second upsert rewrites the same values
    let u2 = upsert_model(u1, f);
    assert(u2.entries[i1] == u1.entries[i1]);
    assert(u2.entries =~= u1.entries);
    assert(u2 =~= u1);
    // the second upsert returns the same id
    assert(upsert_id(u1, f) == u1.entries[i1].id);
    assert(upsert_id(c.index, f) == u1.entries[i1].id);
    // a second hashing item is never created
    let id = upsert_id(c.index, f);
    if needs_hash(c.index, f) {
        if needs_hash(u1, f) {
            lemma_enqueue_collapses(
                c.queue,
                id,
                TaskType::Hash,
                TaskType::Hash.spec_priority(),
                TaskType::Hash.spec_priority(),
            );
        }
    } else {
        assert(!needs_hash(u1, f));
    }
    assert(ingest_model(c1, f) =~= c1);
}

} // verus!
