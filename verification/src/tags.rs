//! The tag store: labels attached to files, each with a confidence score
//! and a provenance. A (file, tag) pair appears at most once; a new value
//! overwrites only when its confidence is at least the stored one, or when
//! it comes from the user, who always wins over inferred tags.

use vstd::prelude::*;
use vstd::pervasive::VecAdditionalExecFns;
use crate::models::TaskType;
use crate::text::str_eq;

verus! {

/// Confidence scores range over 0..=CONFIDENCE_SCALE; CONFIDENCE_SCALE
/// stands for full certainty.
pub const CONFIDENCE_SCALE: u32 = 100;

/// Whether a tag was defined by the user or generated automatically.
#[derive(Clone, Copy, PartialEq, Eq, Structural, Debug)]
pub enum TagKind {
    User,
    Auto,
}

/// Who produced a file tag: the user, or one of the background tasks.
#[derive(Clone, Copy, PartialEq, Eq, Structural, Debug)]
pub enum TagSource {
    User,
    Task(TaskType),
}

/// Spec-level image of a tag row.
#[verifier::ext_equal]
pub struct TagModel {
    pub id: u64,
    pub name: Seq<char>,
    pub kind: TagKind,
    pub color: Option<Seq<char>>,
}

/// One tag row: a unique name, a kind and an optional display color.
pub struct Tag {
    pub id: u64,
    pub name: String,
    pub kind: TagKind,
    pub color: Option<String>,
}

impl View for Tag {
    type V = TagModel;

    open spec fn view(&self) -> TagModel {
        TagModel {
            id: self.id,
            name: self.name@,
            kind: self.kind,
            color: match self.color {
                Option::Some(c) => Option::Some(c@),
                Option::None => Option::None,
            },
        }
    }
}

/// The association of one file with one tag, with confidence and
/// provenance.
#[derive(Clone, Copy, PartialEq, Eq, Structural, Debug)]
pub struct FileTag {
    pub file_id: u64,
    pub tag_id: u64,
    pub confidence: u32,
    pub source: TagSource,
}

/// Whether tag row `i` of `ts` carries the name `name`.
pub open spec fn is_tag_named(ts: Seq<TagModel>, name: Seq<char>, i: int) -> bool {
    0 <= i < ts.len() && ts[i].name == name
}

pub open spec fn has_tag_named(ts: Seq<TagModel>, name: Seq<char>) -> bool {
    exists|i: int| is_tag_named(ts, name, i)
}

pub open spec fn tag_named_index(ts: Seq<TagModel>, name: Seq<char>) -> int {
    choose|i: int| is_tag_named(ts, name, i)
}

/// Whether entry `k` of `fts` associates file `fid` with tag `tid`.
pub open spec fn is_file_tag(fts: Seq<FileTag>, fid: u64, tid: u64, k: int) -> bool {
    0 <= k < fts.len() && fts[k].file_id == fid && fts[k].tag_id == tid
}

pub open spec fn has_file_tag(fts: Seq<FileTag>, fid: u64, tid: u64) -> bool {
    exists|k: int| is_file_tag(fts, fid, tid, k)
}

pub open spec fn file_tag_index(fts: Seq<FileTag>, fid: u64, tid: u64) -> int {
    choose|k: int| is_file_tag(fts, fid, tid, k)
}

/// Whether some tag row of `ts` carries the id `tid`.
pub open spec fn tag_id_exists(ts: Seq<TagModel>, tid: u64) -> bool {
    exists|i: int| 0 <= i < ts.len() && ts[i].id == tid
}

/// Spec-level image of the whole store.
#[verifier::ext_equal]
pub struct TagsModel {
    pub tags: Seq<TagModel>,
    pub file_tags: Seq<FileTag>,
    pub next_tag_id: u64,
}

/// Well-formedness: tag ids and names are unique, ids stay below the
/// counter, each (file, tag) pair appears at most once, every association
/// names an existing tag, and confidences stay on the scale.
pub open spec fn tags_wf(m: TagsModel) -> bool {
    &&& forall|i: int| 0 <= i < m.tags.len() ==> (#[trigger] m.tags[i]).id < m.next_tag_id
    &&& forall|i: int, j: int| 0 <= i < j < m.tags.len() ==> m.tags[i].id != m.tags[j].id
    &&& forall|i: int, j: int| 0 <= i < j < m.tags.len() ==> m.tags[i].name != m.tags[j].name
    &&& forall|k: int, l: int|
        0 <= k < l < m.file_tags.len() ==> !(m.file_tags[k].file_id == m.file_tags[l].file_id
            && m.file_tags[k].tag_id == m.file_tags[l].tag_id)
    &&& forall|k: int|
        0 <= k < m.file_tags.len() ==> tag_id_exists(m.tags, (#[trigger] m.file_tags[k]).tag_id)
    &&& forall|k: int|
        0 <= k < m.file_tags.len() ==> (#[trigger] m.file_tags[k]).confidence <= CONFIDENCE_SCALE
}

/// Whether a new value takes the place of a stored one: the user always
/// wins; anything else needs at least the stored confidence.
pub open spec fn overwrites(stored: u32, confidence: u32, source: TagSource) -> bool {
    source == TagSource::User || confidence >= stored
}

/// The store after `apply`: the tag row is created when the name is
/// unseen; the association is created when absent, and overwritten only
/// as `overwrites` allows.
pub open spec fn apply_model(
    m: TagsModel,
    fid: u64,
    name: Seq<char>,
    kind: TagKind,
    confidence: u32,
    source: TagSource,
) -> TagsModel {
    let tid = if has_tag_named(m.tags, name) {
        m.tags[tag_named_index(m.tags, name)].id
    } else {
        m.next_tag_id
    };
    let tags1 = if has_tag_named(m.tags, name) {
        m.tags
    } else {
        m.tags.push(TagModel { id: m.next_tag_id, name: name, kind: kind, color: Option::None })
    };
    let next1 = if has_tag_named(m.tags, name) {
        m.next_tag_id
    } else {
        (m.next_tag_id + 1) as u64
    };
    let fts1 = if has_file_tag(m.file_tags, fid, tid) {
        let k = file_tag_index(m.file_tags, fid, tid);
        if overwrites(m.file_tags[k].confidence, confidence, source) {
            m.file_tags.update(
                k,
                FileTag { file_id: fid, tag_id: tid, confidence: confidence, source: source },
            )
        } else {
            m.file_tags
        }
    } else {
        m.file_tags.push(
            FileTag { file_id: fid, tag_id: tid, confidence: confidence, source: source },
        )
    };
    TagsModel { tags: tags1, file_tags: fts1, next_tag_id: next1 }
}

/// The store after removing the tag `name` from file `fid`: the
/// association goes, the tag row stays; removing an absent tag changes
/// nothing.
pub open spec fn remove_model(m: TagsModel, fid: u64, name: Seq<char>) -> TagsModel {
    if has_tag_named(m.tags, name) && has_file_tag(
        m.file_tags,
        fid,
        m.tags[tag_named_index(m.tags, name)].id,
    ) {
        TagsModel {
            file_tags: m.file_tags.remove(
                file_tag_index(m.file_tags, fid, m.tags[tag_named_index(m.tags, name)].id),
            ),
            ..m
        }
    } else {
        m
    }
}

/// The association of `fid` with the tag `name`, if both exist.
pub open spec fn file_tag_lookup(m: TagsModel, fid: u64, name: Seq<char>) -> Option<FileTag> {
    if has_tag_named(m.tags, name) && has_file_tag(
        m.file_tags,
        fid,
        m.tags[tag_named_index(m.tags, name)].id,
    ) {
        Option::Some(
            m.file_tags[file_tag_index(
                m.file_tags,
                fid,
                m.tags[tag_named_index(m.tags, name)].id,
            )],
        )
    } else {
        Option::None
    }
}

/// The durable tag store.
pub struct TagStore {
    pub tags: Vec<Tag>,
    pub file_tags: Vec<FileTag>,
    pub next_tag_id: u64,
}

impl View for TagStore {
    type V = TagsModel;

    open spec fn view(&self) -> TagsModel {
        TagsModel {
            tags: self.tags@.map_values(|t: Tag| t@),
            file_tags: self.file_tags@,
            next_tag_id: self.next_tag_id,
        }
    }
}

impl TagStore {
    pub open spec fn wf(&self) -> bool {
        tags_wf(self@)
    }

    /// An empty store.
    pub fn new() -> (r: TagStore)
        ensures
            r@.tags.len() == 0,
            r@.file_tags.len() == 0,
            r@.next_tag_id == 0,
            r.wf(),
    {
        let r = TagStore { tags: Vec::new(), file_tags: Vec::new(), next_tag_id: 0 };
        assert(r@.tags =~= Seq::<TagModel>::empty());
        assert(r@.file_tags =~= Seq::<FileTag>::empty());
        r
    }

    /// Index of the tag row named `name`, if any.
    fn find_tag_idx(&self, name: &str) -> (r: Option<usize>)
        ensures
            match r {
                Option::Some(i) => is_tag_named(self@.tags, name@, i as int),
                Option::None => !has_tag_named(self@.tags, name@),
            },
    {
        let mut i: usize = 0;
        while i < self.tags.len()
            invariant
                0 <= i <= self.tags@.len(),
                self@.tags.len() == self.tags@.len(),
                forall|k: int| 0 <= k < i ==> !is_tag_named(self@.tags, name@, k),
            decreases self.tags@.len() - i,
        {
            if str_eq(self.tags[i].name.as_str(), name) {
                return Option::Some(i);
            }
            proof {
                assert(!is_tag_named(self@.tags, name@, i as int));
            }
            i += 1;
        }
        Option::None
    }

    /// Index of the association of `fid` with tag id `tid`, if any.
    fn find_file_tag_idx(&self, fid: u64, tid: u64) -> (r: Option<usize>)
        ensures
            match r {
                Option::Some(k) => is_file_tag(self@.file_tags, fid, tid, k as int),
                Option::None => !has_file_tag(self@.file_tags, fid, tid),
            },
    {
        let mut k: usize = 0;
        while k < self.file_tags.len()
            invariant
                0 <= k <= self.file_tags@.len(),
                self@.file_tags.len() == self.file_tags@.len(),
                forall|j: int| 0 <= j < k ==> !is_file_tag(self@.file_tags, fid, tid, j),
            decreases self.file_tags@.len() - k,
        {
            let ft = &self.file_tags[k];
            if ft.file_id == fid && ft.tag_id == tid {
                return Option::Some(k);
            }
            proof {
                assert(!is_file_tag(self@.file_tags, fid, tid, k as int));
            }
            k += 1;
        }
        Option::None
    }

    /// Attach the tag `name` to file `fid` with the given confidence and
    /// provenance. Creates the tag row when the name is unseen; an
    /// existing association is overwritten only when the new confidence
    /// is at least the stored one, or when the new value comes from the
    /// user.
    pub fn apply(
        &mut self,
        fid: u64,
        name: &str,
        kind: TagKind,
        confidence: u32,
        source: TagSource,
    )
        requires
            old(self).wf(),
            confidence <= CONFIDENCE_SCALE,
            old(self)@.next_tag_id < u64::MAX,
        ensures
            final(self)@ == apply_model(old(self)@, fid, name@, kind, confidence, source),
            final(self).wf(),
    {
        let ghost m0 = self@;
        let tid = match self.find_tag_idx(name) {
            Option::Some(i) => {
                proof {
                    let j = tag_named_index(m0.tags, name@);
                    assert(is_tag_named(m0.tags, name@, j));
                    assert(j == i);
                }
                self.tags[i].id
            },
            Option::None => {
                let tid = self.next_tag_id;
                self.tags.push(
                    Tag { id: tid, name: name.to_owned(), kind, color: Option::None },
                );
                self.next_tag_id = self.next_tag_id + 1;
                tid
            },
        };
        let ghost mid = self@;
        proof {
            assert(mid.tags =~= apply_model(m0, fid, name@, kind, confidence, source).tags);
            assert(mid.next_tag_id == apply_model(
                m0,
                fid,
                name@,
                kind,
                confidence,
                source,
            ).next_tag_id);
            assert(tid == if has_tag_named(m0.tags, name@) {
                m0.tags[tag_named_index(m0.tags, name@)].id
            } else {
                m0.next_tag_id
            });
            assert(mid.file_tags == m0.file_tags);
        }
        match self.find_file_tag_idx(fid, tid) {
            Option::Some(k) => {
                proof {
                    let j = file_tag_index(m0.file_tags, fid, tid);
                    assert(is_file_tag(m0.file_tags, fid, tid, j));
                    assert(j == k);
                }
                let stored = self.file_tags[k].confidence;
                if source == TagSource::User || confidence >= stored {
                    self.file_tags.set(
                        k,
                        FileTag { file_id: fid, tag_id: tid, confidence, source },
                    );
                }
            },
            Option::None => {
                self.file_tags.push(FileTag { file_id: fid, tag_id: tid, confidence, source });
            },
        }
        proof {
            let m1 = apply_model(m0, fid, name@, kind, confidence, source);
            assert(self@.file_tags =~= m1.file_tags);
            assert(self@ =~= m1);
            assert_tags_wf_after_apply(m0, fid, name@, kind, confidence, source);
        }
    }

    /// Detach the tag `name` from file `fid`. The tag row itself stays.
    /// Removing an absent association is not an error; returns whether
    /// one went away.
    pub fn remove(&mut self, fid: u64, name: &str) -> (removed: bool)
        requires
            old(self).wf(),
        ensures
            final(self)@ == remove_model(old(self)@, fid, name@),
            removed == (file_tag_lookup(old(self)@, fid, name@) is Some),
            final(self).wf(),
    {
        let ghost m0 = self@;
        let tid = match self.find_tag_idx(name) {
            Option::Some(i) => {
                proof {
                    let j = tag_named_index(m0.tags, name@);
                    assert(is_tag_named(m0.tags, name@, j));
                    assert(j == i);
                }
                self.tags[i].id
            },
            Option::None => {
                return false;
            },
        };
        match self.find_file_tag_idx(fid, tid) {
            Option::Some(k) => {
                let _ = self.file_tags.remove(k);
                proof {
                    let m1 = remove_model(m0, fid, name@);
                    assert(self@.file_tags =~= m1.file_tags);
                    assert(self@ =~= m1);
                    let q0 = m0.file_tags;
                    let q1 = self@.file_tags;
                    assert forall|a: int, b: int|
                        0 <= a < b < q1.len() implies !(q1[a].file_id == q1[b].file_id
                        && q1[a].tag_id == q1[b].tag_id) by {
                        let a0: int = if a < k as int {
                            a
                        } else {
                            a + 1
                        };
                        let b0: int = if b < k as int {
                            b
                        } else {
                            b + 1
                        };
                        assert(q1[a] == q0[a0] && q1[b] == q0[b0]);
                    }
                    assert forall|a: int|
                        0 <= a < q1.len() implies tag_id_exists(
                        self@.tags,
                        (#[trigger] q1[a]).tag_id,
                    ) && q1[a].confidence <= CONFIDENCE_SCALE by {
                        let a0: int = if a < k as int {
                            a
                        } else {
                            a + 1
                        };
                        assert(q1[a] == q0[a0]);
                        assert(tag_id_exists(m0.tags, q0[a0].tag_id));
                        assert(q0[a0].confidence <= CONFIDENCE_SCALE);
                    }
                }
                true
            },
            Option::None => {
                false
            },
        }
    }

    /// The association of `fid` with the tag `name`, if both exist: the
    /// stored confidence and provenance stay queryable, also for files a
    /// scan no longer observes.
    pub fn file_tag_of(&self, fid: u64, name: &str) -> (r: Option<FileTag>)
        requires
            self.wf(),
        ensures
            r == file_tag_lookup(self@, fid, name@),
    {
        let ghost m0 = self@;
        let tid = match self.find_tag_idx(name) {
            Option::Some(i) => {
                proof {
                    let j = tag_named_index(m0.tags, name@);
                    assert(is_tag_named(m0.tags, name@, j));
                    assert(j == i);
                }
                self.tags[i].id
            },
            Option::None => {
                return Option::None;
            },
        };
        match self.find_file_tag_idx(fid, tid) {
            Option::Some(k) => {
                proof {
                    let j = file_tag_index(m0.file_tags, fid, tid);
                    assert(is_file_tag(m0.file_tags, fid, tid, j));
                    assert(j == k);
                }
                Option::Some(self.file_tags[k])
            },
            Option::None => Option::None,
        }
    }
}

/// `apply` keeps the store well-formed.
proof fn assert_tags_wf_after_apply(
    m: TagsModel,
    fid: u64,
    name: Seq<char>,
    kind: TagKind,
    confidence: u32,
    source: TagSource,
)
    requires
        tags_wf(m),
        confidence <= CONFIDENCE_SCALE,
        m.next_tag_id < u64::MAX,
    ensures
        tags_wf(apply_model(m, fid, name, kind, confidence, source)),
{
    let m1 = apply_model(m, fid, name, kind, confidence, source);
    let n = m.tags.len() as int;
    assert forall|i: int| 0 <= i < m1.tags.len() implies (#[trigger] m1.tags[i]).id
        < m1.next_tag_id by {
        if i < n {
            assert(m.tags[i].id < m.next_tag_id);
        }
    }
    assert forall|i: int, j: int|
        0 <= i < j < m1.tags.len() implies m1.tags[i].id != m1.tags[j].id by {
        if j == n {
            assert(m.tags[i].id < m.next_tag_id);
        }
    }
    assert forall|i: int, j: int|
        0 <= i < j < m1.tags.len() implies m1.tags[i].name != m1.tags[j].name by {
        if j == n {
            assert(!is_tag_named(m.tags, name, i));
        }
    }
    let tid = if has_tag_named(m.tags, name) {
        m.tags[tag_named_index(m.tags, name)].id
    } else {
        m.next_tag_id
    };
    if has_tag_named(m.tags, name) {
        let i = tag_named_index(m.tags, name);
        assert(is_tag_named(m.tags, name, i));
        assert(0 <= i < m1.tags.len() && m1.tags[i].id == tid);
        assert(tag_id_exists(m1.tags, tid));
    } else {
        assert(0 <= n < m1.tags.len() && m1.tags[n].id == tid);
        assert(tag_id_exists(m1.tags, tid));
    }
    assert forall|k: int, l: int|
        0 <= k < l < m1.file_tags.len() implies !(m1.file_tags[k].file_id
        == m1.file_tags[l].file_id && m1.file_tags[k].tag_id == m1.file_tags[l].tag_id) by {
        if l == m.file_tags.len() as int {
            assert(!is_file_tag(m.file_tags, fid, tid, k));
        }
    }
    assert forall|k: int|
        0 <= k < m1.file_tags.len() implies tag_id_exists(
        m1.tags,
        (#[trigger] m1.file_tags[k]).tag_id,
    ) && m1.file_tags[k].confidence <= CONFIDENCE_SCALE by {
        if k < m.file_tags.len() as int && m1.file_tags[k] == m.file_tags[k] {
            assert(tag_id_exists(m.tags, m.file_tags[k].tag_id));
            let j = choose|j: int| 0 <= j < m.tags.len() && m.tags[j].id == m.file_tags[k].tag_id;
            assert(0 <= j < m1.tags.len() && m1.tags[j].id == m1.file_tags[k].tag_id);
            assert(m.file_tags[k].confidence <= CONFIDENCE_SCALE);
        } else {
            assert(m1.file_tags[k].tag_id == tid && m1.file_tags[k].confidence == confidence);
        }
    }
}

/// A user-applied tag always ends up present on the file with the user's
/// confidence, whatever was stored before.
pub proof fn lemma_user_tag_wins(
    m: TagsModel,
    fid: u64,
    name: Seq<char>,
    kind: TagKind,
    confidence: u32,
)
    ensures
        ({
            let m1 = apply_model(m, fid, name, kind, confidence, TagSource::User);
            exists|i: int, k: int|
                0 <= i < m1.tags.len() && m1.tags[i].name == name && 0 <= k < m1.file_tags.len()
                    && m1.file_tags[k] == (FileTag {
                    file_id: fid,
                    tag_id: m1.tags[i].id,
                    confidence: confidence,
                    source: TagSource::User,
                })
        }),
{
    let m1 = apply_model(m, fid, name, kind, confidence, TagSource::User);
    let ti: int = if has_tag_named(m.tags, name) {
        tag_named_index(m.tags, name)
    } else {
        m.tags.len() as int
    };
    if has_tag_named(m.tags, name) {
        assert(is_tag_named(m.tags, name, ti));
    }
    let tid = m1.tags[ti].id;
    let ki: int = if has_file_tag(m.file_tags, fid, tid) {
        file_tag_index(m.file_tags, fid, tid)
    } else {
        m.file_tags.len() as int
    };
    if has_file_tag(m.file_tags, fid, tid) {
        assert(is_file_tag(m.file_tags, fid, tid, ki));
        assert(overwrites(m.file_tags[ki].confidence, confidence, TagSource::User));
    }
    assert(0 <= ti < m1.tags.len() && m1.tags[ti].name == name && 0 <= ki < m1.file_tags.len()
        && m1.file_tags[ki] == (FileTag {
        file_id: fid,
        tag_id: m1.tags[ti].id,
        confidence: confidence,
        source: TagSource::User,
    }));
}

} // verus!
