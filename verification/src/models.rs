//! Plain data types shared by the index, the queue and the tag store, and
//! the pure logic that derives a file's name, extension and classification
//! from its path.

use vstd::prelude::*;
use crate::text::{eq_ignore_ascii_case, lower_chars, str_eq};

verus! {

/// Classification of a file, derived from its extension at scan time.
#[derive(Clone, Copy, PartialEq, Eq, Structural, Debug)]
pub enum FileType {
    Video,
    Image,
    Audio,
    Document,
    Other,
}

/// Lifecycle state of one unit of background work.
#[derive(Clone, Copy, PartialEq, Eq, Structural, Debug)]
pub enum TaskStatus {
    Pending,
    Processing,
    Completed,
    Failed,
}

/// Kind of background work tracked per file.
#[derive(Clone, Copy, PartialEq, Eq, Structural, Debug)]
pub enum TaskType {
    Vlm,
    Transcription,
    Embedding,
    Hash,
}

impl TaskType {
    /// Queue priority of a task type: higher runs first. Hashing comes
    /// before everything that consumes the fingerprint.
    pub fn priority(self) -> (p: u32)
        ensures
            p == self.spec_priority(),
    {
        match self {
            TaskType::Hash => 3u32,
            TaskType::Vlm => 2u32,
            TaskType::Transcription => 1u32,
            TaskType::Embedding => 0u32,
        }
    }

    pub open spec fn spec_priority(self) -> u32 {
        match self {
            TaskType::Hash => 3u32,
            TaskType::Vlm => 2u32,
            TaskType::Transcription => 1u32,
            TaskType::Embedding => 0u32,
        }
    }
}

/// Two extensions match when they agree after ASCII lowercasing.
pub open spec fn ext_matches(e: Seq<char>, lit: Seq<char>) -> bool {
    lower_chars(e) == lower_chars(lit)
}

pub open spec fn is_video_ext(e: Seq<char>) -> bool {
    ||| ext_matches(e, "mp4"@)
    ||| ext_matches(e, "mkv"@)
    ||| ext_matches(e, "avi"@)
    ||| ext_matches(e, "mov"@)
    ||| ext_matches(e, "wmv"@)
    ||| ext_matches(e, "flv"@)
    ||| ext_matches(e, "webm"@)
    ||| ext_matches(e, "m4v"@)
    ||| ext_matches(e, "mpeg"@)
    ||| ext_matches(e, "mpg"@)
}

pub open spec fn is_image_ext(e: Seq<char>) -> bool {
    ||| ext_matches(e, "jpg"@)
    ||| ext_matches(e, "jpeg"@)
    ||| ext_matches(e, "png"@)
    ||| ext_matches(e, "gif"@)
    ||| ext_matches(e, "bmp"@)
    ||| ext_matches(e, "webp"@)
    ||| ext_matches(e, "svg"@)
    ||| ext_matches(e, "ico"@)
    ||| ext_matches(e, "tiff"@)
    ||| ext_matches(e, "tif"@)
}

pub open spec fn is_audio_ext(e: Seq<char>) -> bool {
    ||| ext_matches(e, "mp3"@)
    ||| ext_matches(e, "wav"@)
    ||| ext_matches(e, "flac"@)
    ||| ext_matches(e, "aac"@)
    ||| ext_matches(e, "ogg"@)
    ||| ext_matches(e, "wma"@)
    ||| ext_matches(e, "m4a"@)
    ||| ext_matches(e, "opus"@)
}

pub open spec fn is_document_ext(e: Seq<char>) -> bool {
    ||| ext_matches(e, "pdf"@)
    ||| ext_matches(e, "doc"@)
    ||| ext_matches(e, "docx"@)
    ||| ext_matches(e, "txt"@)
    ||| ext_matches(e, "rtf"@)
    ||| ext_matches(e, "odt"@)
    ||| ext_matches(e, "xls"@)
    ||| ext_matches(e, "xlsx"@)
    ||| ext_matches(e, "ppt"@)
    ||| ext_matches(e, "pptx"@)
}

impl FileType {
    /// The fixed extension table: video, image, audio and document
    /// extensions map to their variant, anything else to `Other`.
    pub open spec fn spec_from_extension(e: Seq<char>) -> FileType {
        if is_video_ext(e) {
            FileType::Video
        } else if is_image_ext(e) {
            FileType::Image
        } else if is_audio_ext(e) {
            FileType::Audio
        } else if is_document_ext(e) {
            FileType::Document
        } else {
            FileType::Other
        }
    }

    /// Detect file type from extension, case-insensitively.
    pub fn from_extension(ext: &str) -> (t: Self)
        ensures
            t == Self::spec_from_extension(ext@),
    {
        if eq_ignore_ascii_case(ext, "mp4") || eq_ignore_ascii_case(ext, "mkv")
            || eq_ignore_ascii_case(ext, "avi") || eq_ignore_ascii_case(ext, "mov")
            || eq_ignore_ascii_case(ext, "wmv") || eq_ignore_ascii_case(ext, "flv")
            || eq_ignore_ascii_case(ext, "webm") || eq_ignore_ascii_case(ext, "m4v")
            || eq_ignore_ascii_case(ext, "mpeg") || eq_ignore_ascii_case(ext, "mpg") {
            FileType::Video
        } else if eq_ignore_ascii_case(ext, "jpg") || eq_ignore_ascii_case(ext, "jpeg")
            || eq_ignore_ascii_case(ext, "png") || eq_ignore_ascii_case(ext, "gif")
            || eq_ignore_ascii_case(ext, "bmp") || eq_ignore_ascii_case(ext, "webp")
            || eq_ignore_ascii_case(ext, "svg") || eq_ignore_ascii_case(ext, "ico")
            || eq_ignore_ascii_case(ext, "tiff") || eq_ignore_ascii_case(ext, "tif") {
            FileType::Image
        } else if eq_ignore_ascii_case(ext, "mp3") || eq_ignore_ascii_case(ext, "wav")
            || eq_ignore_ascii_case(ext, "flac") || eq_ignore_ascii_case(ext, "aac")
            || eq_ignore_ascii_case(ext, "ogg") || eq_ignore_ascii_case(ext, "wma")
            || eq_ignore_ascii_case(ext, "m4a") || eq_ignore_ascii_case(ext, "opus") {
            FileType::Audio
        } else if eq_ignore_ascii_case(ext, "pdf") || eq_ignore_ascii_case(ext, "doc")
            || eq_ignore_ascii_case(ext, "docx") || eq_ignore_ascii_case(ext, "txt")
            || eq_ignore_ascii_case(ext, "rtf") || eq_ignore_ascii_case(ext, "odt")
            || eq_ignore_ascii_case(ext, "xls") || eq_ignore_ascii_case(ext, "xlsx")
            || eq_ignore_ascii_case(ext, "ppt") || eq_ignore_ascii_case(ext, "pptx") {
            FileType::Document
        } else {
            FileType::Other
        }
    }
}

/// Spec-level image of a `ScannedFile`: every string as its characters.
#[verifier::ext_equal]
pub struct ScannedModel {
    pub path: Seq<char>,
    pub file_name: Seq<char>,
    pub file_extension: Seq<char>,
    pub file_type: FileType,
    pub file_size: u64,
    pub created_at: Seq<char>,
    pub modified_at: Seq<char>,
}

/// File information gathered by a scan, before full indexing.
pub struct ScannedFile {
    pub path: String,
    pub file_name: String,
    pub file_extension: String,
    pub file_type: FileType,
    pub file_size: u64,
    pub created_at: String,
    pub modified_at: String,
}

impl View for ScannedFile {
    type V = ScannedModel;

    open spec fn view(&self) -> ScannedModel {
        ScannedModel {
            path: self.path@,
            file_name: self.file_name@,
            file_extension: self.file_extension@,
            file_type: self.file_type,
            file_size: self.file_size,
            created_at: self.created_at@,
            modified_at: self.modified_at@,
        }
    }
}

/// Spec-level image of a `FileEntry`.
#[verifier::ext_equal]
pub struct EntryModel {
    pub id: u64,
    pub path: Seq<char>,
    pub file_name: Seq<char>,
    pub file_extension: Seq<char>,
    pub file_type: FileType,
    pub content_hash: Option<Seq<char>>,
    pub file_size: u64,
    pub duration_ms: Option<u64>,
    pub created_at: Seq<char>,
    pub modified_at: Seq<char>,
    pub indexed_at: Option<Seq<char>>,
    pub duplicate_of: Option<u64>,
    pub removed: bool,
}

/// One indexed file. The id is assigned once and survives renames; the
/// path is unique among entries. `duplicate_of`, when set, names an entry
/// that itself has `duplicate_of` unset (duplicates point to the canonical
/// original only). `removed` marks a path that a later scan no longer
/// observed; such an entry keeps its tags and fingerprint.
pub struct FileEntry {
    pub id: u64,
    pub path: String,
    pub file_name: String,
    pub file_extension: String,
    pub file_type: FileType,
    pub content_hash: Option<String>,
    pub file_size: u64,
    pub duration_ms: Option<u64>,
    pub created_at: String,
    pub modified_at: String,
    pub indexed_at: Option<String>,
    pub duplicate_of: Option<u64>,
    pub removed: bool,
}

impl View for FileEntry {
    type V = EntryModel;

    open spec fn view(&self) -> EntryModel {
        EntryModel {
            id: self.id,
            path: self.path@,
            file_name: self.file_name@,
            file_extension: self.file_extension@,
            file_type: self.file_type,
            content_hash: match self.content_hash {
                Option::Some(h) => Option::Some(h@),
                Option::None => Option::None,
            },
            file_size: self.file_size,
            duration_ms: self.duration_ms,
            created_at: self.created_at@,
            modified_at: self.modified_at@,
            indexed_at: match self.indexed_at {
                Option::Some(t) => Option::Some(t@),
                Option::None => Option::None,
            },
            duplicate_of: self.duplicate_of,
            removed: self.removed,
        }
    }
}

/// `r` is the suffix of `s` that follows the last occurrence of `c`, or all
/// of `s` when `c` does not occur.
pub open spec fn is_suffix_after_last(s: Seq<char>, c: char, r: Seq<char>) -> bool {
    &&& r.len() <= s.len()
    &&& r == s.subrange(s.len() - r.len(), s.len() as int)
    &&& forall|k: int| s.len() - r.len() <= k < s.len() ==> s[k] != c
    &&& (r.len() == s.len() || s[s.len() - r.len() - 1] == c)
}

/// `r` is the extension of the file name `n`: the suffix after the last
/// dot that stands at position one or later, and empty when there is no
/// such dot.
pub open spec fn is_extension_of(n: Seq<char>, r: Seq<char>) -> bool {
    ||| {
        &&& r.len() < n.len()
        &&& n.len() - r.len() - 1 >= 1
        &&& n[n.len() - r.len() - 1] == '.'
        &&& r == n.subrange(n.len() - r.len(), n.len() as int)
        &&& forall|k: int| n.len() - r.len() <= k < n.len() ==> n[k] != '.'
    }
    ||| {
        &&& r.len() == 0
        &&& forall|k: int| 1 <= k < n.len() ==> n[k] != '.'
    }
}

/// The component of `path` after its last slash (all of `path` when it has
/// no slash).
pub fn file_name_of(path: &str) -> (r: String)
    ensures
        is_suffix_after_last(path@, '/', r@),
{
    let n = path.unicode_len();
    let mut j = n;
    while j > 0
        invariant
            0 <= j <= n,
            n == path@.len(),
            forall|k: int| j <= k < n ==> path@[k] != '/',
        decreases j,
    {
        if path.get_char(j - 1) == '/' {
            let r = path.substring_char(j, n).to_owned();
            assert(r@ =~= path@.subrange(path@.len() - r@.len(), path@.len() as int));
            return r;
        }
        j -= 1;
    }
    let r = path.substring_char(0, n).to_owned();
    assert(r@ =~= path@.subrange(path@.len() - r@.len(), path@.len() as int));
    r
}

/// The extension of the file name `name`: the part after the last dot at
/// position one or later, or empty when there is none.
pub fn extension_of(name: &str) -> (r: String)
    ensures
        is_extension_of(name@, r@),
{
    let n = name.unicode_len();
    let mut j = n;
    while j > 1
        invariant
            j <= n || j == 1,
            0 <= j,
            n == name@.len(),
            forall|k: int| j <= k < n ==> name@[k] != '.',
        decreases j,
    {
        if name.get_char(j - 1) == '.' {
            let r = name.substring_char(j, n).to_owned();
            assert(r@ =~= name@.subrange(name@.len() - r@.len(), name@.len() as int));
            return r;
        }
        j -= 1;
    }
    let r = String::new();
    r
}

/// The scanned record that a path together with its filesystem metadata
/// yields: name after the last slash (or "unknown" when that is empty),
/// extension after the last dot of the name, and the type the extension
/// classifies to.
pub open spec fn is_scan_of(
    path: Seq<char>,
    file_size: u64,
    created_at: Seq<char>,
    modified_at: Seq<char>,
    f: ScannedModel,
) -> bool {
    exists|b: Seq<char>|
        {
            &&& is_suffix_after_last(path, '/', b)
            &&& is_extension_of(b, f.file_extension)
            &&& f.file_name == if b.len() == 0 {
                "unknown"@
            } else {
                b
            }
            &&& f.path == path
            &&& f.file_size == file_size
            &&& f.created_at == created_at
            &&& f.modified_at == modified_at
            &&& f.file_type == FileType::spec_from_extension(f.file_extension)
        }
}

/// Build the scanned record for one file from its path and the plain
/// metadata values read for it.
pub fn scanned_file_from_path(
    path: &str,
    file_size: u64,
    created_at: &str,
    modified_at: &str,
) -> (f: ScannedFile)
    ensures
        is_scan_of(path@, file_size, created_at@, modified_at@, f@),
{
    let base = file_name_of(path);
    let ghost b = base@;
    let ext = extension_of(base.as_str());
    let file_type = FileType::from_extension(ext.as_str());
    let file_name = if base.as_str().is_empty() {
        "unknown".to_owned()
    } else {
        base
    };
    let f = ScannedFile {
        path: path.to_owned(),
        file_name,
        file_extension: ext,
        file_type,
        file_size,
        created_at: created_at.to_owned(),
        modified_at: modified_at.to_owned(),
    };
    assert(is_scan_of(path@, file_size, created_at@, modified_at@, f@)) by {
        assert(is_suffix_after_last(path@, '/', b));
    }
    f
}

} // verus!
