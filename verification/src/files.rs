//! The ephemeral file store: content-addressed deduplication by SHA-256 and
//! logical expiry a fixed TTL after upload.

use vstd::prelude::*;

verus! {

use crate::encoding::hex_of;
use crate::hashing::{sha256_hex, sha256_of};
use crate::room::str_eq;

/// The largest accepted upload, in bytes.
pub const MAX_FILE_SIZE: usize = 100 * 1024 * 1024;

/// How long an upload stays retrievable, in milliseconds.
pub const FILE_TTL_MS: u64 = 15 * 60 * 1000;

/// When an upload made at `uploaded_at` (milliseconds) stops being served.
pub open spec fn expiry_of(uploaded_at: u64) -> u64 {
    if uploaded_at > u64::MAX - FILE_TTL_MS {
        u64::MAX
    } else {
        (uploaded_at + FILE_TTL_MS) as u64
    }
}

/// Why an upload was refused.
#[derive(Debug, Clone, Copy, PartialEq, Eq, Structural)]
pub enum UploadError {
    FileTooLarge,
}

impl UploadError {
    /// The message shown to the uploader.
    pub fn message(&self) -> (r: String)
        ensures
            r@ == "File size exceeds maximum allowed size"@,
    {
        let r = String::from_str("File size exceeds maximum allowed size");
        r
    }
}

/// What the store records about one upload. Times are milliseconds on the
/// caller's clock.
#[derive(Debug, PartialEq)]
pub struct FileMetadata {
    pub id: String,
    pub name: String,
    pub mime_type: String,
    pub size: usize,
    pub sha256: String,
    pub uploaded_at: u64,
    pub expires_at: u64,
}

/// The view of a `FileMetadata`.
#[verifier::ext_equal]
pub ghost struct FileMetadataView {
    pub id: Seq<char>,
    pub name: Seq<char>,
    pub mime_type: Seq<char>,
    pub size: usize,
    pub sha256: Seq<char>,
    pub uploaded_at: u64,
    pub expires_at: u64,
}

impl View for FileMetadata {
    type V = FileMetadataView;

    open spec fn view(&self) -> FileMetadataView {
        FileMetadataView {
            id: self.id@,
            name: self.name@,
            mime_type: self.mime_type@,
            size: self.size,
            sha256: self.sha256@,
            uploaded_at: self.uploaded_at,
            expires_at: self.expires_at,
        }
    }
}

impl Clone for FileMetadata {
    /// A clone carries exactly the same fields.
    fn clone(&self) -> (r: Self)
        ensures
            r == *self,
    {
        FileMetadata {
            id: self.id.clone(),
            name: self.name.clone(),
            mime_type: self.mime_type.clone(),
            size: self.size,
            sha256: self.sha256.clone(),
            uploaded_at: self.uploaded_at,
            expires_at: self.expires_at,
        }
    }
}

struct FileEntry {
    metadata: FileMetadata,
    content: Vec<u8>,
}

/// The view of one stored upload.
#[verifier::ext_equal]
pub ghost struct FileEntryView {
    pub metadata: FileMetadataView,
    pub content: Seq<u8>,
}

impl View for FileEntry {
    type V = FileEntryView;

    closed spec fn view(&self) -> FileEntryView {
        FileEntryView { metadata: self.metadata@, content: self.content@ }
    }
}

/// A stored entry is internally consistent: size, digest, and expiry all
/// derive from its content and upload time.
pub open spec fn entry_wf(e: FileEntryView) -> bool {
    &&& e.metadata.size == e.content.len()
    &&& e.metadata.sha256 == hex_of(sha256_of(e.content))
    &&& e.metadata.expires_at == expiry_of(e.metadata.uploaded_at)
    &&& e.content.len() <= MAX_FILE_SIZE
}

/// File ids never repeat within the store.
pub open spec fn file_ids_distinct(fs: Seq<FileEntryView>) -> bool {
    forall|i: int, j: int| #![trigger fs[i].metadata.id, fs[j].metadata.id]
        0 <= i < fs.len() && 0 <= j < fs.len() && fs[i].metadata.id == fs[j].metadata.id ==> i == j
}

/// A well-formed store: consistent entries under distinct ids.
pub open spec fn store_wf(fs: Seq<FileEntryView>) -> bool {
    &&& forall|i: int| 0 <= i < fs.len() ==> entry_wf(#[trigger] fs[i])
    &&& file_ids_distinct(fs)
}

/// Whether the store holds an entry under the given file id.
pub open spec fn store_has_id(fs: Seq<FileEntryView>, id: Seq<char>) -> bool {
    exists|i: int| 0 <= i < fs.len() && #[trigger] fs[i].metadata.id == id
}

/// Whether an entry with the given digest is still live at `now`:
/// deduplication considers only such entries.
pub open spec fn live_dup_at(fs: Seq<FileEntryView>, j: int, sha: Seq<char>, now: u64) -> bool {
    0 <= j < fs.len() && fs[j].metadata.sha256 == sha && now <= fs[j].metadata.expires_at
}

/// Whether any entry with the given digest is still live at `now`.
pub open spec fn has_live_dup(fs: Seq<FileEntryView>, sha: Seq<char>, now: u64) -> bool {
    exists|j: int| #[trigger] live_dup_at(fs, j, sha, now)
}

/// The entries still live at `now`, in store order.
pub open spec fn live_entries(fs: Seq<FileEntryView>, now: u64) -> Seq<FileEntryView>
    decreases fs.len(),
{
    if fs.len() == 0 {
        Seq::empty()
    } else if now <= fs[0].metadata.expires_at {
        seq![fs[0]] + live_entries(fs.drop_first(), now)
    } else {
        live_entries(fs.drop_first(), now)
    }
}

/// Extending the store by one entry extends its live part by that entry
/// exactly when the entry is live.
pub proof fn lemma_live_entries_push(fs: Seq<FileEntryView>, e: FileEntryView, now: u64)
    ensures
        now <= e.metadata.expires_at ==> live_entries(fs.push(e), now) == live_entries(fs, now).push(
            e,
        ),
        now > e.metadata.expires_at ==> live_entries(fs.push(e), now) == live_entries(fs, now),
    decreases fs.len(),
{
    let s = fs.push(e);
    assert(s.len() == fs.len() + 1);
    if fs.len() == 0 {
        assert(s[0] == e);
        assert(s.drop_first() =~= Seq::<FileEntryView>::empty());
        if now <= e.metadata.expires_at {
            assert(live_entries(s, now) == seq![e] + live_entries(s.drop_first(), now));
            assert(live_entries(s, now) =~= live_entries(fs, now).push(e));
        } else {
            assert(live_entries(s, now) == live_entries(s.drop_first(), now));
            assert(live_entries(s, now) =~= live_entries(fs, now));
        }
    } else {
        assert(s[0] == fs[0]);
        assert(s.drop_first() =~= fs.drop_first().push(e));
        lemma_live_entries_push(fs.drop_first(), e, now);
        if now <= e.metadata.expires_at {
            if now <= fs[0].metadata.expires_at {
                assert(live_entries(s, now) == seq![fs[0]] + live_entries(s.drop_first(), now));
                assert(live_entries(s, now) =~= live_entries(fs, now).push(e));
            } else {
                assert(live_entries(s, now) == live_entries(s.drop_first(), now));
                assert(live_entries(s, now) =~= live_entries(fs, now).push(e));
            }
        } else {
            if now <= fs[0].metadata.expires_at {
                assert(live_entries(s, now) == seq![fs[0]] + live_entries(s.drop_first(), now));
                assert(live_entries(s, now) =~= live_entries(fs, now));
            } else {
                assert(live_entries(s, now) == live_entries(s.drop_first(), now));
                assert(live_entries(s, now) =~= live_entries(fs, now));
            }
        }
    }
}

/// The live part of a store keeps only entries of the store, keeps their
/// ids distinct, and keeps none that has expired.
pub proof fn lemma_live_entries_props(fs: Seq<FileEntryView>, now: u64)
    ensures
        forall|k: int|
            0 <= k < live_entries(fs, now).len() ==> fs.contains(#[trigger] live_entries(fs, now)[k]),
        forall|k: int|
            0 <= k < live_entries(fs, now).len() ==> now <= #[trigger] live_entries(
                fs,
                now,
            )[k].metadata.expires_at,
        file_ids_distinct(fs) ==> file_ids_distinct(live_entries(fs, now)),
        forall|q: Seq<char>|
            #[trigger] store_has_id(live_entries(fs, now), q) ==> store_has_id(fs, q),
    decreases fs.len(),
{
    let live = live_entries(fs, now);
    if fs.len() == 0 {
    } else {
        let rest = fs.drop_first();
        lemma_live_entries_props(rest, now);
        assert forall|k: int| 0 <= k < live_entries(rest, now).len() implies fs.contains(
            #[trigger] live_entries(rest, now)[k],
        ) by {
            assert(rest.contains(live_entries(rest, now)[k]));
            let m = choose|m: int|
                0 <= m < rest.len() && rest[m] == live_entries(rest, now)[k];
            assert(fs[m + 1] == rest[m]);
        }
        assert(fs.contains(fs[0]));
        assert forall|q: Seq<char>| #[trigger] store_has_id(live, q) implies store_has_id(fs, q) by {
            let k = choose|k: int| 0 <= k < live.len() && #[trigger] live[k].metadata.id == q;
            assert(fs.contains(live[k]));
            let m = choose|m: int| 0 <= m < fs.len() && fs[m] == live[k];
            assert(fs[m].metadata.id == q);
        }
        if file_ids_distinct(fs) {
            assert forall|i: int, j: int|
                0 <= i < rest.len() && 0 <= j < rest.len() && #[trigger] rest[i].metadata.id
                    == #[trigger] rest[j].metadata.id implies i == j by {
                assert(fs[i + 1].metadata.id == fs[j + 1].metadata.id);
            }
            let liverest = live_entries(rest, now);
            if now <= fs[0].metadata.expires_at {
                assert(live =~= seq![fs[0]] + liverest);
                assert forall|i: int, j: int|
                    0 <= i < live.len() && 0 <= j < live.len() && #[trigger] live[i].metadata.id
                        == #[trigger] live[j].metadata.id implies i == j by {
                    if i == 0 && j > 0 {
                        assert(liverest[j - 1].metadata.id == fs[0].metadata.id);
                        assert(store_has_id(liverest, fs[0].metadata.id));
                        assert(store_has_id(rest, fs[0].metadata.id));
                        let m = choose|m: int|
                            0 <= m < rest.len() && #[trigger] rest[m].metadata.id
                                == fs[0].metadata.id;
                        assert(fs[m + 1].metadata.id == fs[0].metadata.id);
                    } else if j == 0 && i > 0 {
                        assert(liverest[i - 1].metadata.id == fs[0].metadata.id);
                        assert(store_has_id(liverest, fs[0].metadata.id));
                        assert(store_has_id(rest, fs[0].metadata.id));
                        let m = choose|m: int|
                            0 <= m < rest.len() && #[trigger] rest[m].metadata.id
                                == fs[0].metadata.id;
                        assert(fs[m + 1].metadata.id == fs[0].metadata.id);
                    } else if i > 0 && j > 0 {
                        assert(liverest[i - 1].metadata.id == liverest[j - 1].metadata.id);
                    }
                }
            }
        }
    }
}

/// How the store changes under an upload that decoded and fit: either a
/// live entry with the same digest already served it (the store unchanged,
/// its metadata returned), or a new entry appears under the fresh id.
pub open spec fn file_upload_rel(
    files: Seq<FileEntryView>,
    post_files: Seq<FileEntryView>,
    file_id: Seq<char>,
    name: Seq<char>,
    mime: Seq<char>,
    bytes: Seq<u8>,
    now: u64,
    meta: FileMetadataView,
) -> bool {
    let sha = hex_of(sha256_of(bytes));
    if has_live_dup(files, sha, now) {
        exists|j: int|
            #[trigger] live_dup_at(files, j, sha, now) && (forall|k: int|
                0 <= k < j ==> !live_dup_at(files, k, sha, now)) && meta == files[j].metadata
                && post_files == files
    } else {
        &&& meta == (FileMetadataView {
            id: file_id,
            name,
            mime_type: mime,
            size: bytes.len() as usize,
            sha256: sha,
            uploaded_at: now,
            expires_at: expiry_of(now),
        })
        &&& post_files == files.push(FileEntryView { metadata: meta, content: bytes })
    }
}

/// Uploading the same bytes twice gives back the same file id and digest
/// exactly when the first upload has not expired by the second's clock.
/// Stated for a store whose entries with the bytes' digest, if any, had all
/// expired by the first upload's clock, and a second upload no earlier than
/// the first.
pub proof fn lemma_upload_dedup(
    fs0: Seq<FileEntryView>,
    fs1: Seq<FileEntryView>,
    fs2: Seq<FileEntryView>,
    id1: Seq<char>,
    id2: Seq<char>,
    name1: Seq<char>,
    name2: Seq<char>,
    mime1: Seq<char>,
    mime2: Seq<char>,
    bytes: Seq<u8>,
    t1: u64,
    t2: u64,
    meta1: FileMetadataView,
    meta2: FileMetadataView,
)
    requires
        forall|j: int|
            0 <= j < fs0.len() && #[trigger] fs0[j].metadata.sha256 == hex_of(sha256_of(bytes))
                ==> t1 > fs0[j].metadata.expires_at,
        t1 <= t2,
        !store_has_id(fs1, id2),
        file_upload_rel(fs0, fs1, id1, name1, mime1, bytes, t1, meta1),
        file_upload_rel(fs1, fs2, id2, name2, mime2, bytes, t2, meta2),
    ensures
        meta1.id == id1,
        meta2.sha256 == meta1.sha256,
        t2 <= meta1.expires_at ==> meta2 == meta1,
        t2 > meta1.expires_at ==> meta2.id == id2 && meta2.id != id1,
{
    let sha = hex_of(sha256_of(bytes));
    if has_live_dup(fs0, sha, t1) {
        let w = choose|w: int| #[trigger] live_dup_at(fs0, w, sha, t1);
        assert(fs0[w].metadata.sha256 == sha);
        assert(t1 <= fs0[w].metadata.expires_at);
        assert(false);
    }
    assert(meta1.id == id1);
    assert(fs1 == fs0.push(FileEntryView { metadata: meta1, content: bytes }));
    let last = fs0.len() as int;
    assert(fs1[last].metadata == meta1);
    assert(fs1[last].metadata.id == id1);
    assert(id2 != id1) by {
        if id2 == id1 {
            assert(store_has_id(fs1, id2));
        }
    }
    if t2 <= meta1.expires_at {
        assert(live_dup_at(fs1, last, sha, t2));
        assert(has_live_dup(fs1, sha, t2));
        let j = choose|j: int|
            #[trigger] live_dup_at(fs1, j, sha, t2) && (forall|k: int|
                0 <= k < j ==> !live_dup_at(fs1, k, sha, t2)) && meta2 == fs1[j].metadata && fs2
                == fs1;
        if j < last {
            assert(fs0[j].metadata.sha256 == sha);
            assert(t1 > fs0[j].metadata.expires_at);
            assert(t2 <= fs1[j].metadata.expires_at);
        }
        assert(j == last);
        assert(meta2 == meta1);
    } else {
        if has_live_dup(fs1, sha, t2) {
            let j = choose|j: int| #[trigger] live_dup_at(fs1, j, sha, t2);
            if j < last {
                assert(fs0[j].metadata.sha256 == sha);
                assert(t1 > fs0[j].metadata.expires_at);
                assert(t2 <= fs1[j].metadata.expires_at);
            }
            assert(false);
        }
        assert(meta2.id == id2);
    }
}

/// The in-memory store of ephemeral uploads.
pub struct FileManager {
    files: Vec<FileEntry>,
}

impl View for FileManager {
    type V = Seq<FileEntryView>;

    closed spec fn view(&self) -> Seq<FileEntryView> {
        self.files@.map_values(|e: FileEntry| e@)
    }
}

impl FileManager {
    /// An empty store.
    pub fn new() -> (r: FileManager)
        ensures
            r@.len() == 0,
            store_wf(r@),
    {
        let r = FileManager { files: Vec::new() };
        proof {
            assert(r@ =~= Seq::<FileEntryView>::empty());
        }
        r
    }

    /// Whether the store holds an entry under the given file id.
    pub fn contains_id(&self, id: &str) -> (r: bool)
        ensures
            r == store_has_id(self@, id@),
    {
        let n = self.files.len();
        let mut i: usize = 0;
        while i < n
            invariant
                n == self.files@.len(),
                i <= n,
                forall|j: int| 0 <= j < i ==> #[trigger] self@[j].metadata.id != id@,
            decreases n - i,
        {
            if str_eq(self.files[i].metadata.id.as_str(), id) {
                proof {
                    assert(self@[i as int].metadata.id == id@);
                }
                return true;
            }
            i = i + 1;
        }
        false
    }

    /// Stores an upload under a caller-supplied fresh id. Refuses content
    /// over the size cap. When an entry with the same digest is still live
    /// at `now_ms`, returns that entry's metadata unchanged and stores
    /// nothing: the upload deduplicates and the caller's name and type are
    /// discarded. Otherwise records the content under the new id, expiring
    /// one TTL after `now_ms`.
    pub fn upload_file(
        &mut self,
        id: String,
        name: String,
        mime_type: String,
        content: Vec<u8>,
        now_ms: u64,
    ) -> (r: Result<FileMetadata, UploadError>)
        requires
            store_wf(old(self)@),
            !store_has_id(old(self)@, id@),
        ensures
            store_wf(final (self)@),
            content@.len() > MAX_FILE_SIZE ==> r == Err::<FileMetadata, UploadError>(
                UploadError::FileTooLarge,
            ) && final (self)@ == old(self)@,
            content@.len() <= MAX_FILE_SIZE ==> r is Ok,
            (content@.len() <= MAX_FILE_SIZE && has_live_dup(
                old(self)@,
                hex_of(sha256_of(content@)),
                now_ms,
            )) ==> exists|j: int|
                #[trigger] live_dup_at(old(self)@, j, hex_of(sha256_of(content@)), now_ms) && (
                forall|k: int|
                    0 <= k < j ==> !live_dup_at(old(self)@, k, hex_of(sha256_of(content@)), now_ms))
                    && r.unwrap()@ == old(self)@[j].metadata && final (self)@ == old(self)@,
            (content@.len() <= MAX_FILE_SIZE && !has_live_dup(
                old(self)@,
                hex_of(sha256_of(content@)),
                now_ms,
            )) ==> r.unwrap()@ == (FileMetadataView {
                id: id@,
                name: name@,
                mime_type: mime_type@,
                size: content@.len() as usize,
                sha256: hex_of(sha256_of(content@)),
                uploaded_at: now_ms,
                expires_at: expiry_of(now_ms),
            }) && final (self)@ == old(self)@.push(
                FileEntryView { metadata: r.unwrap()@, content: content@ },
            ),
    {
        if content.len() > MAX_FILE_SIZE {
            return Err(UploadError::FileTooLarge);
        }
        let sha = sha256_hex(content.as_slice());
        let ghost sha_view = sha@;
        let n = self.files.len();
        let mut j: usize = 0;
        while j < n
            invariant
                *self == *old(self),
                store_wf(self@),
                n == self.files@.len(),
                j <= n,
                sha_view == sha@,
                sha_view == hex_of(sha256_of(content@)),
                content@.len() <= MAX_FILE_SIZE,
                forall|k: int| 0 <= k < j ==> !live_dup_at(self@, k, sha_view, now_ms),
            decreases n - j,
        {
            proof {
                assert(self@[j as int] == self.files@[j as int]@);
            }
            if str_eq(self.files[j].metadata.sha256.as_str(), sha.as_str()) {
                if now_ms <= self.files[j].metadata.expires_at {
                    proof {
                        assert(self@[j as int].metadata.sha256 == sha_view);
                        assert(live_dup_at(self@, j as int, sha_view, now_ms));
                    }
                    return Ok(self.files[j].metadata.clone());
                }
            }
            proof {
                assert(!live_dup_at(self@, j as int, sha_view, now_ms));
            }
            j = j + 1;
        }
        proof {
            if has_live_dup(self@, sha_view, now_ms) {
                let w = choose|w: int| #[trigger] live_dup_at(self@, w, sha_view, now_ms);
                assert(false);
            }
        }
        let expires_at = if now_ms > u64::MAX - FILE_TTL_MS {
            u64::MAX
        } else {
            now_ms + FILE_TTL_MS
        };
        let metadata = FileMetadata {
            id,
            name,
            mime_type,
            size: content.len(),
            sha256: sha,
            uploaded_at: now_ms,
            expires_at,
        };
        let returned = metadata.clone();
        let ghost old_fs = self@;
        let ghost new_entry = FileEntryView { metadata: metadata@, content: content@ };
        self.files.push(FileEntry { metadata, content });
        proof {
            assert(self@ =~= old_fs.push(new_entry));
            let fs = self@;
            assert forall|a: int, b: int|
                0 <= a < fs.len() && 0 <= b < fs.len() && #[trigger] fs[a].metadata.id
                    == #[trigger] fs[b].metadata.id implies a == b by {
                if a < fs.len() - 1 && b < fs.len() - 1 {
                    assert(old_fs[a].metadata.id == old_fs[b].metadata.id);
                } else if a == fs.len() - 1 && b < fs.len() - 1 {
                    assert(old_fs[b].metadata.id == id@);
                } else if b == fs.len() - 1 && a < fs.len() - 1 {
                    assert(old_fs[a].metadata.id == id@);
                }
            }
        }
        Ok(returned)
    }

    /// Retrieves an upload by id: its metadata and content, unless no entry
    /// carries the id or the entry has expired by `now_ms`. An expired entry
    /// still in the store is never served.
    pub fn get_file(&self, id: &str, now_ms: u64) -> (r: Option<(FileMetadata, Vec<u8>)>)
        requires
            store_wf(self@),
        ensures
            match r {
                Some(found) => exists|j: int|
                    0 <= j < self@.len() && #[trigger] self@[j].metadata.id == id@ && now_ms
                        <= self@[j].metadata.expires_at && found.0@ == self@[j].metadata && found.1@
                        == self@[j].content,
                None => forall|j: int|
                    0 <= j < self@.len() && #[trigger] self@[j].metadata.id == id@ ==> now_ms
                        > self@[j].metadata.expires_at,
            },
    {
        let n = self.files.len();
        let mut i: usize = 0;
        while i < n
            invariant
                store_wf(self@),
                n == self.files@.len(),
                i <= n,
                forall|j: int| 0 <= j < i ==> #[trigger] self@[j].metadata.id != id@,
            decreases n - i,
        {
            if str_eq(self.files[i].metadata.id.as_str(), id) {
                proof {
                    assert(self@[i as int].metadata.id == id@);
                }
                if now_ms > self.files[i].metadata.expires_at {
                    proof {
                        assert forall|j: int|
                            0 <= j < self@.len() && #[trigger] self@[j].metadata.id == id@
                            implies now_ms > self@[j].metadata.expires_at by {
                            assert(file_ids_distinct(self@));
                            assert(self@[j].metadata.id == self@[i as int].metadata.id);
                            assert(j == i as int);
                        }
                    }
                    return None;
                }
                let metadata = self.files[i].metadata.clone();
                let content = self.files[i].content.clone();
                proof {
                    assert(content@ =~= self@[i as int].content);
                }
                return Some((metadata, content));
            }
            i = i + 1;
        }
        None
    }

    /// Drops the entry under the given id, if one is there; the deferred
    /// eviction task fires this one TTL after the upload. Dropping twice is
    /// a no-op the second time.
    pub fn evict_file(&mut self, id: &str)
        requires
            store_wf(old(self)@),
        ensures
            store_wf(final (self)@),
            !store_has_id(old(self)@, id@) ==> final (self)@ == old(self)@,
            store_has_id(old(self)@, id@) ==> exists|k: int|
                0 <= k < old(self)@.len() && #[trigger] old(self)@[k].metadata.id == id@
                    && final (self)@ == old(self)@.remove(k),
            !store_has_id(final (self)@, id@),
    {
        let n = self.files.len();
        let mut i: usize = 0;
        while i < n
            invariant
                *self == *old(self),
                store_wf(self@),
                n == self.files@.len(),
                i <= n,
                forall|j: int| 0 <= j < i ==> #[trigger] self@[j].metadata.id != id@,
            decreases n - i,
        {
            if str_eq(self.files[i].metadata.id.as_str(), id) {
                let ghost old_fs = self@;
                let ghost ki = i as int;
                proof {
                    assert(old_fs[ki] == self.files@[ki]@);
                    assert(old_fs[ki].metadata.id == id@);
                    assert(file_ids_distinct(old_fs));
                }
                self.files.remove(i);
                proof {
                    assert(self@ =~= old_fs.remove(ki));
                    let fs = self@;
                    assert forall|a: int, b: int|
                        0 <= a < fs.len() && 0 <= b < fs.len() && #[trigger] fs[a].metadata.id
                            == #[trigger] fs[b].metadata.id implies a == b by {
                        let a0 = if a < ki {
                            a
                        } else {
                            a + 1
                        };
                        let b0 = if b < ki {
                            b
                        } else {
                            b + 1
                        };
                        assert(fs[a] == old_fs[a0]);
                        assert(fs[b] == old_fs[b0]);
                        assert(old_fs[a0].metadata.id == old_fs[b0].metadata.id);
                        assert(a0 == b0);
                    }
                    assert forall|k: int| 0 <= k < fs.len() implies #[trigger] fs[k].metadata.id
                        != id@ by {
                        let k0 = if k < ki {
                            k
                        } else {
                            k + 1
                        };
                        assert(fs[k] == old_fs[k0]);
                        if old_fs[k0].metadata.id == old_fs[ki].metadata.id {
                            assert(k0 == ki);
                        }
                    }
                }
                return ;
            }
            i = i + 1;
        }
        proof {
            if store_has_id(self@, id@) {
                let j = choose|j: int| 0 <= j < self@.len() && #[trigger] self@[j].metadata.id == id@;
                assert(false);
            }
        }
    }

    /// Sweeps every expired entry out of the store, keeping live entries in
    /// order.
    pub fn cleanup_expired_files(&mut self, now_ms: u64)
        requires
            store_wf(old(self)@),
        ensures
            final (self)@ == live_entries(old(self)@, now_ms),
            store_wf(final (self)@),
    {
        let ghost old_fs = self@;
        let n = self.files.len();
        let mut kept: Vec<FileEntry> = Vec::new();
        let mut i: usize = 0;
        proof {
            assert(old_fs.take(0) =~= Seq::<FileEntryView>::empty());
            assert(kept@.map_values(|e: FileEntry| e@) =~= Seq::<FileEntryView>::empty());
        }
        while i < n
            invariant
                n == self.files@.len(),
                i <= n,
                *self == *old(self),
                old_fs == self@,
                kept@.map_values(|e: FileEntry| e@) =~= live_entries(old_fs.take(i as int), now_ms),
            decreases n - i,
        {
            let ghost kept_prev = kept@;
            let expired = now_ms > self.files[i].metadata.expires_at;
            if !expired {
                let metadata = self.files[i].metadata.clone();
                let content = self.files[i].content.clone();
                let ghost entry_view = self@[i as int];
                kept.push(FileEntry { metadata, content });
                proof {
                    assert(kept@ =~= kept_prev.push(kept@[kept@.len() - 1]));
                    assert(kept@[kept@.len() - 1]@ =~= entry_view);
                    assert(kept@.map_values(|e: FileEntry| e@) =~= kept_prev.map_values(
                        |e: FileEntry| e@,
                    ).push(entry_view));
                }
            }
            proof {
                assert(old_fs.take(i + 1 as int) =~= old_fs.take(i as int).push(
                    old_fs[i as int],
                ));
                lemma_live_entries_push(old_fs.take(i as int), old_fs[i as int], now_ms);
                assert(kept@.map_values(|e: FileEntry| e@) =~= live_entries(
                    old_fs.take(i + 1 as int),
                    now_ms,
                ));
            }
            i = i + 1;
        }
        proof {
            assert(old_fs.take(n as int) =~= old_fs);
        }
        self.files = kept;
        proof {
            assert(self@ =~= live_entries(old_fs, now_ms));
            lemma_live_entries_props(old_fs, now_ms);
            let fs = self@;
            assert forall|k: int| 0 <= k < fs.len() implies entry_wf(#[trigger] fs[k]) by {
                assert(old_fs.contains(fs[k]));
                let m = choose|m: int| 0 <= m < old_fs.len() && old_fs[m] == fs[k];
                assert(entry_wf(old_fs[m]));
            }
        }
    }
}

} // verus!
