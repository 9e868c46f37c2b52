use vstd::prelude::*;

verus! {

/// Lifecycle of a batch, as persisted and as reported to the host.
#[derive(Clone, Copy, PartialEq, Eq, Structural, Debug)]
pub enum BatchStatus {
    Open,
    Uploading,
    Completed,
    PartialError,
}

/// Upload bookkeeping for one distinct file content within a batch.
#[derive(Debug)]
pub struct FileStatus {
    /// Remote recording identifier, assigned by the server; empty until
    /// preflight answers.
    pub recording_id: String,
    pub uploaded: bool,
    pub error: Option<String>,
    /// Server-issued upload token.
    pub upload_id: Option<String>,
    /// Object-store key for the raw upload.
    pub raw_r2_key: Option<String>,
    /// Part numbers whose upload the store has acknowledged.
    pub completed_parts: Option<Vec<u32>>,
    /// Storage-side multipart token, distinct from `upload_id`.
    pub multipart_upload_id: Option<String>,
}

/// Mathematical image of a [`FileStatus`].
pub struct FileStatusV {
    pub recording_id: Seq<char>,
    pub uploaded: bool,
    pub error: Option<Seq<char>>,
    pub upload_id: Option<Seq<char>>,
    pub raw_r2_key: Option<Seq<char>>,
    pub completed_parts: Option<Seq<u32>>,
    pub multipart_upload_id: Option<Seq<char>>,
}

pub open spec fn opt_str_view(o: Option<String>) -> Option<Seq<char>> {
    match o {
        Some(s) => Some(s@),
        None => None,
    }
}

pub open spec fn opt_parts_view(o: Option<Vec<u32>>) -> Option<Seq<u32>> {
    match o {
        Some(v) => Some(v@),
        None => None,
    }
}

impl View for FileStatus {
    type V = FileStatusV;

    open spec fn view(&self) -> FileStatusV {
        FileStatusV {
            recording_id: self.recording_id@,
            uploaded: self.uploaded,
            error: opt_str_view(self.error),
            upload_id: opt_str_view(self.upload_id),
            raw_r2_key: opt_str_view(self.raw_r2_key),
            completed_parts: opt_parts_view(self.completed_parts),
            multipart_upload_id: opt_str_view(self.multipart_upload_id),
        }
    }
}

/// The status a file carries right after staging, before preflight.
pub open spec fn pending_status() -> FileStatusV {
    FileStatusV {
        recording_id: Seq::<char>::empty(),
        uploaded: false,
        error: None,
        upload_id: None,
        raw_r2_key: None,
        completed_parts: None,
        multipart_upload_id: None,
    }
}

impl FileStatus {
    /// The record inserted when a file has been staged and hashed but the
    /// server has not yet been asked about it.
    pub fn new_pending() -> (r: FileStatus)
        ensures
            r@ == pending_status(),
    {
        FileStatus {
            recording_id: String::new(),
            uploaded: false,
            error: None,
            upload_id: None,
            raw_r2_key: None,
            completed_parts: None,
            multipart_upload_id: None,
        }
    }

    /// A field-for-field copy.
    pub fn duplicate(&self) -> (r: FileStatus)
        ensures
            r@ == self@,
    {
        FileStatus {
            recording_id: self.recording_id.clone(),
            uploaded: self.uploaded,
            error: clone_opt_string(&self.error),
            upload_id: clone_opt_string(&self.upload_id),
            raw_r2_key: clone_opt_string(&self.raw_r2_key),
            completed_parts: clone_opt_parts(&self.completed_parts),
            multipart_upload_id: clone_opt_string(&self.multipart_upload_id),
        }
    }
}

pub(crate) fn clone_opt_string(o: &Option<String>) -> (r: Option<String>)
    ensures
        opt_str_view(r) == opt_str_view(*o),
{
    match o {
        Some(s) => Some(s.clone()),
        None => None,
    }
}

fn clone_opt_parts(o: &Option<Vec<u32>>) -> (r: Option<Vec<u32>>)
    ensures
        opt_parts_view(r) == opt_parts_view(*o),
{
    match o {
        Some(v) => {
            let mut c: Vec<u32> = Vec::new();
            let mut i: usize = 0;
            while i < v.len()
                invariant
                    i <= v.len(),
                    c@ == v@.subrange(0, i as int),
                decreases v.len() - i,
            {
                c.push(v[i]);
                i = i + 1;
            }
            proof {
                assert(c@ =~= v@);
            }
            Some(c)
        },
        None => None,
    }
}

/// One staged file keyed by its content hash.
#[derive(Debug)]
pub struct FileEntry {
    pub sha256: String,
    pub status: FileStatus,
}

/// Persisted state of one batch.
#[derive(Debug)]
pub struct BatchState {
    pub status: BatchStatus,
    pub device_id: String,
    /// Keyed by content hash; keys are unique.
    pub files: Vec<FileEntry>,
}

/// Mathematical image of a [`BatchState`]: files as a sequence of
/// hash-status pairs with pairwise distinct hashes.
pub struct BatchStateV {
    pub status: BatchStatus,
    pub device_id: Seq<char>,
    pub files: Seq<(Seq<char>, FileStatusV)>,
}

impl View for BatchState {
    type V = BatchStateV;

    open spec fn view(&self) -> BatchStateV {
        BatchStateV {
            status: self.status,
            device_id: self.device_id@,
            files: self.files@.map_values(|e: FileEntry| (e.sha256@, e.status@)),
        }
    }
}

/// Pairwise distinct keys in an association sequence.
pub open spec fn keys_unique<T>(s: Seq<(Seq<char>, T)>) -> bool {
    forall|i: int, j: int| 0 <= i < j < s.len() ==> (#[trigger] s[i]).0 != (#[trigger] s[j]).0
}

/// Some entry carries the key.
pub open spec fn has_key<T>(s: Seq<(Seq<char>, T)>, k: Seq<char>) -> bool {
    exists|i: int| 0 <= i < s.len() && (#[trigger] s[i]).0 == k
}

/// The index of the entry carrying the key, when there is one.
pub open spec fn key_index<T>(s: Seq<(Seq<char>, T)>, k: Seq<char>) -> int {
    choose|i: int| 0 <= i < s.len() && (#[trigger] s[i]).0 == k
}

pub proof fn lemma_key_index_unique<T>(s: Seq<(Seq<char>, T)>, k: Seq<char>, i: int)
    requires
        keys_unique(s),
        0 <= i < s.len(),
        s[i].0 == k,
    ensures
        has_key(s, k),
        key_index(s, k) == i,
{
    assert(has_key(s, k));
    let j = key_index(s, k);
    if i < j {
        assert(s[i].0 != s[j].0);
    } else if j < i {
        assert(s[j].0 != s[i].0);
    }
}

/// Character-for-character equality of two string slices.
pub fn str_eq(a: &str, b: &str) -> (r: bool)
    ensures
        r == (a@ == b@),
{
    let na = a.unicode_len();
    let nb = b.unicode_len();
    if na != nb {
        return false;
    }
    let mut i: usize = 0;
    while i < na
        invariant
            i <= na,
            na == a@.len(),
            na == b@.len(),
            forall|k: int| 0 <= k < i ==> a@[k] == b@[k],
        decreases na - i,
    {
        if a.get_char(i) != b.get_char(i) {
            return false;
        }
        i = i + 1;
    }
    proof {
        assert(a@ =~= b@);
    }
    true
}

impl BatchState {
    /// A batch as created at ingest start: open, no files yet.
    pub fn new_open(device_id: String) -> (r: BatchState)
        ensures
            r@.status is Open,
            r@.device_id == device_id@,
            r@.files == Seq::<(Seq<char>, FileStatusV)>::empty(),
    {
        let r = BatchState { status: BatchStatus::Open, device_id, files: Vec::new() };
        proof {
            assert(r@.files =~= Seq::<(Seq<char>, FileStatusV)>::empty());
        }
        r
    }

    /// Index of the entry for a content hash.
    fn find_file(&self, sha256: &str) -> (r: Option<usize>)
        ensures
            match r {
                Some(i) => i < self@.files.len() && self@.files[i as int].0 == sha256@,
                None => !has_key(self@.files, sha256@),
            },
    {
        let mut i: usize = 0;
        while i < self.files.len()
            invariant
                i <= self.files.len(),
                self@.files.len() == self.files.len(),
                forall|k: int| 0 <= k < i ==> (#[trigger] self@.files[k]).0 != sha256@,
            decreases self.files.len() - i,
        {
            if str_eq(self.files[i].sha256.as_str(), sha256) {
                return Some(i);
            }
            i = i + 1;
        }
        None
    }

    /// Replaces the status stored for the entry at `i`.
    fn update_status_at(&mut self, i: usize, st: FileStatus)
        requires
            i < old(self).files@.len(),
        ensures
            final(self)@.status == old(self)@.status,
            final(self)@.device_id == old(self)@.device_id,
            final(self)@.files == old(self)@.files.update(
                i as int,
                (old(self)@.files[i as int].0, st@),
            ),
    {
        let sha = self.files[i].sha256.clone();
        self.files.set(i, FileEntry { sha256: sha, status: st });
        proof {
            assert(self@.files =~= old(self)@.files.update(
                i as int,
                (old(self)@.files[i as int].0, st@),
            ));
        }
    }

    /// Records a staged file under its content hash, resetting its status to
    /// pending. Identical content staged twice collapses to one entry.
    pub fn record_staged(&mut self, sha256: String)
        requires
            keys_unique(old(self)@.files),
        ensures
            keys_unique(final(self)@.files),
            final(self)@.status == old(self)@.status,
            final(self)@.device_id == old(self)@.device_id,
            has_key(old(self)@.files, sha256@) ==> final(self)@.files == old(self)@.files.update(
                key_index(old(self)@.files, sha256@),
                (sha256@, pending_status()),
            ),
            !has_key(old(self)@.files, sha256@) ==> final(self)@.files == old(self)@.files.push(
                (sha256@, pending_status()),
            ),
    {
        match self.find_file(sha256.as_str()) {
            Some(i) => {
                proof {
                    lemma_key_index_unique(self@.files, sha256@, i as int);
                }
                self.update_status_at(i, FileStatus::new_pending());
                proof {
                    let fs = self@.files;
                    let os = old(self)@.files;
                    assert forall|a: int, b: int| 0 <= a < b < fs.len() implies (#[trigger] fs[a]).0
                        != (#[trigger] fs[b]).0 by {
                        assert(os[a].0 == fs[a].0);
                        assert(os[b].0 == fs[b].0);
                    }
                }
            },
            None => {
                self.files.push(FileEntry { sha256, status: FileStatus::new_pending() });
                proof {
                    let fs = self@.files;
                    let os = old(self)@.files;
                    assert(fs =~= os.push((sha256@, pending_status())));
                    assert forall|a: int, b: int| 0 <= a < b < fs.len() implies (#[trigger] fs[a]).0
                        != (#[trigger] fs[b]).0 by {
                        if b < fs.len() - 1 {
                            assert(os[a].0 != os[b].0);
                        } else {
                            assert(!has_key(os, sha256@));
                            assert(os[a].0 != sha256@);
                        }
                    }
                }
            },
        }
    }
}

/// The status stored under a key.
pub open spec fn status_at(files: Seq<(Seq<char>, FileStatusV)>, k: Seq<char>) -> FileStatusV {
    files[key_index(files, k)].1
}

/// The association sequence after storing `st` under `k`; unchanged when the
/// key is absent.
pub open spec fn files_updated(
    files: Seq<(Seq<char>, FileStatusV)>,
    k: Seq<char>,
    st: FileStatusV,
) -> Seq<(Seq<char>, FileStatusV)> {
    if has_key(files, k) {
        files.update(key_index(files, k), (k, st))
    } else {
        files
    }
}

pub proof fn lemma_files_updated_wf(
    files: Seq<(Seq<char>, FileStatusV)>,
    k: Seq<char>,
    st: FileStatusV,
)
    requires
        keys_unique(files),
    ensures
        keys_unique(files_updated(files, k, st)),
        files_updated(files, k, st).len() == files.len(),
        forall|i: int|
            0 <= i < files.len() ==> (#[trigger] files_updated(files, k, st)[i]).0 == files[i].0,
{
    let r = files_updated(files, k, st);
    if has_key(files, k) {
        let idx = key_index(files, k);
        assert(0 <= idx < files.len() && files[idx].0 == k);
        assert forall|i: int| 0 <= i < files.len() implies (#[trigger] r[i]).0 == files[i].0 by {}
        assert forall|a: int, b: int| 0 <= a < b < r.len() implies (#[trigger] r[a]).0 != (
        #[trigger] r[b]).0 by {
            assert(files[a].0 != files[b].0);
        }
    }
}

/// `st` with the uploaded flag set.
pub open spec fn with_uploaded(st: FileStatusV) -> FileStatusV {
    FileStatusV { uploaded: true, ..st }
}

/// `st` carrying an error description.
pub open spec fn with_error(st: FileStatusV, msg: Seq<char>) -> FileStatusV {
    FileStatusV { error: Some(msg), ..st }
}

/// `st` merged with one preflight answer: identifiers from the server, and
/// uploaded already when the server knows the content.
pub open spec fn with_preflight(
    st: FileStatusV,
    recording_id: Seq<char>,
    upload_id: Option<Seq<char>>,
    raw_r2_key: Option<Seq<char>>,
    already_exists: bool,
) -> FileStatusV {
    FileStatusV {
        recording_id: recording_id,
        upload_id: upload_id,
        raw_r2_key: raw_r2_key,
        uploaded: already_exists,
        ..st
    }
}

/// `st` with one more acknowledged part number; unchanged when the part is
/// already recorded. The recorded list only ever grows.
pub open spec fn with_part(st: FileStatusV, part: u32) -> FileStatusV {
    let parts = match st.completed_parts {
        Some(p) => p,
        None => Seq::<u32>::empty(),
    };
    if parts.contains(part) {
        FileStatusV { completed_parts: Some(parts), ..st }
    } else {
        FileStatusV { completed_parts: Some(parts.push(part)), ..st }
    }
}

/// `st` with the storage-side multipart token recorded, unless one is
/// recorded already.
pub open spec fn with_multipart_id(st: FileStatusV, id: Seq<char>) -> FileStatusV {
    match st.multipart_upload_id {
        Some(_) => st,
        None => FileStatusV { multipart_upload_id: Some(id), ..st },
    }
}

impl BatchState {
    /// Stores `st` under `sha256` when that content hash is present.
    fn store_status(&mut self, sha256: &str, st: FileStatus) -> (found: bool)
        requires
            keys_unique(old(self)@.files),
        ensures
            keys_unique(final(self)@.files),
            final(self)@.status == old(self)@.status,
            final(self)@.device_id == old(self)@.device_id,
            final(self)@.files == files_updated(old(self)@.files, sha256@, st@),
            found == has_key(old(self)@.files, sha256@),
    {
        proof {
            lemma_files_updated_wf(old(self)@.files, sha256@, st@);
        }
        match self.find_file(sha256) {
            Some(i) => {
                proof {
                    lemma_key_index_unique(self@.files, sha256@, i as int);
                }
                self.update_status_at(i, st);
                true
            },
            None => false,
        }
    }

    /// The status currently stored under a content hash, copied out.
    pub fn status_of(&self, sha256: &str) -> (r: Option<FileStatus>)
        requires
            keys_unique(self@.files),
        ensures
            match r {
                Some(st) => has_key(self@.files, sha256@) && st@ == status_at(
                    self@.files,
                    sha256@,
                ),
                None => !has_key(self@.files, sha256@),
            },
    {
        match self.find_file(sha256) {
            Some(i) => {
                proof {
                    lemma_key_index_unique(self@.files, sha256@, i as int);
                }
                Some(self.files[i].status.duplicate())
            },
            None => None,
        }
    }

    /// Marks the file with this content hash as uploaded.
    pub fn mark_uploaded(&mut self, sha256: &str) -> (found: bool)
        requires
            keys_unique(old(self)@.files),
        ensures
            keys_unique(final(self)@.files),
            final(self)@.status == old(self)@.status,
            final(self)@.device_id == old(self)@.device_id,
            final(self)@.files == files_updated(
                old(self)@.files,
                sha256@,
                with_uploaded(status_at(old(self)@.files, sha256@)),
            ),
            found == has_key(old(self)@.files, sha256@),
    {
        match self.find_file(sha256) {
            Some(i) => {
                proof {
                    lemma_key_index_unique(self@.files, sha256@, i as int);
                }
                let mut st = self.files[i].status.duplicate();
                st.uploaded = true;
                self.store_status(sha256, st)
            },
            None => {
                proof {
                    lemma_files_updated_wf(old(self)@.files, sha256@, with_uploaded(
                        status_at(old(self)@.files, sha256@),
                    ));
                }
                false
            },
        }
    }

    /// Records an upload error on the file with this content hash.
    pub fn set_error(&mut self, sha256: &str, message: String) -> (found: bool)
        requires
            keys_unique(old(self)@.files),
        ensures
            keys_unique(final(self)@.files),
            final(self)@.status == old(self)@.status,
            final(self)@.device_id == old(self)@.device_id,
            final(self)@.files == files_updated(
                old(self)@.files,
                sha256@,
                with_error(status_at(old(self)@.files, sha256@), message@),
            ),
            found == has_key(old(self)@.files, sha256@),
    {
        match self.find_file(sha256) {
            Some(i) => {
                proof {
                    lemma_key_index_unique(self@.files, sha256@, i as int);
                }
                let mut st = self.files[i].status.duplicate();
                st.error = Some(message);
                self.store_status(sha256, st)
            },
            None => false,
        }
    }

    /// Merges one preflight answer into the file with this content hash.
    pub fn set_preflight(
        &mut self,
        sha256: &str,
        recording_id: String,
        upload_id: Option<String>,
        raw_r2_key: Option<String>,
        already_exists: bool,
    ) -> (found: bool)
        requires
            keys_unique(old(self)@.files),
        ensures
            keys_unique(final(self)@.files),
            final(self)@.status == old(self)@.status,
            final(self)@.device_id == old(self)@.device_id,
            final(self)@.files == files_updated(
                old(self)@.files,
                sha256@,
                with_preflight(
                    status_at(old(self)@.files, sha256@),
                    recording_id@,
                    opt_str_view(upload_id),
                    opt_str_view(raw_r2_key),
                    already_exists,
                ),
            ),
            found == has_key(old(self)@.files, sha256@),
    {
        match self.find_file(sha256) {
            Some(i) => {
                proof {
                    lemma_key_index_unique(self@.files, sha256@, i as int);
                }
                let mut st = self.files[i].status.duplicate();
                st.recording_id = recording_id;
                st.upload_id = upload_id;
                st.raw_r2_key = raw_r2_key;
                st.uploaded = already_exists;
                self.store_status(sha256, st)
            },
            None => false,
        }
    }

    /// Appends an acknowledged part number to the file's completed parts,
    /// unless it is already recorded: acknowledged progress never shrinks.
    pub fn append_completed_part(&mut self, sha256: &str, part: u32) -> (found: bool)
        requires
            keys_unique(old(self)@.files),
        ensures
            keys_unique(final(self)@.files),
            final(self)@.status == old(self)@.status,
            final(self)@.device_id == old(self)@.device_id,
            final(self)@.files == files_updated(
                old(self)@.files,
                sha256@,
                with_part(status_at(old(self)@.files, sha256@), part),
            ),
            found == has_key(old(self)@.files, sha256@),
    {
        match self.find_file(sha256) {
            Some(i) => {
                proof {
                    lemma_key_index_unique(self@.files, sha256@, i as int);
                }
                let mut st = self.files[i].status.duplicate();
                let mut parts: Vec<u32> = match st.completed_parts {
                    Some(p) => p,
                    None => Vec::new(),
                };
                proof {
                    if status_at(old(self)@.files, sha256@).completed_parts is None {
                        assert(parts@ =~= Seq::<u32>::empty());
                    }
                }
                let present = contains_part(&parts, part);
                if !present {
                    parts.push(part);
                }
                st.completed_parts = Some(parts);
                self.store_status(sha256, st)
            },
            None => false,
        }
    }

    /// Records the storage-side multipart token on the file, keeping any
    /// token recorded earlier.
    pub fn set_multipart_upload_id(&mut self, sha256: &str, id: String) -> (found: bool)
        requires
            keys_unique(old(self)@.files),
        ensures
            keys_unique(final(self)@.files),
            final(self)@.status == old(self)@.status,
            final(self)@.device_id == old(self)@.device_id,
            final(self)@.files == files_updated(
                old(self)@.files,
                sha256@,
                with_multipart_id(status_at(old(self)@.files, sha256@), id@),
            ),
            found == has_key(old(self)@.files, sha256@),
    {
        match self.find_file(sha256) {
            Some(i) => {
                proof {
                    lemma_key_index_unique(self@.files, sha256@, i as int);
                }
                let mut st = self.files[i].status.duplicate();
                if st.multipart_upload_id.is_none() {
                    st.multipart_upload_id = Some(id);
                }
                self.store_status(sha256, st)
            },
            None => false,
        }
    }
}

/// Linear membership test for a part number.
pub fn contains_part(parts: &Vec<u32>, part: u32) -> (r: bool)
    ensures
        r == parts@.contains(part),
{
    let mut i: usize = 0;
    while i < parts.len()
        invariant
            i <= parts.len(),
            forall|k: int| 0 <= k < i ==> parts@[k] != part,
        decreases parts.len() - i,
    {
        if parts[i] == part {
            assert(parts@.contains(part));
            return true;
        }
        i = i + 1;
    }
    false
}

/// Every file of the batch has been uploaded (or acknowledged as already
/// present on the server).
pub open spec fn all_uploaded(files: Seq<(Seq<char>, FileStatusV)>) -> bool {
    forall|i: int| 0 <= i < files.len() ==> (#[trigger] files[i]).1.uploaded
}

/// Some file of the batch carries an error.
pub open spec fn has_error(files: Seq<(Seq<char>, FileStatusV)>) -> bool {
    exists|i: int| 0 <= i < files.len() && (#[trigger] files[i]).1.error is Some
}

/// The status a batch ends in: `Completed` when everything is uploaded,
/// `PartialError` when something failed, `Uploading` when work remains
/// without a hard error.
pub open spec fn spec_derive_status(files: Seq<(Seq<char>, FileStatusV)>) -> BatchStatus {
    if all_uploaded(files) {
        BatchStatus::Completed
    } else if has_error(files) {
        BatchStatus::PartialError
    } else {
        BatchStatus::Uploading
    }
}

/// A batch's derived status is `Completed` exactly when every file in it has
/// been uploaded.
pub proof fn lemma_completed_iff_all_uploaded(files: Seq<(Seq<char>, FileStatusV)>)
    ensures
        spec_derive_status(files) is Completed <==> all_uploaded(files),
{
}

impl BatchState {
    /// A field-for-field copy.
    pub fn duplicate(&self) -> (r: BatchState)
        ensures
            r@ == self@,
    {
        let mut files: Vec<FileEntry> = Vec::new();
        let mut i: usize = 0;
        while i < self.files.len()
            invariant
                i <= self.files.len(),
                files@.len() == i,
                forall|k: int|
                    0 <= k < i ==> (#[trigger] files@[k]).sha256@ == self.files@[k].sha256@
                        && files@[k].status@ == self.files@[k].status@,
            decreases self.files.len() - i,
        {
            files.push(
                FileEntry {
                    sha256: self.files[i].sha256.clone(),
                    status: self.files[i].status.duplicate(),
                },
            );
            i = i + 1;
        }
        let r = BatchState {
            status: self.status,
            device_id: self.device_id.clone(),
            files,
        };
        proof {
            assert(r@.files =~= self@.files);
        }
        r
    }

    /// Computes the status this batch should end in.
    pub fn derive_status(&self) -> (r: BatchStatus)
        ensures
            r == spec_derive_status(self@.files),
            r is Completed <==> all_uploaded(self@.files),
    {
        let mut every: bool = true;
        let mut any_err: bool = false;
        let mut i: usize = 0;
        while i < self.files.len()
            invariant
                i <= self.files.len(),
                self@.files.len() == self.files.len(),
                every <==> (forall|k: int|
                    0 <= k < i ==> (#[trigger] self@.files[k]).1.uploaded),
                any_err <==> (exists|k: int|
                    0 <= k < i && (#[trigger] self@.files[k]).1.error is Some),
            decreases self.files.len() - i,
        {
            proof {
                assert(self@.files[i as int] == (self.files@[i as int].sha256@,
                self.files@[i as int].status@));
            }
            if !self.files[i].status.uploaded {
                every = false;
            }
            if self.files[i].status.error.is_some() {
                any_err = true;
            }
            i = i + 1;
        }
        if every {
            BatchStatus::Completed
        } else if any_err {
            BatchStatus::PartialError
        } else {
            BatchStatus::Uploading
        }
    }
}

/// One batch keyed by its generated batch id.
#[derive(Debug)]
pub struct BatchEntry {
    pub batch_id: String,
    pub state: BatchState,
}

/// The whole persisted state of the agent: every known batch, keyed by
/// batch id.
#[derive(Debug)]
pub struct AppState {
    pub batches: Vec<BatchEntry>,
}

/// Mathematical image of an [`AppState`].
pub struct AppStateV {
    pub batches: Seq<(Seq<char>, BatchStateV)>,
}

impl View for AppState {
    type V = AppStateV;

    open spec fn view(&self) -> AppStateV {
        AppStateV { batches: self.batches@.map_values(|e: BatchEntry| (e.batch_id@, e.state@)) }
    }
}

/// Batch ids unique, and every batch's file keys unique.
pub open spec fn app_wf(s: AppStateV) -> bool {
    &&& keys_unique(s.batches)
    &&& forall|i: int| 0 <= i < s.batches.len() ==> keys_unique((#[trigger] s.batches[i]).1.files)
}

/// The batch stored under an id.
pub open spec fn batch_at(batches: Seq<(Seq<char>, BatchStateV)>, id: Seq<char>) -> BatchStateV {
    batches[key_index(batches, id)].1
}

/// The batch sequence after storing `b` under `id`; unchanged when the id is
/// absent.
pub open spec fn batches_updated(
    batches: Seq<(Seq<char>, BatchStateV)>,
    id: Seq<char>,
    b: BatchStateV,
) -> Seq<(Seq<char>, BatchStateV)> {
    if has_key(batches, id) {
        batches.update(key_index(batches, id), (id, b))
    } else {
        batches
    }
}

/// The id occurs in the listed ids.
pub open spec fn id_listed(r: Seq<String>, id: Seq<char>) -> bool {
    exists|k: int| 0 <= k < r.len() && (#[trigger] r[k])@ == id
}

/// The id names some batch whose files are all uploaded.
pub open spec fn id_completed_in(batches: Seq<(Seq<char>, BatchStateV)>, id: Seq<char>) -> bool {
    exists|j: int|
        0 <= j < batches.len() && (#[trigger] batches[j]).0 == id && all_uploaded(
            batches[j].1.files,
        )
}

proof fn lemma_id_listed_push(r: Seq<String>, x: String, id: Seq<char>)
    requires
        id_listed(r, id),
    ensures
        id_listed(r.push(x), id),
{
    let k = choose|k: int| 0 <= k < r.len() && (#[trigger] r[k])@ == id;
    assert(r.push(x)[k]@ == id);
}

impl AppState {
    /// The agent's state before anything was ever ingested.
    pub fn new_empty() -> (r: AppState)
        ensures
            r@.batches == Seq::<(Seq<char>, BatchStateV)>::empty(),
            app_wf(r@),
    {
        let r = AppState { batches: Vec::new() };
        proof {
            assert(r@.batches =~= Seq::<(Seq<char>, BatchStateV)>::empty());
        }
        r
    }

    /// Index of the entry for a batch id.
    pub(crate) fn find_batch_index(&self, batch_id: &str) -> (r: Option<usize>)
        ensures
            match r {
                Some(i) => i < self@.batches.len() && self@.batches[i as int].0 == batch_id@,
                None => !has_key(self@.batches, batch_id@),
            },
    {
        let mut i: usize = 0;
        while i < self.batches.len()
            invariant
                i <= self.batches.len(),
                self@.batches.len() == self.batches.len(),
                forall|k: int| 0 <= k < i ==> (#[trigger] self@.batches[k]).0 != batch_id@,
            decreases self.batches.len() - i,
        {
            if str_eq(self.batches[i].batch_id.as_str(), batch_id) {
                return Some(i);
            }
            i = i + 1;
        }
        None
    }

    /// True when the id names a known batch.
    pub fn has_batch(&self, batch_id: &str) -> (r: bool)
        ensures
            r == has_key(self@.batches, batch_id@),
    {
        match self.find_batch_index(batch_id) {
            Some(i) => {
                proof {
                    assert(has_key(self@.batches, batch_id@));
                }
                true
            },
            None => false,
        }
    }

    /// Registers a batch as freshly opened for a device, replacing any batch
    /// that carried the same id.
    pub fn insert_open_batch(&mut self, batch_id: String, device_id: String)
        requires
            app_wf(old(self)@),
        ensures
            app_wf(final(self)@),
            ({
                let b = BatchStateV {
                    status: BatchStatus::Open,
                    device_id: device_id@,
                    files: Seq::<(Seq<char>, FileStatusV)>::empty(),
                };
                if has_key(old(self)@.batches, batch_id@) {
                    final(self)@.batches == old(self)@.batches.update(
                        key_index(old(self)@.batches, batch_id@),
                        (batch_id@, b),
                    )
                } else {
                    final(self)@.batches == old(self)@.batches.push((batch_id@, b))
                }
            }),
    {
        let entry = BatchEntry { batch_id, state: BatchState::new_open(device_id) };
        match self.find_batch_index(entry.batch_id.as_str()) {
            Some(i) => {
                proof {
                    lemma_key_index_unique(self@.batches, entry.batch_id@, i as int);
                }
                let ghost old_batches = self@.batches;
                let ghost k = entry.batch_id@;
                let ghost b = entry.state@;
                self.batches.set(i, entry);
                proof {
                    assert(self@.batches =~= old_batches.update(i as int, (k, b)));
                    assert forall|a: int, c: int| 0 <= a < c < self@.batches.len() implies (
                    #[trigger] self@.batches[a]).0 != (#[trigger] self@.batches[c]).0 by {
                        assert(old_batches[a].0 == self@.batches[a].0);
                        assert(old_batches[c].0 == self@.batches[c].0);
                    }
                }
            },
            None => {
                let ghost old_batches = self@.batches;
                let ghost k = entry.batch_id@;
                let ghost b = entry.state@;
                self.batches.push(entry);
                proof {
                    assert(self@.batches =~= old_batches.push((k, b)));
                    assert forall|a: int, c: int| 0 <= a < c < self@.batches.len() implies (
                    #[trigger] self@.batches[a]).0 != (#[trigger] self@.batches[c]).0 by {
                        if c < self@.batches.len() - 1 {
                            assert(old_batches[a].0 != old_batches[c].0);
                        } else {
                            assert(!has_key(old_batches, k));
                            assert(old_batches[a].0 != k);
                        }
                    }
                }
            },
        }
    }

    /// Sets the lifecycle status of a batch.
    pub fn set_batch_status(&mut self, batch_id: &str, status: BatchStatus) -> (found: bool)
        requires
            app_wf(old(self)@),
        ensures
            app_wf(final(self)@),
            final(self)@.batches == batches_updated(
                old(self)@.batches,
                batch_id@,
                (BatchStateV { status: status, ..batch_at(old(self)@.batches, batch_id@) }),
            ),
            found == has_key(old(self)@.batches, batch_id@),
    {
        match self.find_batch_index(batch_id) {
            Some(i) => {
                proof {
                    lemma_key_index_unique(self@.batches, batch_id@, i as int);
                }
                let ghost old_batches = self@.batches;
                let mut e = self.batches.remove(i);
                e.state.status = status;
                self.batches.insert(i, e);
                proof {
                    assert(self@.batches =~= batches_updated(
                        old_batches,
                        batch_id@,
                        (BatchStateV { status: status, ..batch_at(old_batches, batch_id@) }),
                    ));
                    assert forall|a: int, c: int| 0 <= a < c < self@.batches.len() implies (
                    #[trigger] self@.batches[a]).0 != (#[trigger] self@.batches[c]).0 by {
                        assert(old_batches[a].0 == self@.batches[a].0);
                        assert(old_batches[c].0 == self@.batches[c].0);
                    }
                }
                true
            },
            None => false,
        }
    }

    /// The derived final status of a batch, or `None` for an unknown id.
    pub fn batch_derived_status(&self, batch_id: &str) -> (r: Option<BatchStatus>)
        requires
            app_wf(self@),
        ensures
            match r {
                Some(st) => has_key(self@.batches, batch_id@) && st == spec_derive_status(
                    batch_at(self@.batches, batch_id@).files,
                ),
                None => !has_key(self@.batches, batch_id@),
            },
    {
        match self.find_batch_index(batch_id) {
            Some(i) => {
                proof {
                    lemma_key_index_unique(self@.batches, batch_id@, i as int);
                    assert(self@.batches[i as int].1 == self.batches@[i as int].state@);
                }
                Some(self.batches[i].state.derive_status())
            },
            None => None,
        }
    }

    /// A deep copy, taken under the host's lock and persisted outside it.
    pub fn snapshot(&self) -> (r: AppState)
        ensures
            r@ == self@,
    {
        let mut batches: Vec<BatchEntry> = Vec::new();
        let mut i: usize = 0;
        while i < self.batches.len()
            invariant
                i <= self.batches.len(),
                batches@.len() == i,
                forall|k: int|
                    0 <= k < i ==> (#[trigger] batches@[k]).batch_id@ == self.batches@[k].batch_id@
                        && batches@[k].state@ == self.batches@[k].state@,
            decreases self.batches.len() - i,
        {
            batches.push(
                BatchEntry {
                    batch_id: self.batches[i].batch_id.clone(),
                    state: self.batches[i].state.duplicate(),
                },
            );
            i = i + 1;
        }
        let r = AppState { batches };
        proof {
            assert(r@.batches =~= self@.batches);
        }
        r
    }

    /// Ids of every batch whose files are all uploaded: the batches that a
    /// cleanup pass may remove.
    pub fn completed_batch_ids(&self) -> (r: Vec<String>)
        ensures
            forall|k: int|
                0 <= k < r@.len() ==> id_completed_in(self@.batches, (#[trigger] r@[k])@),
            forall|i: int|
                0 <= i < self@.batches.len() && all_uploaded((#[trigger] self@.batches[i]).1.files)
                    ==> id_listed(r@, self@.batches[i].0),
    {
        let mut r: Vec<String> = Vec::new();
        let mut i: usize = 0;
        while i < self.batches.len()
            invariant
                i <= self.batches.len(),
                self@.batches.len() == self.batches.len(),
                forall|k: int|
                    0 <= k < r@.len() ==> id_completed_in(self@.batches, (#[trigger] r@[k])@),
                forall|j: int|
                    0 <= j < i && all_uploaded((#[trigger] self@.batches[j]).1.files) ==> id_listed(
                        r@,
                        self@.batches[j].0,
                    ),
            decreases self.batches.len() - i,
        {
            proof {
                assert(self@.batches[i as int] == (self.batches@[i as int].batch_id@,
                self.batches@[i as int].state@));
            }
            let ghost r_before = r@;
            let st = self.batches[i].state.derive_status();
            if st == BatchStatus::Completed {
                r.push(self.batches[i].batch_id.clone());
                proof {
                    assert(r@ == r_before.push(r@[r@.len() - 1]));
                    assert(self@.batches[i as int].0 == r@[r@.len() - 1]@);
                    assert(id_completed_in(self@.batches, r@[r@.len() - 1]@));
                    assert(id_listed(r@, self@.batches[i as int].0));
                    assert forall|j: int|
                        0 <= j < i + 1 && all_uploaded(
                            (#[trigger] self@.batches[j]).1.files,
                        ) implies id_listed(r@, self@.batches[j].0) by {
                        if j < i {
                            lemma_id_listed_push(r_before, r@[r@.len() - 1], self@.batches[j].0);
                        }
                    }
                }
            }
            i = i + 1;
        }
        r
    }

    /// Forgets a batch. The staged files on disk are the host's to delete.
    pub fn remove_batch(&mut self, batch_id: &str) -> (found: bool)
        requires
            app_wf(old(self)@),
        ensures
            app_wf(final(self)@),
            has_key(old(self)@.batches, batch_id@) ==> final(self)@.batches == old(
                self,
            )@.batches.remove(key_index(old(self)@.batches, batch_id@)),
            !has_key(old(self)@.batches, batch_id@) ==> final(self)@.batches == old(self)@.batches,
            found == has_key(old(self)@.batches, batch_id@),
    {
        match self.find_batch_index(batch_id) {
            Some(i) => {
                proof {
                    lemma_key_index_unique(self@.batches, batch_id@, i as int);
                }
                let ghost old_batches = self@.batches;
                let _ = self.batches.remove(i);
                proof {
                    assert(self@.batches =~= old_batches.remove(i as int));
                    assert forall|a: int, c: int| 0 <= a < c < self@.batches.len() implies (
                    #[trigger] self@.batches[a]).0 != (#[trigger] self@.batches[c]).0 by {
                        let oa: int = if a < i { a } else { a + 1 };
                        let oc: int = if c < i { c } else { c + 1 };
                        assert(old_batches[oa].0 == self@.batches[a].0);
                        assert(old_batches[oc].0 == self@.batches[c].0);
                        assert(old_batches[oa].0 != old_batches[oc].0);
                    }
                }
                true
            },
            None => false,
        }
    }
}

/// The state structure the host manages: it wraps this in its own lock and
/// hands the library exclusive references for each short mutation.
pub struct ManagedStateInner {
    pub inner: AppState,
}

/// Wraps a loaded state for management by the host.
pub fn new_managed_state(state: AppState) -> (r: ManagedStateInner)
    ensures
        r.inner@ == state@,
{
    ManagedStateInner { inner: state }
}

} // verus!
