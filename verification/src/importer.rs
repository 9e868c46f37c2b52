use vstd::prelude::*;
use crate::api_client::{PreflightResult, PreflightResultV, PreflightStatus};
use crate::error::AppError;
use crate::state::{
    app_wf, batch_at, batches_updated, clone_opt_string, files_updated, has_key, key_index,
    keys_unique, lemma_key_index_unique, status_at, str_eq, with_preflight, AppState, BatchStateV,
};

verus! {

/// One file handed to the manual upload entry point by the host's file
/// picker.
#[derive(Debug)]
pub struct ManualUploadFile {
    pub path: String,
    pub name: String,
    pub size_bytes: u64,
}

/// An ASCII decimal digit.
pub open spec fn is_digit(c: char) -> bool {
    48 <= c as u32 <= 57
}

/// A lowercase ASCII letter or digit: the alphabet of the random id suffix.
pub open spec fn is_rand_char(c: char) -> bool {
    (97 <= c as u32 <= 122) || (48 <= c as u32 <= 57)
}

/// A well-formed batch id: `batch-`, 14 digits of a compact UTC timestamp,
/// `-`, and 6 random lowercase alphanumerics.
pub open spec fn is_valid_batch_id(s: Seq<char>) -> bool {
    &&& s.len() == 27
    &&& s.subrange(0, 6) == "batch-"@
    &&& forall|i: int| 6 <= i < 20 ==> is_digit(#[trigger] s[i])
    &&& s[20] == '-'
    &&& forall|i: int| 21 <= i < 27 ==> is_rand_char(#[trigger] s[i])
}

/// The alphabet random suffix characters are drawn from.
pub open spec fn rand_table() -> Seq<char> {
    "abcdefghijklmnopqrstuvwxyz0123456789"@
}

/// The suffix character an entropy word picks.
pub open spec fn spec_rand_char(v: u64) -> char {
    rand_table()[(v % 36) as int]
}

proof fn lemma_rand_table_chars()
    ensures
        rand_table().len() == 36,
        forall|d: int| 0 <= d < 36 ==> is_rand_char(#[trigger] rand_table()[d]),
        vstd::utf8::is_ascii_chars(rand_table()),
{
    reveal_strlit("abcdefghijklmnopqrstuvwxyz0123456789");
}

/// Picks one character of the id alphabet from an entropy word.
pub fn rand_char(v: u64) -> (c: char)
    ensures
        c == spec_rand_char(v),
        is_rand_char(c),
{
    proof {
        lemma_rand_table_chars();
    }
    let table = "abcdefghijklmnopqrstuvwxyz0123456789";
    table.get_char((v % 36) as usize)
}

/// Relies on chrono's `DateTime::from_timestamp` and `DateTime::format`:
/// the compact `%Y%m%d%H%M%S` rendering of the current UTC time, read from
/// the system clock as seconds since the Unix epoch. Nothing is promised of
/// the clock's value; callers validate the shape of the result, and a clock
/// before the epoch or outside chrono's range yields an empty rendering,
/// which callers reject.
#[verifier::external_body]
pub(crate) fn utc_compact_timestamp() -> String {
    let secs = std::time::SystemTime::now()
        .duration_since(std::time::UNIX_EPOCH)
        .map(|d| d.as_secs())
        .unwrap_or(0);
    match i64::try_from(secs).ok().and_then(|s| chrono::DateTime::from_timestamp(s, 0)) {
        Some(dt) => format!("{}", dt.format("%Y%m%d%H%M%S")),
        None => String::new(),
    }
}

/// True when every character of the string is an ASCII decimal digit.
fn all_digits(s: &str) -> (r: bool)
    ensures
        r == (forall|i: int| 0 <= i < s@.len() ==> is_digit(#[trigger] s@[i])),
{
    let n = s.unicode_len();
    let mut i: usize = 0;
    while i < n
        invariant
            i <= n,
            n == s@.len(),
            forall|k: int| 0 <= k < i ==> is_digit(#[trigger] s@[k]),
        decreases n - i,
    {
        let u = s.get_char(i) as u32;
        if !(48 <= u && u <= 57) {
            return false;
        }
        i = i + 1;
    }
    true
}

/// Assembles a batch id from a timestamp rendering and six entropy words.
/// Succeeds exactly when the timestamp is 14 digits and enough entropy is
/// given; the result then matches the batch id shape.
pub fn build_batch_id(ts: &str, entropy: &Vec<u64>) -> (r: Option<String>)
    ensures
        r is Some <==> (ts@.len() == 14 && (forall|i: int|
            0 <= i < ts@.len() ==> is_digit(#[trigger] ts@[i])) && entropy@.len() >= 6),
        match r {
            Some(id) => {
                &&& is_valid_batch_id(id@)
                &&& id@ == "batch-"@ + ts@ + "-"@ + Seq::new(
                    6,
                    |k: int| spec_rand_char(entropy@[k]),
                )
            },
            None => true,
        },
{
    proof {
        lemma_rand_table_chars();
        reveal_strlit("batch-");
        reveal_strlit("-");
    }
    if entropy.len() < 6 {
        return None;
    }
    if ts.unicode_len() != 14 {
        return None;
    }
    if !all_digits(ts) {
        return None;
    }
    let table = "abcdefghijklmnopqrstuvwxyz0123456789";
    let mut id = String::from_str("batch-");
    id.append(ts);
    id.append("-");
    let ghost stem = "batch-"@ + ts@ + "-"@;
    proof {
        assert(id@ =~= stem);
    }
    let mut k: usize = 0;
    while k < 6
        invariant
            k <= 6,
            entropy@.len() >= 6,
            ts@.len() == 14,
            stem == "batch-"@ + ts@ + "-"@,
            stem.len() == 21,
            table@ == rand_table(),
            id@ == stem + Seq::new(k as nat, |j: int| spec_rand_char(entropy@[j])),
        decreases 6 - k,
    {
        proof {
            lemma_rand_table_chars();
        }
        let idx = (entropy[k] % 36) as usize;
        id.append(table.substring_ascii(idx, idx + 1));
        proof {
            assert(table@.subrange(idx as int, idx as int + 1) =~= Seq::new(
                1nat,
                |j: int| rand_table()[idx as int],
            ));
            assert(id@ =~= stem + Seq::new((k + 1) as nat, |j: int| spec_rand_char(entropy@[j])));
        }
        k = k + 1;
    }
    proof {
        let suffix = Seq::new(6, |j: int| spec_rand_char(entropy@[j]));
        assert(id@.len() == 27);
        assert(id@.subrange(0, 6) =~= "batch-"@);
        assert forall|i: int| 6 <= i < 20 implies is_digit(#[trigger] id@[i]) by {
            assert(id@[i] == ts@[i - 6]);
        }
        assert(id@[20] == '-');
        assert forall|i: int| 21 <= i < 27 implies is_rand_char(#[trigger] id@[i]) by {
            assert(id@[i] == suffix[i - 21]);
            assert(suffix[i - 21] == spec_rand_char(entropy@[i - 21]));
            lemma_rand_table_chars();
        }
    }
    Some(id)
}

/// One running import: its batch id and whether cancellation was requested.
#[derive(Debug)]
pub struct ActiveImport {
    pub batch_id: String,
    pub cancelled: bool,
}

/// The registry of running imports, keyed by batch id, beside the log of
/// every id this process has ever handed out. The host guards it with its
/// own lock; the cancel command writes the flag, the orchestrator polls it
/// at every checkpoint. Id generation checks the log, never pruned, so ids
/// handed out within one process run never collide, even after the import
/// they named has finished and left the active list.
#[derive(Debug)]
pub struct ImportRegistry {
    pub imports: Vec<ActiveImport>,
    pub issued: Vec<String>,
}

impl View for ImportRegistry {
    type V = Seq<(Seq<char>, bool)>;

    open spec fn view(&self) -> Seq<(Seq<char>, bool)> {
        self.imports@.map_values(|e: ActiveImport| (e.batch_id@, e.cancelled))
    }
}

/// Registered ids are pairwise distinct and every one is well formed.
pub open spec fn registry_wf(s: Seq<(Seq<char>, bool)>) -> bool {
    &&& keys_unique(s)
    &&& forall|i: int| 0 <= i < s.len() ==> is_valid_batch_id((#[trigger] s[i]).0)
}

/// The log of ever-issued ids holds no id twice.
pub open spec fn issued_wf(ids: Seq<Seq<char>>) -> bool {
    forall|i: int, j: int| 0 <= i < j < ids.len() ==> #[trigger] ids[i] != #[trigger] ids[j]
}

/// Ids handed out within one process run never collide, and each matches
/// the `batch-<14 digits>-<6 alphanumerics>` shape.
pub proof fn lemma_registry_ids_unique_and_valid(s: Seq<(Seq<char>, bool)>, i: int, j: int)
    requires
        registry_wf(s),
        0 <= i < s.len(),
        0 <= j < s.len(),
        i != j,
    ensures
        s[i].0 != s[j].0,
        is_valid_batch_id(s[i].0),
{
    if i < j {
        assert(s[i].0 != s[j].0);
    } else {
        assert(s[j].0 != s[i].0);
    }
}

/// Two ids the generator ever handed out in one process run differ: the
/// log keeps every issued id, and each new one is checked against it.
pub proof fn lemma_issued_ids_unique(ids: Seq<Seq<char>>, i: int, j: int)
    requires
        issued_wf(ids),
        0 <= i < ids.len(),
        0 <= j < ids.len(),
        i != j,
    ensures
        ids[i] != ids[j],
{
    if i < j {
        assert(ids[i] != ids[j]);
    } else {
        assert(ids[j] != ids[i]);
    }
}

impl ImportRegistry {
    /// The ids this registry has ever handed out.
    pub open spec fn issued_ids(&self) -> Seq<Seq<char>> {
        self.issued@.map_values(|s: String| s@)
    }

    /// A registry with no running import and nothing issued yet.
    pub fn new() -> (r: ImportRegistry)
        ensures
            r@ == Seq::<(Seq<char>, bool)>::empty(),
            registry_wf(r@),
            r.issued_ids() == Seq::<Seq<char>>::empty(),
            issued_wf(r.issued_ids()),
    {
        let r = ImportRegistry { imports: Vec::new(), issued: Vec::new() };
        proof {
            assert(r@ =~= Seq::<(Seq<char>, bool)>::empty());
            assert(r.issued_ids() =~= Seq::<Seq<char>>::empty());
        }
        r
    }

    /// True when the generator has ever handed out this id.
    fn issued_contains(&self, id: &str) -> (r: bool)
        ensures
            r == self.issued_ids().contains(id@),
    {
        let mut i: usize = 0;
        while i < self.issued.len()
            invariant
                i <= self.issued.len(),
                self.issued_ids().len() == self.issued.len(),
                forall|k: int| 0 <= k < i ==> self.issued_ids()[k] != id@,
            decreases self.issued.len() - i,
        {
            if str_eq(self.issued[i].as_str(), id) {
                proof {
                    assert(self.issued_ids()[i as int] == id@);
                }
                return true;
            }
            i = i + 1;
        }
        proof {
            if self.issued_ids().contains(id@) {
                let k = choose|k: int|
                    0 <= k < self.issued_ids().len() && self.issued_ids()[k] == id@;
                assert(self.issued_ids()[k] != id@);
            }
        }
        false
    }

    /// Index of the entry for a batch id.
    fn find(&self, batch_id: &str) -> (r: Option<usize>)
        ensures
            match r {
                Some(i) => i < self@.len() && self@[i as int].0 == batch_id@,
                None => !has_key(self@, batch_id@),
            },
    {
        let mut i: usize = 0;
        while i < self.imports.len()
            invariant
                i <= self.imports.len(),
                self@.len() == self.imports.len(),
                forall|k: int| 0 <= k < i ==> (#[trigger] self@[k]).0 != batch_id@,
            decreases self.imports.len() - i,
        {
            if str_eq(self.imports[i].batch_id.as_str(), batch_id) {
                return Some(i);
            }
            i = i + 1;
        }
        None
    }

    /// True when cancellation has been requested for this batch.
    pub fn is_cancelled(&self, batch_id: &str) -> (r: bool)
        requires
            registry_wf(self@),
        ensures
            r == (has_key(self@, batch_id@) && self@[key_index(self@, batch_id@)].1),
    {
        match self.find(batch_id) {
            Some(i) => {
                proof {
                    lemma_key_index_unique(self@, batch_id@, i as int);
                }
                self.imports[i].cancelled
            },
            None => false,
        }
    }

    /// Registers a fresh import under a valid, unused id. Refuses an id that
    /// is malformed or already active, leaving the registry unchanged.
    pub fn register(&mut self, batch_id: String) -> (ok: bool)
        requires
            registry_wf(old(self)@),
        ensures
            registry_wf(final(self)@),
            final(self).issued_ids() == old(self).issued_ids(),
            ok == (is_valid_batch_id(batch_id@) && !has_key(old(self)@, batch_id@)),
            ok ==> final(self)@ == old(self)@.push((batch_id@, false)),
            !ok ==> final(self)@ == old(self)@,
    {
        let valid = check_batch_id(batch_id.as_str());
        if !valid {
            return false;
        }
        match self.find(batch_id.as_str()) {
            Some(_) => {
                proof {
                    assert(has_key(self@, batch_id@));
                }
                false
            },
            None => {
                let ghost before = self@;
                let ghost k = batch_id@;
                self.imports.push(ActiveImport { batch_id, cancelled: false });
                proof {
                    assert(self@ =~= before.push((k, false)));
                    assert forall|a: int, b: int| 0 <= a < b < self@.len() implies (
                    #[trigger] self@[a]).0 != (#[trigger] self@[b]).0 by {
                        if b < self@.len() - 1 {
                            assert(before[a].0 != before[b].0);
                        } else {
                            assert(!has_key(before, k));
                            assert(before[a].0 != k);
                        }
                    }
                }
                true
            },
        }
    }

    /// Requests cancellation of a running import. The orchestrator observes
    /// the flag at its next checkpoint; an unknown id is reported as
    /// `NotFound`, exactly when no import runs under it.
    pub fn cancel_import(&mut self, batch_id: &str) -> (r: Result<(), AppError>)
        requires
            registry_wf(old(self)@),
        ensures
            registry_wf(final(self)@),
            final(self).issued_ids() == old(self).issued_ids(),
            r is Ok <==> has_key(old(self)@, batch_id@),
            r is Ok ==> final(self)@ == old(self)@.update(
                key_index(old(self)@, batch_id@),
                (batch_id@, true),
            ),
            r is Err ==> final(self)@ == old(self)@ && (r matches Err(AppError::NotFound(_))),
    {
        match self.find(batch_id) {
            Some(i) => {
                proof {
                    lemma_key_index_unique(self@, batch_id@, i as int);
                }
                let ghost before = self@;
                let id = self.imports[i].batch_id.clone();
                self.imports.set(i, ActiveImport { batch_id: id, cancelled: true });
                proof {
                    assert(self@ =~= before.update(i as int, (batch_id@, true)));
                    assert forall|a: int, b: int| 0 <= a < b < self@.len() implies (
                    #[trigger] self@[a]).0 != (#[trigger] self@[b]).0 by {
                        assert(before[a].0 == self@[a].0);
                        assert(before[b].0 == self@[b].0);
                    }
                    assert forall|a: int| 0 <= a < self@.len() implies is_valid_batch_id(
                        (#[trigger] self@[a]).0,
                    ) by {
                        assert(before[a].0 == self@[a].0);
                    }
                }
                Ok(())
            },
            None => {
                let mut m = String::from_str("No active import found for batch ");
                m.append(batch_id);
                Err(AppError::NotFound(m))
            },
        }
    }

    /// Drops the registry entry when an orchestrator exits, keeping batch
    /// state for resume.
    pub fn remove(&mut self, batch_id: &str) -> (found: bool)
        requires
            registry_wf(old(self)@),
        ensures
            registry_wf(final(self)@),
            final(self).issued_ids() == old(self).issued_ids(),
            found == has_key(old(self)@, batch_id@),
            found ==> final(self)@ == old(self)@.remove(key_index(old(self)@, batch_id@)),
            !found ==> final(self)@ == old(self)@,
    {
        match self.find(batch_id) {
            Some(i) => {
                proof {
                    lemma_key_index_unique(self@, batch_id@, i as int);
                }
                let ghost before = self@;
                let _ = self.imports.remove(i);
                proof {
                    assert(self@ =~= before.remove(i as int));
                    assert forall|a: int, b: int| 0 <= a < b < self@.len() implies (
                    #[trigger] self@[a]).0 != (#[trigger] self@[b]).0 by {
                        let oa: int = if a < i {
                            a
                        } else {
                            a + 1
                        };
                        let ob: int = if b < i {
                            b
                        } else {
                            b + 1
                        };
                        assert(before[oa].0 == self@[a].0);
                        assert(before[ob].0 == self@[b].0);
                        assert(before[oa].0 != before[ob].0);
                    }
                    assert forall|a: int| 0 <= a < self@.len() implies is_valid_batch_id(
                        (#[trigger] self@[a]).0,
                    ) by {
                        let oa: int = if a < i {
                            a
                        } else {
                            a + 1
                        };
                        assert(before[oa].0 == self@[a].0);
                    }
                }
                true
            },
            None => false,
        }
    }

    /// Builds a fresh batch id from the clock and entropy, logs it as
    /// issued, and registers it. `None` when the clock rendering is
    /// malformed, the entropy is short, or the candidate collides with an
    /// id this process ever handed out or with a running import; the
    /// registry is then unchanged and the caller may retry with fresh
    /// entropy.
    pub fn generate_batch_id(&mut self, entropy: &Vec<u64>) -> (r: Option<String>)
        requires
            registry_wf(old(self)@),
            issued_wf(old(self).issued_ids()),
        ensures
            registry_wf(final(self)@),
            issued_wf(final(self).issued_ids()),
            match r {
                Some(id) => {
                    &&& is_valid_batch_id(id@)
                    &&& !has_key(old(self)@, id@)
                    &&& !old(self).issued_ids().contains(id@)
                    &&& final(self)@ == old(self)@.push((id@, false))
                    &&& final(self).issued_ids() == old(self).issued_ids().push(id@)
                },
                None => final(self)@ == old(self)@ && final(self).issued_ids() == old(
                    self,
                ).issued_ids(),
            },
    {
        let ts = utc_compact_timestamp();
        match build_batch_id(ts.as_str(), entropy) {
            Some(id) => {
                if self.issued_contains(id.as_str()) {
                    return None;
                }
                let id_ret = id.clone();
                let id_log = id.clone();
                if self.register(id) {
                    let ghost before = self.issued_ids();
                    self.issued.push(id_log);
                    proof {
                        assert(self.issued_ids() =~= before.push(id_ret@));
                        assert forall|a: int, b: int|
                            0 <= a < b < self.issued_ids().len() implies #[trigger] self
                            .issued_ids()[a] != #[trigger] self.issued_ids()[b] by {
                            if b < self.issued_ids().len() - 1 {
                                assert(before[a] != before[b]);
                            } else {
                                if before[a] == id_ret@ {
                                    assert(before.contains(id_ret@));
                                }
                            }
                        }
                    }
                    Some(id_ret)
                } else {
                    None
                }
            },
            None => None,
        }
    }
}

/// The phases an import runs through, in the order the pipeline fixes:
/// scan, stage, preflight, upload, finalize.
#[derive(Clone, Copy, PartialEq, Eq, Structural, Debug)]
pub enum ImportPhase {
    Scanning,
    Staging,
    Preflight,
    Uploading,
    Done,
    Cancelled,
    Failed,
}

/// A phase no transition leaves.
pub open spec fn terminal_phase(p: ImportPhase) -> bool {
    p is Done || p is Cancelled || p is Failed
}

/// The phase after one cancellation poll: a requested cancellation ends any
/// still-running import at that boundary; a finished one keeps its outcome.
pub open spec fn spec_after_cancel_poll(p: ImportPhase, requested: bool) -> ImportPhase {
    if requested && !terminal_phase(p) {
        ImportPhase::Cancelled
    } else {
        p
    }
}

/// One poll of the cancellation flag never lets a cancelled import advance:
/// after the poll the run is over, in `Cancelled` unless it had already
/// ended.
pub proof fn lemma_cancel_poll_terminates(p: ImportPhase)
    ensures
        terminal_phase(spec_after_cancel_poll(p, true)),
        !terminal_phase(p) ==> spec_after_cancel_poll(p, true) is Cancelled,
{
}

/// Drives one import through its phases. The host performs the I/O of each
/// phase and reports back; the driver decides what comes next and refuses
/// any out-of-order step. It polls the cancellation flag at each boundary.
#[derive(Debug)]
pub struct ImportDriver {
    pub phase: ImportPhase,
    pub files_total: u32,
    pub files_staged: u32,
    pub uploads_total: u32,
    pub uploads_done: u32,
}

impl ImportDriver {
    pub open spec fn wf(&self) -> bool {
        &&& self.files_staged <= self.files_total
        &&& self.uploads_done <= self.uploads_total
    }

    /// A driver about to scan the volume.
    pub fn new() -> (r: ImportDriver)
        ensures
            r.phase is Scanning,
            r.wf(),
    {
        ImportDriver {
            phase: ImportPhase::Scanning,
            files_total: 0,
            files_staged: 0,
            uploads_total: 0,
            uploads_done: 0,
        }
    }

    /// Observes the cancellation flag. When cancellation was requested, the
    /// run ends here: the phase becomes `Cancelled` and every later phase
    /// step is refused.
    pub fn poll_cancel(&mut self, requested: bool) -> (stopped: bool)
        requires
            old(self).wf(),
        ensures
            final(self).wf(),
            final(self).phase == spec_after_cancel_poll(old(self).phase, requested),
            final(self).files_total == old(self).files_total,
            final(self).files_staged == old(self).files_staged,
            final(self).uploads_total == old(self).uploads_total,
            final(self).uploads_done == old(self).uploads_done,
            stopped == (requested && !terminal_phase(old(self).phase)),
    {
        if requested && !self.is_finished() {
            self.phase = ImportPhase::Cancelled;
            true
        } else {
            false
        }
    }

    /// True when the run is over, whatever the outcome.
    pub fn is_finished(&self) -> (r: bool)
        ensures
            r == terminal_phase(self.phase),
    {
        match self.phase {
            ImportPhase::Done => true,
            ImportPhase::Cancelled => true,
            ImportPhase::Failed => true,
            _ => false,
        }
    }

    /// The scan found nothing to ingest: the run ends successfully.
    pub fn scan_empty(&mut self)
        requires
            old(self).wf(),
            old(self).phase is Scanning,
        ensures
            final(self).wf(),
            final(self).phase is Done,
    {
        self.phase = ImportPhase::Done;
    }

    /// The scan found recordings: staging begins.
    pub fn begin_staging(&mut self, total: u32)
        requires
            old(self).wf(),
            old(self).phase is Scanning,
        ensures
            final(self).wf(),
            final(self).phase is Staging,
            final(self).files_total == total,
            final(self).files_staged == 0,
    {
        self.phase = ImportPhase::Staging;
        self.files_total = total;
        self.files_staged = 0;
    }

    /// One recording was copied, hashed and recorded in batch state.
    pub fn staged_one(&mut self)
        requires
            old(self).wf(),
            old(self).phase is Staging,
            old(self).files_staged < old(self).files_total,
        ensures
            final(self).wf(),
            final(self).phase is Staging,
            final(self).files_staged == old(self).files_staged + 1,
            final(self).files_total == old(self).files_total,
    {
        self.files_staged = self.files_staged + 1;
    }

    /// Staging is over (all files, or fewer when the storage quota cut the
    /// loop short): the staged set goes to preflight.
    pub fn begin_preflight(&mut self)
        requires
            old(self).wf(),
            old(self).phase is Staging,
        ensures
            final(self).wf(),
            final(self).phase is Preflight,
    {
        self.phase = ImportPhase::Preflight;
    }

    /// Preflight answered: uploads of the files the server called new begin.
    pub fn begin_uploading(&mut self, total: u32)
        requires
            old(self).wf(),
            old(self).phase is Preflight,
        ensures
            final(self).wf(),
            final(self).phase is Uploading,
            final(self).uploads_total == total,
            final(self).uploads_done == 0,
    {
        self.phase = ImportPhase::Uploading;
        self.uploads_total = total;
        self.uploads_done = 0;
    }

    /// One upload finished, well or badly; its outcome lives in the batch
    /// state, not here.
    pub fn upload_settled(&mut self)
        requires
            old(self).wf(),
            old(self).phase is Uploading,
            old(self).uploads_done < old(self).uploads_total,
        ensures
            final(self).wf(),
            final(self).phase is Uploading,
            final(self).uploads_done == old(self).uploads_done + 1,
            final(self).uploads_total == old(self).uploads_total,
    {
        self.uploads_done = self.uploads_done + 1;
    }

    /// The batch status is derived and persisted: the run ends.
    pub fn finish(&mut self)
        requires
            old(self).wf(),
            old(self).phase is Uploading || old(self).phase is Preflight,
        ensures
            final(self).wf(),
            final(self).phase is Done,
    {
        self.phase = ImportPhase::Done;
    }

    /// An unrecoverable error ends the run.
    pub fn fail(&mut self)
        requires
            old(self).wf(),
            !terminal_phase(old(self).phase),
        ensures
            final(self).wf(),
            final(self).phase is Failed,
    {
        self.phase = ImportPhase::Failed;
    }
}

/// True when staging one more file keeps the inbox within the configured
/// limit of `max_storage_gb` gibibytes.
pub fn fits_quota(current_bytes: u64, additional_bytes: u64, max_storage_gb: u64) -> (r: bool)
    ensures
        r == (current_bytes + additional_bytes <= max_storage_gb * 0x40000000),
{
    let cur = current_bytes as u128;
    let add = additional_bytes as u128;
    let max = (max_storage_gb as u128) * 0x40000000u128;
    cur + add <= max
}

/// The deterministic staging destination of one recording:
/// `<inbox>/<batch>/<device>/<name>`.
pub fn staging_dest(inbox: &str, batch_id: &str, device_id: &str, file_name: &str) -> (r: String)
    ensures
        r@ == inbox@ + "/"@ + batch_id@ + "/"@ + device_id@ + "/"@ + file_name@,
{
    let mut s = String::from_str(inbox);
    s.append("/");
    s.append(batch_id);
    s.append("/");
    s.append(device_id);
    s.append("/");
    s.append(file_name);
    s
}

/// One preflight answer folded into a batch's files: identifiers are
/// merged into the entry for the answered hash; an unknown hash changes
/// nothing.
pub open spec fn apply_one_result(
    files: Seq<(Seq<char>, crate::state::FileStatusV)>,
    rv: PreflightResultV,
) -> Seq<(Seq<char>, crate::state::FileStatusV)> {
    files_updated(
        files,
        rv.sha256,
        with_preflight(
            status_at(files, rv.sha256),
            rv.recording_id,
            rv.upload_id,
            rv.raw_r2_key,
            rv.status is AlreadyExists,
        ),
    )
}

/// The first `n` preflight answers folded into a batch's files, in order.
pub open spec fn apply_results(
    files: Seq<(Seq<char>, crate::state::FileStatusV)>,
    results: Seq<PreflightResultV>,
    n: int,
) -> Seq<(Seq<char>, crate::state::FileStatusV)>
    decreases n,
{
    if n <= 0 {
        files
    } else {
        apply_one_result(apply_results(files, results, n - 1), results[n - 1])
    }
}

/// Merges the whole preflight answer into a batch: per answered file the
/// server's identifiers, and `uploaded` already when the server knows the
/// content. An unknown batch id changes nothing.
pub fn apply_preflight_results(
    app: &mut AppState,
    batch_id: &str,
    results: &Vec<PreflightResult>,
) -> (found: bool)
    requires
        app_wf(old(app)@),
    ensures
        app_wf(final(app)@),
        found == has_key(old(app)@.batches, batch_id@),
        final(app)@.batches == batches_updated(
            old(app)@.batches,
            batch_id@,
            (BatchStateV {
                files: apply_results(
                    batch_at(old(app)@.batches, batch_id@).files,
                    results@.map_values(|p: PreflightResult| p@),
                    results@.len() as int,
                ),
                ..batch_at(old(app)@.batches, batch_id@)
            }),
        ),
{
    let ghost rviews = results@.map_values(|p: PreflightResult| p@);
    match app.find_batch_index(batch_id) {
        Some(bi) => {
            proof {
                lemma_key_index_unique(app@.batches, batch_id@, bi as int);
            }
            let ghost before = app@.batches;
            let ghost batch0 = batch_at(before, batch_id@);
            let mut e = app.batches.remove(bi);
            let mut i: usize = 0;
            while i < results.len()
                invariant
                    i <= results.len(),
                    rviews == results@.map_values(|p: PreflightResult| p@),
                    rviews.len() == results.len(),
                    e.batch_id@ == batch_id@,
                    keys_unique(e.state@.files),
                    e.state@.status == batch0.status,
                    e.state@.device_id == batch0.device_id,
                    e.state@.files == apply_results(batch0.files, rviews, i as int),
                decreases results.len() - i,
            {
                proof {
                    assert(rviews[i as int] == results@[i as int]@);
                }
                let rid = results[i].recording_id.clone();
                let uid = clone_opt_string(&results[i].upload_id);
                let key = clone_opt_string(&results[i].raw_r2_key);
                let already = match results[i].status {
                    PreflightStatus::AlreadyExists => true,
                    PreflightStatus::New => false,
                };
                let _ = e.state.set_preflight(
                    results[i].sha256.as_str(),
                    rid,
                    uid,
                    key,
                    already,
                );
                i = i + 1;
            }
            app.batches.insert(bi, e);
            proof {
                assert(app@.batches =~= batches_updated(
                    before,
                    batch_id@,
                    (BatchStateV {
                        files: apply_results(batch0.files, rviews, rviews.len() as int),
                        ..batch0
                    }),
                ));
                assert forall|a: int, b: int| 0 <= a < b < app@.batches.len() implies (
                #[trigger] app@.batches[a]).0 != (#[trigger] app@.batches[b]).0 by {
                    assert(before[a].0 == app@.batches[a].0);
                    assert(before[b].0 == app@.batches[b].0);
                }
            }
            true
        },
        None => false,
    }
}

/// Checks a string against the batch id shape.
fn check_batch_id(s: &str) -> (r: bool)
    ensures
        r == is_valid_batch_id(s@),
{
    proof {
        reveal_strlit("batch-");
    }
    let n = s.unicode_len();
    if n != 27 {
        return false;
    }
    let prefix = s.substring_char(0, 6);
    if !str_eq(prefix, "batch-") {
        return false;
    }
    let mut i: usize = 6;
    while i < 20
        invariant
            6 <= i <= 20,
            s@.len() == 27,
            forall|k: int| 6 <= k < i ==> is_digit(#[trigger] s@[k]),
        decreases 20 - i,
    {
        let u = s.get_char(i) as u32;
        if !(48 <= u && u <= 57) {
            return false;
        }
        i = i + 1;
    }
    if s.get_char(20) != '-' {
        return false;
    }
    let mut j: usize = 21;
    while j < 27
        invariant
            21 <= j <= 27,
            s@.len() == 27,
            forall|k: int| 21 <= k < j ==> is_rand_char(#[trigger] s@[k]),
        decreases 27 - j,
    {
        let u = s.get_char(j) as u32;
        if !((97 <= u && u <= 122) || (48 <= u && u <= 57)) {
            return false;
        }
        j = j + 1;
    }
    true
}

} // verus!
