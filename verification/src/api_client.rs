use vstd::prelude::*;
use crate::state::str_eq;

verus! {

/// The access-client credential pair injected on every request to the
/// coordinating server when non-empty.
#[derive(Debug)]
pub struct AuthHeaders {
    pub client_id: String,
    pub client_secret: String,
}

impl AuthHeaders {
    /// A field-for-field copy.
    pub fn duplicate(&self) -> (r: AuthHeaders)
        ensures
            r.client_id@ == self.client_id@,
            r.client_secret@ == self.client_secret@,
    {
        AuthHeaders { client_id: self.client_id.clone(), client_secret: self.client_secret.clone() }
    }
}

/// The access headers to inject on a request to the coordinating server:
/// both credential headers exactly when the client id is non-empty, in a
/// fixed order, else none.
pub fn auth_header_pairs(auth: &AuthHeaders) -> (r: Vec<(String, String)>)
    ensures
        auth.client_id@.len() == 0 ==> r@.len() == 0,
        auth.client_id@.len() > 0 ==> r@.len() == 2 && r@[0].0@ == "Cf-Access-Client-Id"@
            && r@[0].1@ == auth.client_id@ && r@[1].0@ == "Cf-Access-Client-Secret"@
            && r@[1].1@ == auth.client_secret@,
{
    let mut v: Vec<(String, String)> = Vec::new();
    if auth.client_id.as_str().unicode_len() > 0 {
        v.push((String::from_str("Cf-Access-Client-Id"), auth.client_id.clone()));
        v.push((String::from_str("Cf-Access-Client-Secret"), auth.client_secret.clone()));
    }
    v
}

/// One file as announced to the preflight endpoint.
#[derive(Debug)]
pub struct PreflightFile {
    pub device_id: String,
    pub original_file_name: String,
    /// Creation timestamp on the recorder, ISO-8601, when known.
    pub recorder_file_created_at: Option<String>,
    pub size_bytes: u64,
    pub sha256: String,
}

/// The server's verdict on one announced file: content it has never seen, or
/// content it already stores.
#[derive(Clone, Copy, PartialEq, Eq, Structural, Debug)]
pub enum PreflightStatus {
    New,
    AlreadyExists,
}

/// Parses the status tag of a preflight answer.
pub fn parse_preflight_status(s: &str) -> (r: Option<PreflightStatus>)
    ensures
        r == Some(PreflightStatus::New) <==> s@ == "NEW"@,
        r == Some(PreflightStatus::AlreadyExists) <==> s@ == "ALREADY_EXISTS"@,
        r is None <==> (s@ != "NEW"@ && s@ != "ALREADY_EXISTS"@),
{
    proof {
        reveal_strlit("NEW");
        reveal_strlit("ALREADY_EXISTS");
        assert("NEW"@.len() == 3);
        assert("ALREADY_EXISTS"@.len() == 14);
        assert("NEW"@ != "ALREADY_EXISTS"@);
    }
    if str_eq(s, "NEW") {
        Some(PreflightStatus::New)
    } else if str_eq(s, "ALREADY_EXISTS") {
        Some(PreflightStatus::AlreadyExists)
    } else {
        None
    }
}

/// One per-file answer of the preflight endpoint.
#[derive(Debug)]
pub struct PreflightResult {
    pub sha256: String,
    pub status: PreflightStatus,
    pub recording_id: String,
    pub upload_id: Option<String>,
    pub raw_r2_key: Option<String>,
}

/// Mathematical image of a [`PreflightResult`].
pub struct PreflightResultV {
    pub sha256: Seq<char>,
    pub status: PreflightStatus,
    pub recording_id: Seq<char>,
    pub upload_id: Option<Seq<char>>,
    pub raw_r2_key: Option<Seq<char>>,
}

impl View for PreflightResult {
    type V = PreflightResultV;

    open spec fn view(&self) -> PreflightResultV {
        PreflightResultV {
            sha256: self.sha256@,
            status: self.status,
            recording_id: self.recording_id@,
            upload_id: crate::state::opt_str_view(self.upload_id),
            raw_r2_key: crate::state::opt_str_view(self.raw_r2_key),
        }
    }
}

/// The server's answer to a presign request: where and how to PUT.
#[derive(Debug)]
pub struct PresignResult {
    pub method: String,
    pub url: String,
    /// Header name-value pairs, copied verbatim onto the PUT request.
    pub headers: Vec<(String, String)>,
    /// Storage-side multipart token, present for multipart presigns.
    pub upload_id: Option<String>,
}

/// One uploaded part: its number and the ETag the store answered with.
#[derive(Debug)]
pub struct CompletedPart {
    pub part_number: u32,
    pub etag: String,
}

impl View for CompletedPart {
    type V = (u32, Seq<char>);

    open spec fn view(&self) -> (u32, Seq<char>) {
        (self.part_number, self.etag@)
    }
}

impl CompletedPart {
    /// A field-for-field copy.
    pub fn duplicate(&self) -> (r: CompletedPart)
        ensures
            r@ == self@,
    {
        CompletedPart { part_number: self.part_number, etag: self.etag.clone() }
    }
}

/// The base URL with trailing slashes removed.
pub open spec fn spec_trim_slashes(s: Seq<char>) -> Seq<char>
    decreases s.len(),
{
    if s.len() > 0 && s[s.len() - 1] == '/' {
        spec_trim_slashes(s.drop_last())
    } else {
        s
    }
}

/// Removes trailing slashes from a base URL.
fn trim_slashes(s: &str) -> (r: &str)
    ensures
        r@ == spec_trim_slashes(s@),
{
    let n = s.unicode_len();
    let mut k = n;
    proof {
        assert(s@.subrange(0, n as int) =~= s@);
    }
    while k > 0 && s.get_char(k - 1) == '/'
        invariant
            k <= n,
            n == s@.len(),
            spec_trim_slashes(s@) == spec_trim_slashes(s@.subrange(0, k as int)),
        decreases k,
    {
        proof {
            assert(s@.subrange(0, k as int).drop_last() =~= s@.subrange(0, k - 1int));
        }
        k = k - 1;
    }
    proof {
        if k > 0 {
            assert(s@.subrange(0, k as int)[k - 1int] == s@[k - 1int]);
            assert(spec_trim_slashes(s@.subrange(0, k as int)) == s@.subrange(0, k as int));
        } else {
            assert(s@.subrange(0, 0) =~= Seq::<char>::empty());
        }
    }
    s.substring_char(0, k)
}

/// URL of the batch preflight endpoint.
pub fn preflight_url(server_url: &str) -> (r: String)
    ensures
        r@ == spec_trim_slashes(server_url@) + "/api/v1/recordings/preflight-batch"@,
{
    let mut u = String::from_str(trim_slashes(server_url));
    u.append("/api/v1/recordings/preflight-batch");
    u
}

/// URL of the presign endpoint for one recording.
pub fn presign_url(server_url: &str, recording_id: &str) -> (r: String)
    ensures
        r@ == spec_trim_slashes(server_url@) + "/api/v1/recordings/"@ + recording_id@
            + "/presign"@,
{
    let mut u = String::from_str(trim_slashes(server_url));
    u.append("/api/v1/recordings/");
    u.append(recording_id);
    u.append("/presign");
    u
}

/// URL of the per-part presign endpoint for one recording.
pub fn presign_part_url(server_url: &str, recording_id: &str) -> (r: String)
    ensures
        r@ == spec_trim_slashes(server_url@) + "/api/v1/recordings/"@ + recording_id@
            + "/presign-part"@,
{
    let mut u = String::from_str(trim_slashes(server_url));
    u.append("/api/v1/recordings/");
    u.append(recording_id);
    u.append("/presign-part");
    u
}

/// URL of the multipart completion endpoint for one recording.
pub fn complete_multipart_url(server_url: &str, recording_id: &str) -> (r: String)
    ensures
        r@ == spec_trim_slashes(server_url@) + "/api/v1/recordings/"@ + recording_id@
            + "/complete-multipart"@,
{
    let mut u = String::from_str(trim_slashes(server_url));
    u.append("/api/v1/recordings/");
    u.append(recording_id);
    u.append("/complete-multipart");
    u
}

} // verus!
