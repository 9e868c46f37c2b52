use vstd::prelude::*;

verus! {

/// User-tunable settings of the agent. The host reads and writes them as
/// `config.json` under the base directory; the pipeline only consumes the
/// values.
pub struct AppConfig {
    pub server_url: String,
    pub max_storage_gb: u64,
    pub ffmpeg_path: String,
    pub auto_import: bool,
    pub auto_start: bool,
    pub watch_interval_ms: u64,
}

pub fn default_max_storage_gb() -> (r: u64)
    ensures
        r == 50,
{
    50
}

pub fn default_ffmpeg_path() -> (r: String)
    ensures
        r@ == "ffmpeg"@,
{
    String::from_str("ffmpeg")
}

pub fn default_auto_import() -> (r: bool)
    ensures
        r,
{
    true
}

pub fn default_watch_interval_ms() -> (r: u64)
    ensures
        r == 3000,
{
    3000
}

impl Default for AppConfig {
    /// The configuration used when no `config.json` exists yet.
    fn default() -> (r: Self)
        ensures
            r.server_url@ == "http://localhost:8787"@,
            r.max_storage_gb == 50,
            r.ffmpeg_path@ == "ffmpeg"@,
            r.auto_import,
            !r.auto_start,
            r.watch_interval_ms == 3000,
    {
        AppConfig {
            server_url: String::from_str("http://localhost:8787"),
            max_storage_gb: default_max_storage_gb(),
            ffmpeg_path: default_ffmpeg_path(),
            auto_import: default_auto_import(),
            auto_start: false,
            watch_interval_ms: default_watch_interval_ms(),
        }
    }
}

/// The credential pair sent as the two access headers on every API request.
pub struct AuthCredentials {
    pub client_id: String,
    pub client_secret: String,
}

/// Appends a file name to a base directory path with a `/` separator.
fn join_under(base: &str, leaf: &str) -> (r: String)
    ensures
        r@ == base@ + "/"@ + leaf@,
{
    let mut s = String::from_str(base);
    s.append("/");
    s.append(leaf);
    s
}

/// Path of the configuration file under the agent's base directory.
pub fn get_config_path(base: &str) -> (r: String)
    ensures
        r@ == base@ + "/"@ + "config.json"@,
{
    join_under(base, "config.json")
}

/// Path of the staging inbox under the agent's base directory.
pub fn get_inbox_path(base: &str) -> (r: String)
    ensures
        r@ == base@ + "/"@ + "inbox"@,
{
    join_under(base, "inbox")
}

/// Path of the persisted pipeline state under the agent's base directory.
pub fn get_state_path(base: &str) -> (r: String)
    ensures
        r@ == base@ + "/"@ + "state.json"@,
{
    join_under(base, "state.json")
}

} // verus!
