use std::path::Path;
use vstd::prelude::*;
use vstd::string::*;

use crate::text::{chars_of, occurs_at_exec, starts_with};

verus! {

/// What joining a relative path onto a base path yields.
pub uninterp spec fn joined_path(base: Seq<char>, rest: Seq<char>) -> Seq<char>;

/// Relies on `Path::join`: `rest` appended to `base` as a path component; the
/// result depends on the two strings alone.
#[verifier::external_body]
fn join_path(base: &str, rest: &str) -> (r: String)
    ensures
        r@ == joined_path(base@, rest@),
{
    Path::new(base).join(rest).to_string_lossy().to_string()
}

/// Relies on `dirs::home_dir`: the user's home directory, if one is known.
#[verifier::external_body]
fn home_directory() -> (r: Option<String>) {
    dirs::home_dir().map(|p| p.to_string_lossy().to_string())
}

/// Relies on `dirs::config_dir`: the user's configuration directory, if known.
#[verifier::external_body]
fn config_directory() -> (r: Option<String>) {
    dirs::config_dir().map(|p| p.to_string_lossy().to_string())
}

/// Relies on `dirs::data_dir`: the user's data directory, if known.
#[verifier::external_body]
fn data_directory() -> (r: Option<String>) {
    dirs::data_dir().map(|p| p.to_string_lossy().to_string())
}

/// `rest` under `base`, or under `fallback` when there is no base.
pub fn path_under(base: Option<String>, fallback: &str, rest: &str) -> (r: String)
    ensures
        r@ == joined_path(
            match base {
                Some(b) => b@,
                None => fallback@,
            },
            rest@,
        ),
{
    match base {
        Some(b) => join_path(b.as_str(), rest),
        None => join_path(fallback, rest),
    }
}

/// `path` with a leading `~/` replaced by the home directory `home`, when there
/// is one.
pub open spec fn expanded(path: Seq<char>, home: Option<Seq<char>>) -> Seq<char> {
    if starts_with(path, "~/"@) && home is Some {
        joined_path(home->Some_0, path.subrange(2, path.len() as int))
    } else {
        path
    }
}

/// Expand a leading `~/` against the given home directory.
pub fn expand_path_with(path: &str, home: Option<String>) -> (r: String)
    ensures
        r@ == expanded(
            path@,
            match home {
                Some(h) => Some(h@),
                None => None,
            },
        ),
{
    let p = chars_of(path);
    let tilde = chars_of("~/");
    proof {
        reveal_strlit("~/");
    }
    if occurs_at_exec(&p, &tilde, 0) {
        match home {
            Some(h) => {
                return join_path(h.as_str(), path.substring_char(2, p.len()));
            },
            None => {},
        }
    }
    String::from_str(path)
}

/// Expand a leading `~/` against the user's home directory.
pub fn expand_path(path: &str) -> (r: String) {
    expand_path_with(path, home_directory())
}

/// The configuration file's usual place.
pub fn default_path() -> (r: String) {
    path_under(config_directory(), ".config", "hoover/config.yaml")
}

pub fn default_chunk_duration_secs() -> (r: u64)
    ensures
        r == 30,
{
    30
}

pub fn default_overlap_secs() -> (r: u64)
    ensures
        r == 5,
{
    5
}

pub fn default_stt_backend() -> (r: String)
    ensures
        r@ == "whisper"@,
{
    String::from_str("whisper")
}

pub fn default_language() -> (r: String)
    ensures
        r@ == "en"@,
{
    String::from_str("en")
}

pub fn default_whisper_model_size() -> (r: String)
    ensures
        r@ == "base"@,
{
    String::from_str("base")
}

pub fn default_openai_model() -> (r: String)
    ensures
        r@ == "whisper-1"@,
{
    String::from_str("whisper-1")
}

pub fn default_true() -> (r: bool)
    ensures
        r,
{
    true
}

pub fn default_remote() -> (r: String)
    ensures
        r@ == "origin"@,
{
    String::from_str("origin")
}

pub fn default_bind() -> (r: String)
    ensures
        r@ == "0.0.0.0:9700"@,
{
    String::from_str("0.0.0.0:9700")
}

pub fn default_backlog() -> (r: usize)
    ensures
        r == 1000,
{
    1000
}

pub fn default_firewall_backend() -> (r: String)
    ensures
        r@ == "firewalld"@,
{
    String::from_str("firewalld")
}

pub fn default_block_duration_secs() -> (r: u64)
    ensures
        r == 3600,
{
    3600
}

/// `hoover` under the home directory (or the working directory).
pub fn default_output_directory() -> (r: String) {
    path_under(home_directory(), ".", "hoover")
}

/// `hoover/udp.key` under the configuration directory (or `.config`).
pub fn default_key_file() -> (r: String) {
    path_under(config_directory(), ".config", "hoover/udp.key")
}

/// `hoover/speakers` under the data directory (or `.local/share`).
pub fn default_profiles_dir() -> (r: String) {
    path_under(data_directory(), ".local/share", "hoover/speakers")
}

#[derive(Debug, Clone)]
pub struct AudioConfig {
    pub device: Option<String>,
    pub chunk_duration_secs: u64,
    pub overlap_secs: u64,
}

impl Default for AudioConfig {
    fn default() -> (r: Self)
        ensures
            r.device is None,
            r.chunk_duration_secs == 30,
            r.overlap_secs == 5,
    {
        AudioConfig {
            device: None,
            chunk_duration_secs: default_chunk_duration_secs(),
            overlap_secs: default_overlap_secs(),
        }
    }
}

#[derive(Debug, Clone)]
pub struct SttConfig {
    pub backend: String,
    pub language: String,
    pub whisper_model_size: String,
    pub model_path: Option<String>,
    pub openai_api_key: Option<String>,
    pub openai_model: String,
}

impl Default for SttConfig {
    fn default() -> (r: Self)
        ensures
            r.backend@ == "whisper"@,
            r.language@ == "en"@,
            r.whisper_model_size@ == "base"@,
            r.model_path is None,
            r.openai_api_key is None,
            r.openai_model@ == "whisper-1"@,
    {
        SttConfig {
            backend: default_stt_backend(),
            language: default_language(),
            whisper_model_size: default_whisper_model_size(),
            model_path: None,
            openai_api_key: None,
            openai_model: default_openai_model(),
        }
    }
}

#[derive(Debug, Clone)]
pub struct OutputConfig {
    pub directory: String,
    pub timestamps: bool,
}

impl Default for OutputConfig {
    fn default() -> (r: Self)
        ensures
            r.timestamps,
    {
        OutputConfig { directory: default_output_directory(), timestamps: default_true() }
    }
}

#[derive(Debug, Clone)]
pub struct GithubConfig {
    pub token: Option<String>,
    pub owner: Option<String>,
    pub repo: Option<String>,
    pub workflow: Option<String>,
}

impl Default for GithubConfig {
    fn default() -> (r: Self)
        ensures
            r.token is None,
            r.owner is None,
            r.repo is None,
            r.workflow is None,
    {
        GithubConfig { token: None, owner: None, repo: None, workflow: None }
    }
}

#[derive(Debug, Clone)]
pub struct GiteaConfig {
    pub url: Option<String>,
    pub token: Option<String>,
    pub owner: Option<String>,
    pub repo: Option<String>,
}

impl Default for GiteaConfig {
    fn default() -> (r: Self)
        ensures
            r.url is None,
            r.token is None,
            r.owner is None,
            r.repo is None,
    {
        GiteaConfig { url: None, token: None, owner: None, repo: None }
    }
}

#[derive(Debug, Clone)]
pub struct VcsConfig {
    pub enabled: bool,
    pub auto_commit: bool,
    pub auto_push: bool,
    pub remote: String,
    pub github: Option<GithubConfig>,
    pub gitea: Option<GiteaConfig>,
}

impl Default for VcsConfig {
    fn default() -> (r: Self)
        ensures
            !r.enabled,
            !r.auto_commit,
            !r.auto_push,
            r.remote@ == "origin"@,
            r.github is None,
            r.gitea is None,
    {
        VcsConfig {
            enabled: false,
            auto_commit: false,
            auto_push: false,
            remote: default_remote(),
            github: None,
            gitea: None,
        }
    }
}

#[derive(Debug, Clone)]
pub struct FirewallConfig {
    pub enabled: bool,
    pub backend: String,
    pub block_duration_secs: u64,
}

impl Default for FirewallConfig {
    fn default() -> (r: Self)
        ensures
            !r.enabled,
            r.backend@ == "firewalld"@,
            r.block_duration_secs == 3600,
    {
        FirewallConfig {
            enabled: false,
            backend: default_firewall_backend(),
            block_duration_secs: default_block_duration_secs(),
        }
    }
}

#[derive(Debug, Clone)]
pub struct UdpConfig {
    pub enabled: bool,
    pub bind: String,
    pub key_file: String,
    pub backlog: usize,
    pub firewall: FirewallConfig,
}

impl Default for UdpConfig {
    fn default() -> (r: Self)
        ensures
            !r.enabled,
            r.bind@ == "0.0.0.0:9700"@,
            r.backlog == 1000,
            !r.firewall.enabled,
            r.firewall.backend@ == "firewalld"@,
            r.firewall.block_duration_secs == 3600,
    {
        UdpConfig {
            enabled: false,
            bind: default_bind(),
            key_file: default_key_file(),
            backlog: default_backlog(),
            firewall: FirewallConfig::default(),
        }
    }
}

#[derive(Debug, Clone)]
pub struct McpConfig {
    pub enabled: bool,
}

impl Default for McpConfig {
    fn default() -> (r: Self)
        ensures
            !r.enabled,
    {
        McpConfig { enabled: false }
    }
}

/// Whether a chunking configuration can drive the accumulator: windows of at
/// least a second, an overlap shorter than a window, and a window length that
/// fits the machine's sample counts.
pub fn chunking_is_valid(audio: &AudioConfig) -> (r: bool)
    ensures
        r == (audio.overlap_secs < audio.chunk_duration_secs && audio.chunk_duration_secs
            * crate::chunking::SAMPLE_RATE <= usize::MAX),
{
    audio.overlap_secs < audio.chunk_duration_secs && audio.chunk_duration_secs <= (usize::MAX
        / crate::chunking::SAMPLE_RATE) as u64
}

} // verus!
