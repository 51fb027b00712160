//! Configuration: defaults, the standard file locations under the user's
//! home directory, and the server address strings.  Reading and writing the
//! configuration file is input/output and lives outside.

use vstd::prelude::*;
use vstd::string::StringExecFns;
use crate::text::{dec_str, u64_string};

verus! {

/// Errors of configuration handling.
#[derive(Debug, Clone)]
pub enum ConfigError {
    /// The configuration file could not be read.
    ReadError(String),
    /// The configuration file could not be parsed.
    ParseError(String),
    /// The configuration could not be serialized.
    SerializeError(String),
    /// The configuration is unusable.
    ValidationError(String),
}

/// Settings of the text-generation collaborator.
#[derive(Debug, Clone)]
pub struct GeminiConfig {
    /// Path to its binary.
    pub binary: String,
    /// Default model to use.
    pub default_model: String,
    /// Default system prompt.
    pub system_prompt: Option<String>,
}

impl Default for GeminiConfig {
    /// The `gemini` binary with the `gemini-3-pro-preview` model.
    fn default() -> (r: GeminiConfig)
        ensures
            r.binary@ == "gemini"@,
            r.default_model@ == "gemini-3-pro-preview"@,
            r.system_prompt is None,
    {
        GeminiConfig {
            binary: String::from_str("gemini"),
            default_model: String::from_str("gemini-3-pro-preview"),
            system_prompt: None,
        }
    }
}

/// Settings of the HTTP server.
#[derive(Debug, Clone)]
pub struct ServerConfig {
    /// Host to bind to.
    pub host: String,
    /// Port to listen on.
    pub port: u16,
}

impl Default for ServerConfig {
    /// The loopback host on port 11435.
    fn default() -> (r: ServerConfig)
        ensures
            r.host@ == "127.0.0.1"@,
            r.port == 11435,
    {
        ServerConfig { host: String::from_str("127.0.0.1"), port: 11435 }
    }
}

/// Request-quota settings.
#[derive(Debug, Clone)]
pub struct QuotaConfig {
    /// Maximum requests per minute.
    pub per_minute: u32,
    /// Maximum requests per day.
    pub per_day: u32,
    /// Daily reset time, `HH:MM` local time.
    pub reset_time: String,
}

impl Default for QuotaConfig {
    /// Sixty per minute, a thousand per day, reset at midnight.
    fn default() -> (r: QuotaConfig)
        ensures
            r.per_minute == 60,
            r.per_day == 1000,
            r.reset_time@ == "00:00"@,
    {
        QuotaConfig { per_minute: 60, per_day: 1000, reset_time: String::from_str("00:00") }
    }
}

/// Logging settings.
#[derive(Debug, Clone)]
pub struct LoggingConfig {
    /// Log level.
    pub level: String,
}

impl Default for LoggingConfig {
    /// The `info` level.
    fn default() -> (r: LoggingConfig)
        ensures
            r.level@ == "info"@,
    {
        LoggingConfig { level: String::from_str("info") }
    }
}

/// Settings of the local embedding provider.
#[derive(Debug, Clone)]
pub struct EmbeddingsConfig {
    /// Whether local embeddings are enabled.
    pub enabled: bool,
    /// Embedding model to use.
    pub model: String,
}

impl Default for EmbeddingsConfig {
    /// Enabled, with the default small model.
    fn default() -> (r: EmbeddingsConfig)
        ensures
            r.enabled,
            r.model@ == "all-MiniLM-L6-v2"@,
    {
        EmbeddingsConfig { enabled: true, model: String::from_str("all-MiniLM-L6-v2") }
    }
}

/// The whole configuration.
#[derive(Debug, Clone)]
pub struct Config {
    pub gemini: GeminiConfig,
    pub server: ServerConfig,
    pub quota: QuotaConfig,
    pub logging: LoggingConfig,
    pub embeddings: EmbeddingsConfig,
}

impl Default for Config {
    /// Every section at its default.
    fn default() -> (r: Config)
        ensures
            r.gemini.binary@ == "gemini"@,
            r.gemini.default_model@ == "gemini-3-pro-preview"@,
            r.server.host@ == "127.0.0.1"@,
            r.server.port == 11435,
            r.quota.per_minute == 60,
            r.quota.per_day == 1000,
            r.logging.level@ == "info"@,
            r.embeddings.enabled,
            r.embeddings.model@ == "all-MiniLM-L6-v2"@,
    {
        Config {
            gemini: GeminiConfig::default(),
            server: ServerConfig::default(),
            quota: QuotaConfig::default(),
            logging: LoggingConfig::default(),
            embeddings: EmbeddingsConfig::default(),
        }
    }
}

/// Relies on `dirs::home_dir`: the user's home directory, if the platform
/// knows one.  The value depends on the environment, so nothing more is
/// assumed of it.
#[verifier::external_body]
fn home_dir_string() -> Option<String> {
    dirs::home_dir().map(|h| h.to_string_lossy().into_owned())
}

/// `s` ends with the given suffix.
pub open spec fn ends_with(s: Seq<char>, suffix: Seq<char>) -> bool {
    s.len() >= suffix.len() && s.subrange(s.len() - suffix.len(), s.len() as int) == suffix
}

/// The home path extended with a fixed suffix.
fn under_home(suffix: &str) -> (r: Option<String>)
    ensures
        r matches Some(p) ==> ends_with(p@, suffix@),
{
    match home_dir_string() {
        Some(h) => {
            let mut p = h;
            p.append(suffix);
            proof {
                assert(p@.subrange(p@.len() - suffix@.len(), p@.len() as int) =~= suffix@);
            }
            Some(p)
        },
        None => None,
    }
}

impl Config {
    /// The configuration directory: `.genie` under the home directory.
    pub fn genie_dir() -> (r: Option<String>)
        ensures
            r matches Some(p) ==> ends_with(p@, "/.genie"@),
    {
        under_home("/.genie")
    }

    /// The default configuration file path.
    pub fn default_config_path() -> (r: Option<String>)
        ensures
            r matches Some(p) ==> ends_with(p@, "/.genie/config.toml"@),
    {
        under_home("/.genie/config.toml")
    }

    /// The default usage-database path.
    pub fn default_db_path() -> (r: Option<String>)
        ensures
            r matches Some(p) ==> ends_with(p@, "/.genie/usage.db"@),
    {
        under_home("/.genie/usage.db")
    }

    /// The default prompt-template directory.
    pub fn prompts_dir() -> (r: Option<String>)
        ensures
            r matches Some(p) ==> ends_with(p@, "/.genie/prompts"@),
    {
        under_home("/.genie/prompts")
    }

    /// The default retrieval-database path.
    pub fn default_rag_db_path() -> (r: Option<String>)
        ensures
            r matches Some(p) ==> ends_with(p@, "/.genie/rag.db"@),
    {
        under_home("/.genie/rag.db")
    }

    /// The server address, `host:port`.
    pub fn server_addr(&self) -> (r: String)
        ensures
            r@ == self.server.host@ + ":"@ + dec_str(self.server.port as int),
    {
        let mut r = self.server.host.clone();
        r.append(":");
        let port = u64_string(self.server.port as u64);
        r.append(port.as_str());
        r
    }

    /// The server URL, `http://host:port`.
    pub fn server_url(&self) -> (r: String)
        ensures
            r@ == "http://"@ + self.server.host@ + ":"@ + dec_str(self.server.port as int),
    {
        let mut r = String::from_str("http://");
        r.append(self.server.host.as_str());
        r.append(":");
        let port = u64_string(self.server.port as u64);
        r.append(port.as_str());
        proof {
            assert(r@ =~= "http://"@ + self.server.host@ + ":"@ + dec_str(self.server.port as int));
        }
        r
    }
}

} // verus!
