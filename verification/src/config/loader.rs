//! Configuration values, their builder, and the reading of configuration
//! from environment variable values.
use vstd::prelude::*;
use crate::error::Result;
use crate::text::{chars_of, parse_u64_range, parse_unsigned};

verus! {

broadcast use vstd::string::group_string_axioms;

/// OpenSCAD MCP Server configuration.
#[derive(Debug, Clone)]
pub struct Config {
    /// OpenSCAD executable path
    pub openscad_path: Option<String>,
    /// Cache directory
    pub cache_dir: Option<String>,
    /// Cache size limit in MB
    pub cache_size_mb: Option<u64>,
    /// Cache TTL in seconds
    pub cache_ttl_secs: Option<u64>,
    /// Render timeout in seconds
    pub render_timeout_secs: Option<u64>,
    /// Log level
    pub log_level: Option<String>,
    /// Model directory
    pub model_dir: Option<String>,
}

impl Config {
    /// No setting is given.
    pub open spec fn is_empty(&self) -> bool {
        &&& self.openscad_path is None
        &&& self.cache_dir is None
        &&& self.cache_size_mb is None
        &&& self.cache_ttl_secs is None
        &&& self.render_timeout_secs is None
        &&& self.log_level is None
        &&& self.model_dir is None
    }
}

impl Default for Config {
    fn default() -> (c: Config)
        ensures
            c.is_empty(),
    {
        Config {
            openscad_path: None,
            cache_dir: None,
            cache_size_mb: None,
            cache_ttl_secs: None,
            render_timeout_secs: None,
            log_level: None,
            model_dir: None,
        }
    }
}

/// Builder for configuration with fluent API.
pub struct ConfigBuilder {
    config: Config,
}

impl ConfigBuilder {
    /// The configuration built so far.
    pub closed spec fn config(&self) -> Config {
        self.config
    }

    /// Create a new config builder.
    pub fn new() -> (b: Self)
        ensures
            b.config().is_empty(),
    {
        ConfigBuilder { config: Config::default() }
    }

    /// Set the OpenSCAD executable path.
    pub fn openscad_path(self, path: String) -> (b: Self)
        ensures
            b.config() == (Config { openscad_path: Some(path), ..self.config() }),
    {
        let mut s = self;
        s.config.openscad_path = Some(path);
        s
    }

    /// Set the cache directory.
    pub fn cache_dir(self, path: String) -> (b: Self)
        ensures
            b.config() == (Config { cache_dir: Some(path), ..self.config() }),
    {
        let mut s = self;
        s.config.cache_dir = Some(path);
        s
    }

    /// Set the cache size limit.
    pub fn cache_size_mb(self, size: u64) -> (b: Self)
        ensures
            b.config() == (Config { cache_size_mb: Some(size), ..self.config() }),
    {
        let mut s = self;
        s.config.cache_size_mb = Some(size);
        s
    }

    /// Set the cache TTL.
    pub fn cache_ttl_secs(self, ttl: u64) -> (b: Self)
        ensures
            b.config() == (Config { cache_ttl_secs: Some(ttl), ..self.config() }),
    {
        let mut s = self;
        s.config.cache_ttl_secs = Some(ttl);
        s
    }

    /// Set the render timeout.
    pub fn render_timeout_secs(self, timeout: u64) -> (b: Self)
        ensures
            b.config() == (Config { render_timeout_secs: Some(timeout), ..self.config() }),
    {
        let mut s = self;
        s.config.render_timeout_secs = Some(timeout);
        s
    }

    /// Set the log level.
    pub fn log_level(self, level: String) -> (b: Self)
        ensures
            b.config() == (Config { log_level: Some(level), ..self.config() }),
    {
        let mut s = self;
        s.config.log_level = Some(level);
        s
    }

    /// Set the model directory.
    pub fn model_dir(self, path: String) -> (b: Self)
        ensures
            b.config() == (Config { model_dir: Some(path), ..self.config() }),
    {
        let mut s = self;
        s.config.model_dir = Some(path);
        s
    }

    /// Build the configuration.
    pub fn build(self) -> (c: Config)
        ensures
            c == self.config(),
    {
        self.config
    }
}

impl Default for ConfigBuilder {
    fn default() -> (b: Self)
        ensures
            b.config().is_empty(),
    {
        Self::new()
    }
}

/// A numeric setting read from an environment variable: present only when
/// the variable is set and its value parses as a `u64`.
pub open spec fn numeric_setting(value: Option<Seq<char>>) -> Option<u64> {
    match value {
        Some(v) => match parse_unsigned(v, u64::MAX as nat) {
            Some(n) => Some(n as u64),
            None => None,
        },
        None => None,
    }
}

fn numeric_setting_exec(value: &Option<String>) -> (r: Option<u64>)
    ensures
        r == numeric_setting(value.deep_view()),
{
    match value {
        Some(s) => {
            let v = chars_of(s.as_str());
            assert(v@.subrange(0, v.len() as int) =~= v@);
            parse_u64_range(&v, 0, v.len())
        },
        None => None,
    }
}

/// The configuration given by the values of the environment variables
/// `OPENSCAD_PATH`, `CACHE_DIR`, `CACHE_SIZE_MB`, `CACHE_TTL_SECS`,
/// `RENDER_TIMEOUT_SECS`, `LOG_LEVEL` and `MODEL_DIR` (`None` where unset).
pub fn config_from_env_values(
    openscad_path: Option<String>,
    cache_dir: Option<String>,
    cache_size_mb: Option<String>,
    cache_ttl_secs: Option<String>,
    render_timeout_secs: Option<String>,
    log_level: Option<String>,
    model_dir: Option<String>,
) -> (c: Config)
    ensures
        c.openscad_path == openscad_path,
        c.cache_dir == cache_dir,
        c.cache_size_mb == numeric_setting(cache_size_mb.deep_view()),
        c.cache_ttl_secs == numeric_setting(cache_ttl_secs.deep_view()),
        c.render_timeout_secs == numeric_setting(render_timeout_secs.deep_view()),
        c.log_level == log_level,
        c.model_dir == model_dir,
{
    Config {
        openscad_path,
        cache_dir,
        cache_size_mb: numeric_setting_exec(&cache_size_mb),
        cache_ttl_secs: numeric_setting_exec(&cache_ttl_secs),
        render_timeout_secs: numeric_setting_exec(&render_timeout_secs),
        log_level,
        model_dir,
    }
}

/// Load configuration from the YAML file at `_path`.  No YAML settings are
/// read yet: the result is always the empty configuration.
pub fn load_from_yaml(_path: &str) -> (r: Result<Config>)
    ensures
        r matches Ok(c) && c.is_empty(),
{
    Ok(Config::default())
}

} // verus!
