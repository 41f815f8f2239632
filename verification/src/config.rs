//! The settings of the server and where each of them comes from.

use vstd::prelude::*;
use crate::path::{
    maybe_path_copy, path_copy, path_debug, path_from, path_quoted, path_text, same_path,
};
use crate::text::{concat3, copy_maybe_text, maybe_text, parse_usize, read_usize};

verus! {

pub const ENV_STOCKFISH_PATH: &'static str = "CHESS_MCP_STOCKFISH_PATH";

pub const ENV_CACHE_CAPACITY: &'static str = "CHESS_MCP_CACHE_CAPACITY";

pub const ENV_LOG_LEVEL: &'static str = "CHESS_MCP_LOG_LEVEL";

pub const DEFAULT_CONFIG_FILE: &'static str = "chess-mcp.toml";

pub const DEFAULT_CACHE_CAPACITY: usize = 1024;

pub const DEFAULT_LOG_LEVEL: &'static str = "info";

/// CLI arguments for the chess-pos-analyzer MCP server.
#[derive(Debug)]
pub struct CliArgs {
    /// Path to the Stockfish executable.
    pub stockfish_path: Option<std::path::PathBuf>,
    /// Maximum number of analysis cache entries.
    pub cache_capacity: Option<usize>,
    /// Log level (trace, debug, info, warn, error).
    pub log_level: Option<String>,
    /// Path to the configuration file (default: ./chess-mcp.toml).
    pub config: Option<std::path::PathBuf>,
}

impl Default for CliArgs {
    fn default() -> (r: CliArgs)
        ensures
            r == (CliArgs {
                stockfish_path: None,
                cache_capacity: None,
                log_level: None,
                config: None,
            }),
    {
        CliArgs { stockfish_path: None, cache_capacity: None, log_level: None, config: None }
    }
}

impl Clone for CliArgs {
    fn clone(&self) -> (r: CliArgs)
        ensures
            same_path(r.stockfish_path, self.stockfish_path),
            r.cache_capacity == self.cache_capacity,
            maybe_text(r.log_level) == maybe_text(self.log_level),
            same_path(r.config, self.config),
    {
        CliArgs {
            stockfish_path: maybe_path_copy(&self.stockfish_path),
            cache_capacity: self.cache_capacity,
            log_level: copy_maybe_text(&self.log_level),
            config: maybe_path_copy(&self.config),
        }
    }
}

impl CliArgs {
    /// The configuration file to read.
    pub fn config_path(&self) -> (r: std::path::PathBuf)
        ensures
            match self.config {
                Some(path) => path_text(r) == path_text(path) && path_debug(r) == path_debug(path),
                None => path_text(r) == DEFAULT_CONFIG_FILE@,
            },
    {
        match &self.config {
            Some(path) => path_copy(path),
            None => path_from(DEFAULT_CONFIG_FILE),
        }
    }
}

/// The settings of the environment, as far as they are set.
#[derive(Debug)]
pub struct EnvVars {
    pub stockfish_path: Option<String>,
    pub cache_capacity: Option<String>,
    pub log_level: Option<String>,
}

/// The settings of the configuration file, as far as they are set.
#[derive(Debug)]
pub struct FileConfig {
    pub stockfish_path: Option<std::path::PathBuf>,
    pub cache_capacity: Option<usize>,
    pub log_level: Option<String>,
}

impl Default for FileConfig {
    fn default() -> (r: FileConfig)
        ensures
            r == (FileConfig { stockfish_path: None, cache_capacity: None, log_level: None }),
    {
        FileConfig { stockfish_path: None, cache_capacity: None, log_level: None }
    }
}

impl Clone for FileConfig {
    fn clone(&self) -> (r: FileConfig)
        ensures
            same_path(r.stockfish_path, self.stockfish_path),
            r.cache_capacity == self.cache_capacity,
            maybe_text(r.log_level) == maybe_text(self.log_level),
    {
        FileConfig {
            stockfish_path: maybe_path_copy(&self.stockfish_path),
            cache_capacity: self.cache_capacity,
            log_level: copy_maybe_text(&self.log_level),
        }
    }
}

/// What came of reading the configuration file.
#[derive(Debug)]
pub enum FileRead {
    Missing,
    /// It could not be read; the reason.
    Unreadable(String),
    /// Its text is no configuration; the reason.
    Malformed(String),
    Settings(FileConfig),
}

/// Why there is no configuration.
#[derive(Debug)]
pub enum ConfigError {
    Io { path: std::path::PathBuf, source: String },
    Parse { path: std::path::PathBuf, message: String },
}

impl ConfigError {
    /// The error in words.
    pub fn message(&self) -> (r: String)
        ensures
            r@ == match *self {
                ConfigError::Io { path, source } => "failed to read config file "@ + path_debug(
                    path,
                ) + ": "@ + source@,
                ConfigError::Parse { path, message } => "failed to parse config file "@
                    + path_debug(path) + ": "@ + message@,
            },
    {
        match self {
            ConfigError::Io { path, source } => concat3(
                "failed to read config file ",
                path_quoted(path).as_str(),
                ": ",
            ).concat(source.as_str()),
            ConfigError::Parse { path, message } => concat3(
                "failed to parse config file ",
                path_quoted(path).as_str(),
                ": ",
            ).concat(message.as_str()),
        }
    }
}

impl FileConfig {
    /// The settings of the file at a path. A missing file sets nothing.
    pub fn load(path: std::path::PathBuf, read: FileRead) -> (r: Result<FileConfig, ConfigError>)
        ensures
            r == match read {
                FileRead::Missing => Ok::<FileConfig, ConfigError>(
                    FileConfig { stockfish_path: None, cache_capacity: None, log_level: None },
                ),
                FileRead::Unreadable(source) => Err(ConfigError::Io { path, source }),
                FileRead::Malformed(message) => Err(ConfigError::Parse { path, message }),
                FileRead::Settings(settings) => Ok(settings),
            },
    {
        match read {
            FileRead::Missing => Ok(FileConfig::default()),
            FileRead::Unreadable(source) => Err(ConfigError::Io { path, source }),
            FileRead::Malformed(message) => Err(ConfigError::Parse { path, message }),
            FileRead::Settings(settings) => Ok(settings),
        }
    }
}

/// The settings in force.
#[derive(Debug)]
pub struct ResolvedConfig {
    pub stockfish_path: std::path::PathBuf,
    pub cache_capacity: usize,
    pub log_level: String,
}

impl Clone for ResolvedConfig {
    fn clone(&self) -> (r: ResolvedConfig)
        ensures
            path_text(r.stockfish_path) == path_text(self.stockfish_path),
            path_debug(r.stockfish_path) == path_debug(self.stockfish_path),
            r.cache_capacity == self.cache_capacity,
            r.log_level@ == self.log_level@,
    {
        ResolvedConfig {
            stockfish_path: path_copy(&self.stockfish_path),
            cache_capacity: self.cache_capacity,
            log_level: self.log_level.clone(),
        }
    }
}

/// Where Stockfish is looked for by default.
pub open spec fn default_path(windows: bool) -> Seq<char> {
    if windows {
        "stockfish/stockfish.exe"@
    } else {
        "stockfish/stockfish"@
    }
}

/// The text of the path to Stockfish: of the command line, else of the environment, else
/// of the file, else the default.
pub open spec fn chosen_path(cli: CliArgs, env: EnvVars, file: FileConfig, windows: bool) -> Seq<
    char,
> {
    match (cli.stockfish_path, env.stockfish_path, file.stockfish_path) {
        (Some(path), _, _) => path_text(path),
        (None, Some(text), _) => text@,
        (None, None, Some(path)) => path_text(path),
        (None, None, None) => default_path(windows),
    }
}

/// The number that the environment sets, where it holds one.
pub open spec fn env_capacity(env: EnvVars) -> Option<usize> {
    match env.cache_capacity {
        Some(text) => read_usize(text@),
        None => None,
    }
}

/// The capacity of the cache: of the command line, else of the environment, else of the
/// file, else the default; one in place of zero.
pub open spec fn chosen_capacity(cli: CliArgs, env: EnvVars, file: FileConfig) -> usize {
    let n = match (cli.cache_capacity, env_capacity(env), file.cache_capacity) {
        (Some(n), _, _) => n,
        (None, Some(n), _) => n,
        (None, None, Some(n)) => n,
        (None, None, None) => DEFAULT_CACHE_CAPACITY,
    };
    if n < 1 {
        1
    } else {
        n
    }
}

/// The log level: of the command line, else of the environment, else of the file, else the
/// default.
pub open spec fn chosen_level(cli: CliArgs, env: EnvVars, file: FileConfig) -> Seq<char> {
    match (cli.log_level, env.log_level, file.log_level) {
        (Some(level), _, _) => level@,
        (None, Some(level), _) => level@,
        (None, None, Some(level)) => level@,
        (None, None, None) => DEFAULT_LOG_LEVEL@,
    }
}

impl ResolvedConfig {
    /// The settings of these sources.
    pub open spec fn follows(
        self,
        cli: CliArgs,
        env: EnvVars,
        file: FileConfig,
        windows: bool,
    ) -> bool {
        &&& path_text(self.stockfish_path) == chosen_path(cli, env, file, windows)
        &&& cli.stockfish_path matches Some(path) ==> self.stockfish_path == path
        &&& cli.stockfish_path is None && env.stockfish_path is None ==> (
        file.stockfish_path matches Some(path) ==> self.stockfish_path == path)
        &&& self.cache_capacity == chosen_capacity(cli, env, file)
        &&& self.cache_capacity >= 1
        &&& self.log_level@ == chosen_level(cli, env, file)
    }

    /// Resolve configuration from CLI > env > file > platform default.
    pub fn resolve(cli: CliArgs, env: EnvVars, file: Result<FileConfig, ConfigError>) -> (r: Result<
        ResolvedConfig,
        ConfigError,
    >)
        ensures
            match file {
                Ok(settings) => r matches Ok(config) && (config.follows(cli, env, settings, true)
                    || config.follows(cli, env, settings, false)),
                Err(e) => r == Err::<ResolvedConfig, ConfigError>(e),
            },
    {
        match file {
            Ok(settings) => Ok(
                ResolvedConfig::resolve_for(on_windows(), cli, env, settings),
            ),
            Err(e) => Err(e),
        }
    }

    /// Resolve configuration on a given platform.
    pub fn resolve_for(windows: bool, cli: CliArgs, env: EnvVars, file: FileConfig) -> (r:
        ResolvedConfig)
        ensures
            r.follows(cli, env, file, windows),
    {
        let stockfish_path = match (cli.stockfish_path, env.stockfish_path, file.stockfish_path) {
            (Some(path), _, _) => path,
            (None, Some(text), _) => path_from(text.as_str()),
            (None, None, Some(path)) => path,
            (None, None, None) => stockfish_path_for(windows),
        };
        let from_env = match &env.cache_capacity {
            Some(text) => parse_usize(text.as_str()),
            None => None,
        };
        let capacity: usize = match (cli.cache_capacity, from_env, file.cache_capacity) {
            (Some(n), _, _) => n,
            (None, Some(n), _) => n,
            (None, None, Some(n)) => n,
            (None, None, None) => DEFAULT_CACHE_CAPACITY,
        };
        let cache_capacity: usize = if capacity < 1 {
            1
        } else {
            capacity
        };
        let log_level = match (cli.log_level, env.log_level, file.log_level) {
            (Some(level), _, _) => level,
            (None, Some(level), _) => level,
            (None, None, Some(level)) => level,
            (None, None, None) => DEFAULT_LOG_LEVEL.to_owned(),
        };
        ResolvedConfig { stockfish_path, cache_capacity, log_level }
    }
}

/// `std::path::MAIN_SEPARATOR`, which depends on the platform.
#[verifier::external_body]
fn main_separator() -> char {
    std::path::MAIN_SEPARATOR
}

/// Whether paths are written as on Windows. The platform decides, so nothing is said of the
/// result here; `is_windows_separator` says it for each separator.
pub(crate) fn on_windows() -> bool {
    is_windows_separator(main_separator())
}

/// Whether paths with this separator are written as on Windows.
pub fn is_windows_separator(separator: char) -> (r: bool)
    ensures
        r == (separator == '\\'),
{
    separator == '\\'
}

/// Where Stockfish is looked for by default on a given platform.
pub fn stockfish_path_for(windows: bool) -> (r: std::path::PathBuf)
    ensures
        path_text(r) == default_path(windows),
{
    if windows {
        path_from("stockfish/stockfish.exe")
    } else {
        path_from("stockfish/stockfish")
    }
}

/// Where Stockfish is looked for by default on this platform.
pub fn platform_default_stockfish_path() -> (r: std::path::PathBuf)
    ensures
        path_text(r) == default_path(true) || path_text(r) == default_path(false),
{
    stockfish_path_for(on_windows())
}

/// The path comes from the first of the command line, the environment and the file that sets
/// one, and from the platform where none does.
pub proof fn where_the_path_comes_from(cli: CliArgs, env: EnvVars, file: FileConfig, windows: bool)
    ensures
        ({
            let path = chosen_path(cli, env, file, windows);
            &&& cli.stockfish_path matches Some(given) ==> path == path_text(given)
            &&& cli.stockfish_path is None ==> (env.stockfish_path matches Some(given) ==> path
                == given@)
            &&& cli.stockfish_path is None && env.stockfish_path is None ==> (
            file.stockfish_path matches Some(given) ==> path == path_text(given))
            &&& cli.stockfish_path is None && env.stockfish_path is None && file.stockfish_path
                is None ==> path == (if windows {
                "stockfish/stockfish.exe"@
            } else {
                "stockfish/stockfish"@
            })
        }),
{
}

/// The capacity comes from the first of the command line, the environment and the file that
/// sets one, and is 1024 where none does; a text of the environment that is no number sets
/// none. It is taken as it is, but for zero, which stands for one.
pub proof fn where_the_capacity_comes_from(cli: CliArgs, env: EnvVars, file: FileConfig, n: usize)
    ensures
        ({
            let from_env = env.cache_capacity matches Some(text) && read_usize(text@) is Some;
            let capacity = chosen_capacity(cli, env, file);
            let taken = if n == 0 {
                1usize
            } else {
                n
            };
            &&& cli.cache_capacity == Some(n) ==> capacity == taken
            &&& cli.cache_capacity is None && (env.cache_capacity matches Some(text) && read_usize(
                text@,
            ) == Some(n)) ==> capacity == taken
            &&& cli.cache_capacity is None && !from_env && file.cache_capacity == Some(n)
                ==> capacity == taken
            &&& cli.cache_capacity is None && !from_env && file.cache_capacity is None ==> capacity
                == 1024
        }),
{
}

/// The log level comes from the first of the command line, the environment and the file that
/// sets one, as it is given there, and is `info` where none does.
pub proof fn where_the_level_comes_from(cli: CliArgs, env: EnvVars, file: FileConfig)
    ensures
        ({
            let level = chosen_level(cli, env, file);
            &&& cli.log_level matches Some(given) ==> level == given@
            &&& cli.log_level is None ==> (env.log_level matches Some(given) ==> level == given@)
            &&& cli.log_level is None && env.log_level is None ==> (
            file.log_level matches Some(given) ==> level == given@)
            &&& cli.log_level is None && env.log_level is None && file.log_level is None ==> level
                == "info"@
        }),
{
}

/// What a source sets is not changed by the sources after it.
pub proof fn earlier_sources_win(
    config: ResolvedConfig,
    cli: CliArgs,
    env: EnvVars,
    file: FileConfig,
    other: FileConfig,
    windows: bool,
)
    requires
        config.follows(cli, env, file, windows),
    ensures
        path_text(config.stockfish_path) == chosen_path(cli, env, file, windows),
        config.cache_capacity == chosen_capacity(cli, env, file),
        config.log_level@ == chosen_level(cli, env, file),
        cli.stockfish_path is Some || env.stockfish_path is Some ==> path_text(
            config.stockfish_path,
        ) == chosen_path(cli, env, other, windows),
        cli.cache_capacity is Some ==> config.cache_capacity == chosen_capacity(cli, env, other),
        cli.log_level is Some || env.log_level is Some ==> config.log_level@ == chosen_level(
            cli,
            env,
            other,
        ),
{
}

} // verus!
