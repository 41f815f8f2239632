use std::path::PathBuf;

use chess_pos_analyzer::config::{
    is_windows_separator, platform_default_stockfish_path, stockfish_path_for, CliArgs,
    ConfigError, EnvVars, FileConfig, FileRead, ResolvedConfig, DEFAULT_CACHE_CAPACITY,
    DEFAULT_LOG_LEVEL,
};

fn no_env() -> EnvVars {
    EnvVars { stockfish_path: None, cache_capacity: None, log_level: None }
}

fn missing(path: &str) -> Result<FileConfig, ConfigError> {
    FileConfig::load(PathBuf::from(path), FileRead::Missing)
}

fn read_toml(text: &str) -> FileRead {
    match text.parse::<toml::Table>() {
        Ok(table) => FileRead::Settings(FileConfig {
            stockfish_path: table.get("stockfish_path").and_then(|v| v.as_str()).map(PathBuf::from),
            cache_capacity: table
                .get("cache_capacity")
                .and_then(|v| v.as_integer())
                .map(|n| n as usize),
            log_level: table.get("log_level").and_then(|v| v.as_str()).map(String::from),
        }),
        Err(e) => FileRead::Malformed(e.to_string()),
    }
}

#[test]
fn cli_overrides_env_and_file() {
    let env = EnvVars { stockfish_path: Some("/from/env/sf".into()), ..no_env() };
    let cli = CliArgs {
        stockfish_path: Some(PathBuf::from("/cli/sf")),
        cache_capacity: Some(42),
        log_level: Some("trace".into()),
        config: Some(PathBuf::from("/nonexistent/chess-mcp.toml")),
    };
    let file = missing("/nonexistent/chess-mcp.toml");
    let cfg = ResolvedConfig::resolve(cli, env, file).unwrap();
    assert_eq!(cfg.stockfish_path, PathBuf::from("/cli/sf"));
    assert_eq!(cfg.cache_capacity, 42);
    assert_eq!(cfg.log_level, "trace");
}

#[test]
fn env_overrides_file_when_cli_missing() {
    let env = EnvVars {
        stockfish_path: Some("/from/env/sf".into()),
        cache_capacity: Some("7".into()),
        log_level: None,
    };
    let cli = CliArgs {
        config: Some(PathBuf::from("/nonexistent.toml")),
        ..Default::default()
    };
    let cfg = ResolvedConfig::resolve(cli, env, missing("/nonexistent.toml")).unwrap();
    assert_eq!(cfg.stockfish_path, PathBuf::from("/from/env/sf"));
    assert_eq!(cfg.cache_capacity, 7);
}

#[test]
fn file_used_when_cli_and_env_absent() {
    let path = PathBuf::from("chess-mcp.toml");
    let read =
        read_toml("stockfish_path = \"/file/sf\"\ncache_capacity = 99\nlog_level = \"warn\"\n");
    let cli = CliArgs { config: Some(path.clone()), ..Default::default() };
    let cfg = ResolvedConfig::resolve(cli, no_env(), FileConfig::load(path, read)).unwrap();
    assert_eq!(cfg.stockfish_path, PathBuf::from("/file/sf"));
    assert_eq!(cfg.cache_capacity, 99);
    assert_eq!(cfg.log_level, "warn");
}

#[test]
fn defaults_when_nothing_supplied() {
    let cli = CliArgs {
        config: Some(PathBuf::from("/nonexistent.toml")),
        ..Default::default()
    };
    let cfg = ResolvedConfig::resolve(cli, no_env(), missing("/nonexistent.toml")).unwrap();
    assert_eq!(cfg.stockfish_path, platform_default_stockfish_path());
    assert_eq!(cfg.cache_capacity, DEFAULT_CACHE_CAPACITY);
    assert_eq!(cfg.log_level, DEFAULT_LOG_LEVEL);
}

#[test]
fn invalid_toml_returns_parse_error() {
    let path = PathBuf::from("chess-mcp.toml");
    let err = FileConfig::load(path, read_toml("this is not = valid toml [")).unwrap_err();
    assert!(matches!(err, ConfigError::Parse { .. }));
}

#[test]
fn cache_capacity_is_at_least_one() {
    let cli = CliArgs {
        cache_capacity: Some(0),
        config: Some(PathBuf::from("/nonexistent.toml")),
        ..Default::default()
    };
    let cfg = ResolvedConfig::resolve(cli, no_env(), missing("/nonexistent.toml")).unwrap();
    assert_eq!(cfg.cache_capacity, 1);
}

#[test]
fn an_unreadable_number_of_the_environment_is_passed_over() {
    for text in ["", "x", "-1", "1.5", " 7", "99999999999999999999999"] {
        let env = EnvVars { cache_capacity: Some(text.into()), ..no_env() };
        let file = FileConfig { cache_capacity: Some(5), ..Default::default() };
        let cfg = ResolvedConfig::resolve(CliArgs::default(), env, Ok(file)).unwrap();
        assert_eq!(cfg.cache_capacity, 5);
    }
    let env = EnvVars { cache_capacity: Some("0".into()), log_level: Some("debug".into()), ..no_env() };
    let cfg = ResolvedConfig::resolve(CliArgs::default(), env, Ok(FileConfig::default())).unwrap();
    assert_eq!(cfg.cache_capacity, 1);
    assert_eq!(cfg.log_level, "debug");
}

#[test]
fn errors_of_the_file_end_the_resolution() {
    let path = PathBuf::from("/etc/x.toml");
    let unreadable =
        FileConfig::load(path.clone(), FileRead::Unreadable("permission denied".into()));
    let err = ResolvedConfig::resolve(CliArgs::default(), no_env(), unreadable).unwrap_err();
    assert_eq!(err.message(), "failed to read config file \"/etc/x.toml\": permission denied");
    let malformed = FileConfig::load(path, FileRead::Malformed("bad".into())).unwrap_err();
    assert_eq!(malformed.message(), "failed to parse config file \"/etc/x.toml\": bad");
}

#[test]
fn paths_of_the_platforms() {
    assert_eq!(stockfish_path_for(true), PathBuf::from("stockfish/stockfish.exe"));
    assert_eq!(stockfish_path_for(false), PathBuf::from("stockfish/stockfish"));
    assert!(is_windows_separator('\\'));
    assert!(!is_windows_separator('/'));
    let windows = std::path::MAIN_SEPARATOR == '\\';
    assert_eq!(platform_default_stockfish_path(), stockfish_path_for(windows));
    let cfg =
        ResolvedConfig::resolve_for(true, CliArgs::default(), no_env(), FileConfig::default());
    assert_eq!(cfg.stockfish_path, PathBuf::from("stockfish/stockfish.exe"));
}

#[test]
fn the_configuration_file_to_read() {
    assert_eq!(CliArgs::default().config_path(), PathBuf::from("chess-mcp.toml"));
    let cli = CliArgs { config: Some(PathBuf::from("/a/b.toml")), ..Default::default() };
    assert_eq!(cli.config_path(), PathBuf::from("/a/b.toml"));
}

#[test]
fn clones_of_settings() {
    let cli = CliArgs {
        stockfish_path: Some(PathBuf::from("/sf")),
        cache_capacity: Some(3),
        log_level: Some("warn".into()),
        config: None,
    };
    let copy = cli.clone();
    assert_eq!(copy.stockfish_path, cli.stockfish_path);
    assert_eq!(copy.cache_capacity, cli.cache_capacity);
    assert_eq!(copy.log_level, cli.log_level);
    assert_eq!(copy.config, None);
    let file = FileConfig { log_level: Some("debug".into()), ..Default::default() };
    assert_eq!(file.clone().log_level, file.log_level);
    assert_eq!(file.clone().stockfish_path, None);
    let cfg = ResolvedConfig::resolve_for(false, cli, no_env(), file);
    let again = cfg.clone();
    assert_eq!(again.stockfish_path, cfg.stockfish_path);
    assert_eq!((again.cache_capacity, again.log_level), (3, "warn".to_string()));
}
