use datakit::era1::config_parser::{load_config, load_config_or_default, validate_config, AppConfig as Era1Config};
use datakit::mainnet::config_loader::AppConfig;
use datakit::mainnet::config_loader::with_overrides::{AppConfig as OverrideConfig, ConfigError, config_path};
use datakit::mainnet::config_parser::Config;
use datakit::beacon::deneb::config_parser::Config as ServiceConfig;
use datakit::beacon::deneb::signed_beacon_block::ssz_random::config_loader::{
    AppConfig as SszConfig, DatabaseConfig, LoggingConfig, ServerConfig, default_log_format, default_retry_attempts, default_timeout,
};

#[test]
fn test_default_config() {
    let config = Era1Config::default();
    assert_eq!(config.server.host, "127.0.0.1");
    assert_eq!(config.server.port, 8080);
    assert_eq!(config.database.max_connections, 10);
    assert_eq!(config.logging.level, "info");
}

#[test]
fn test_validate_config_invalid_port() {
    let mut config = Era1Config::default();
    config.server.port = 0;
    assert!(validate_config(&config).is_err());
}

#[test]
fn era1_validate_messages() {
    let mut config = Era1Config::default();
    assert!(validate_config(&config).is_ok());
    config.database.max_connections = 0;
    assert_eq!(validate_config(&config), Err("Database max connections cannot be zero".to_string()));
    config.database.max_connections = 5;
    config.logging.level = "loud".to_string();
    assert_eq!(validate_config(&config), Err("Invalid log level: loud".to_string()));
}

fn sample(level: &str) -> AppConfig {
    AppConfig {
        server_port: 8080,
        database_url: "postgres://localhost/test".to_string(),
        log_level: level.to_string(),
        cache_ttl: 300,
    }
}

#[test]
fn config_loader_test_config_validation() {
    let config = sample("info");
    assert!(config.validate().is_ok());
}

#[test]
fn test_invalid_log_level() {
    let config = sample("invalid");
    assert!(config.validate().is_err());
}

#[test]
fn test_env_config() {
    let config = AppConfig::from_env(
        Ok("8080".to_string()),
        Ok("postgres://localhost/test".to_string()),
        Err("environment variable not found".to_string()),
        Ok("300".to_string()),
    );
    let config = config.unwrap();
    assert_eq!(config.server_port, 8080);
    assert_eq!(config.log_level, "info");
    assert_eq!(config.cache_ttl, 300);
}

#[test]
fn env_config_errors() {
    let missing = AppConfig::from_env(
        Err("environment variable not found".to_string()),
        Ok("x".to_string()),
        Ok("info".to_string()),
        Ok("1".to_string()),
    );
    assert_eq!(missing.err(), Some("environment variable not found".to_string()));
    let bad_port = AppConfig::from_env(Ok("80a".to_string()), Ok("x".to_string()), Ok("info".to_string()), Ok("1".to_string()));
    assert_eq!(bad_port.err(), Some("invalid digit found in string".to_string()));
    let big_port = AppConfig::from_env(Ok("70000".to_string()), Ok("x".to_string()), Ok("info".to_string()), Ok("1".to_string()));
    assert_eq!(big_port.err(), Some("number too large to fit in target type".to_string()));
    let zero = AppConfig::from_env(Ok("0".to_string()), Ok("x".to_string()), Ok("info".to_string()), Ok("1".to_string()));
    assert_eq!(zero.err(), Some("Server port cannot be zero".to_string()));
    let empty_url = AppConfig::from_env(Ok("1".to_string()), Ok("".to_string()), Ok("info".to_string()), Ok("1".to_string()));
    assert_eq!(empty_url.err(), Some("Database URL cannot be empty".to_string()));
}

#[test]
fn load_prefers_environment() {
    let from_env = Ok(sample("debug"));
    let from_file = Ok(sample("info"));
    assert_eq!(AppConfig::load(from_env, from_file).unwrap().log_level, "debug");
    let none = AppConfig::load(Err("a".to_string()), Err("b".to_string()));
    assert_eq!(none.err(), Some("No configuration source found".to_string()));
    let file_only = AppConfig::load(Err("a".to_string()), Ok(sample("warn")));
    assert_eq!(file_only.unwrap().log_level, "warn");
}

fn file_config(url: &str) -> OverrideConfig {
    OverrideConfig { server_port: 8080, database_url: url.to_string(), log_level: "info".to_string(), cache_ttl: 300 }
}

#[test]
fn config_loader_test_config_loading() {
    let config = OverrideConfig::load(Ok(file_config("postgres://localhost/db")), None, None).unwrap();
    assert_eq!(config.server_port, 8080);
    assert_eq!(config.database_url, "postgres://localhost/db");
}

#[test]
fn test_env_override() {
    let config = OverrideConfig::load(Ok(file_config("original")), None, Some("overridden".to_string())).unwrap();
    assert_eq!(config.database_url, "overridden");
}

#[test]
fn override_port_rules() {
    let bad = OverrideConfig::load(Ok(file_config("a")), Some("abc".to_string()), None);
    assert!(matches!(bad, Err(ConfigError::InvalidPort)));
    let zero = OverrideConfig::load(Ok(file_config("a")), Some("0".to_string()), None);
    assert!(matches!(zero, Err(ConfigError::InvalidPort)));
    let ok = OverrideConfig::load(Ok(file_config("a")), Some("9090".to_string()), None).unwrap();
    assert_eq!(ok.server_port, 9090);
    let empty = file_config("");
    assert!(matches!(empty.validate(), Err(ConfigError::MissingEnvVar(v)) if v == "DATABASE_URL"));
    assert_eq!(ConfigError::InvalidPort.message(), "Invalid port number");
    assert_eq!(config_path(None), "config.toml");
    assert_eq!(config_path(Some("x.toml".to_string())), "x.toml");
}

#[test]
fn test_basic_parsing() {
    let content = "DATABASE_URL=postgres://localhost:5432/mydb\nDEBUG=true\n";
    let config = Config::parse(content, &Vec::new()).unwrap();
    assert_eq!(config.get("DATABASE_URL").unwrap(), "postgres://localhost:5432/mydb");
    assert_eq!(config.get("DEBUG").unwrap(), "true");
}

#[test]
fn test_env_substitution() {
    let env = vec![("APP_PORT".to_string(), "8080".to_string())];
    let content = "PORT=${APP_PORT}\nHOST=localhost";
    let config = Config::parse(content, &env).unwrap();
    assert_eq!(config.get("PORT").unwrap(), "8080");
    assert_eq!(config.get("HOST").unwrap(), "localhost");
}

#[test]
fn test_default_value() {
    let content = "EXISTING=value";
    let config = Config::parse(content, &Vec::new()).unwrap();
    assert_eq!(config.get_or_default("EXISTING", "default"), "value");
    assert_eq!(config.get_or_default("MISSING", "default"), "default");
}

#[test]
fn parser_edge_cases() {
    let content = "# comment\n\n  KEY = a${UNSET}b \nNOEQUALS\nKEY=second\nOPEN=x${Y";
    let config = Config::parse(content, &Vec::new()).unwrap();
    assert_eq!(config.get("KEY").unwrap(), "second");
    assert_eq!(config.get("NOEQUALS"), None);
    assert_eq!(config.get("OPEN").unwrap(), "x");
    let once = Config::parse("A=1${B}2", &vec![("B".to_string(), "-".to_string())]).unwrap();
    assert_eq!(once.get("A").unwrap(), "1-2");
}

#[test]
fn test_basic_config() {
    let text = "DATABASE_URL=postgres://prod:5432\nPORT=3000\nDEBUG=true\nAPI_KEY_WEATHER=abc123\n";
    let config = ServiceConfig::from_file(Ok(text.to_string()), &Vec::new()).unwrap();
    assert_eq!(config.database_url, "postgres://prod:5432");
    assert_eq!(config.port, 3000);
    assert!(config.debug_mode);
    assert_eq!(config.api_key("WEATHER"), Some(&"abc123".to_string()));
}

#[test]
fn test_env_variable_resolution() {
    let env = vec![("SECRET_KEY".to_string(), "env_value".to_string())];
    let config = ServiceConfig::from_file(Ok("API_KEY=$SECRET_KEY\n".to_string()), &env).unwrap();
    assert_eq!(config.api_key(""), Some(&"env_value".to_string()));
}

#[test]
fn service_config_defaults_and_errors() {
    let config = ServiceConfig::from_file(Ok("PORT=abc\nDEBUG=yes\nX=$UNSET".to_string()), &Vec::new()).unwrap();
    assert_eq!(config.database_url, "postgres://localhost:5432");
    assert_eq!(config.port, 8080);
    assert!(!config.debug_mode);
    assert!(config.validate().is_ok());
    let err = ServiceConfig::from_file(Err("no such file".to_string()), &Vec::new());
    assert_eq!(err.err(), Some("Failed to read config file: no such file".to_string()));
    let bad = ServiceConfig::from_file(Ok("DATABASE_URL=\nPORT=0".to_string()), &Vec::new()).unwrap();
    assert_eq!(
        bad.validate(),
        Err(vec!["DATABASE_URL cannot be empty".to_string(), "PORT must be greater than 0".to_string()])
    );
}

fn ssz_config(port: u16, pool: u32) -> SszConfig {
    SszConfig {
        server: ServerConfig { host: "localhost".to_string(), port, timeout: default_timeout() },
        database: DatabaseConfig { url: "postgresql://localhost/mydb".to_string(), pool_size: pool, max_retries: default_retry_attempts() },
        logging: LoggingConfig { level: "info".to_string(), file_path: None, format: default_log_format() },
    }
}

#[test]
fn ssz_config_checks() {
    let ok = SszConfig::from_file(Ok(ssz_config(8080, 10))).unwrap();
    assert_eq!(ok.server.timeout, 30);
    assert_eq!(ok.database.max_retries, 3);
    assert_eq!(ok.logging.format, "json");
    assert_eq!(SszConfig::from_file(Ok(ssz_config(0, 10))).err(), Some("Port cannot be zero".to_string()));
    assert_eq!(
        SszConfig::from_file(Ok(ssz_config(1, 0))).err(),
        Some("Database pool size cannot be zero".to_string())
    );
}

#[test]
fn test_load_config_or_default_fallback() {
    let config = load_config_or_default(Err("No such file or directory (os error 2)".to_string()));
    assert_eq!(config.server.port, 8080);
    assert_eq!(config.logging.level, "info");
}

#[test]
fn loading_checks_the_settings() {
    let mut bad = Era1Config::default();
    bad.server.port = 0;
    assert_eq!(load_config(Ok(bad)).err(), Some("Server port cannot be zero".to_string()));
    let mut bad_level = Era1Config::default();
    bad_level.logging.level = "loud".to_string();
    assert_eq!(load_or_default_port(bad_level), 8080);
    let mut good = Era1Config::default();
    good.server.port = 9000;
    assert_eq!(load_config_or_default(Ok(good)).server.port, 9000);
}

fn load_or_default_port(c: Era1Config) -> u16 {
    load_config_or_default(Ok(c)).server.port
}
