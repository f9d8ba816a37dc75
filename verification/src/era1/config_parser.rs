//! Application settings with defaults and a consistency check.
use vstd::prelude::*;
use crate::text::{str_eq, concat_str};

verus! {

broadcast use vstd::string::group_string_axioms;

/// The whole application configuration.
pub struct AppConfig {
    pub server: ServerConfig,
    pub database: DatabaseConfig,
    pub logging: LoggingConfig,
}

/// Where and how the server listens.
pub struct ServerConfig {
    pub host: String,
    pub port: u16,
    pub timeout_seconds: u64,
}

/// How the database is reached.
pub struct DatabaseConfig {
    pub url: String,
    pub max_connections: u32,
    pub pool_timeout_seconds: u64,
}

/// How the application logs.
pub struct LoggingConfig {
    pub level: String,
    pub file_path: Option<String>,
    pub max_file_size_mb: u64,
}

/// The log levels that are accepted.
pub open spec fn is_log_level(level: Seq<char>) -> bool {
    level == "error"@ || level == "warn"@ || level == "info"@ || level == "debug"@ || level
        == "trace"@
}

/// Whether `level` is one of the accepted log levels.
pub fn check_log_level(level: &str) -> (b: bool)
    ensures
        b == is_log_level(level@),
{
    str_eq(level, "error") || str_eq(level, "warn") || str_eq(level, "info") || str_eq(
        level,
        "debug",
    ) || str_eq(level, "trace")
}

impl Default for AppConfig {
    fn default() -> (c: Self)
        ensures
            c.server.host@ == "127.0.0.1"@,
            c.server.port == 8080,
            c.server.timeout_seconds == 30,
            c.database.url@ == "postgresql://localhost:5432/mydb"@,
            c.database.max_connections == 10,
            c.database.pool_timeout_seconds == 10,
            c.logging.level@ == "info"@,
            c.logging.file_path is None,
            c.logging.max_file_size_mb == 100,
    {
        AppConfig {
            server: ServerConfig {
                host: "127.0.0.1".to_string(),
                port: 8080,
                timeout_seconds: 30,
            },
            database: DatabaseConfig {
                url: "postgresql://localhost:5432/mydb".to_string(),
                max_connections: 10,
                pool_timeout_seconds: 10,
            },
            logging: LoggingConfig {
                level: "info".to_string(),
                file_path: None,
                max_file_size_mb: 100,
            },
        }
    }
}

/// Checks the configuration; the first problem found is reported.
pub fn validate_config(config: &AppConfig) -> (r: Result<(), String>)
    ensures
        config.server.port == 0 ==> (r matches Err(m) && m@ == "Server port cannot be zero"@),
        config.server.port != 0 && config.database.max_connections == 0 ==> (r matches Err(m)
            && m@ == "Database max connections cannot be zero"@),
        config.server.port != 0 && config.database.max_connections != 0 && !is_log_level(
            config.logging.level@,
        ) ==> (r matches Err(m) && m@ == "Invalid log level: "@ + config.logging.level@),
        r is Ok <==> (config.server.port != 0 && config.database.max_connections != 0
            && is_log_level(config.logging.level@)),
{
    if config.server.port == 0 {
        return Err("Server port cannot be zero".to_string());
    }
    if config.database.max_connections == 0 {
        return Err("Database max connections cannot be zero".to_string());
    }
    if !check_log_level(config.logging.level.as_str()) {
        return Err(concat_str("Invalid log level: ", config.logging.level.as_str()));
    }
    Ok(())
}

/// The first problem `validate_config` finds in `c`, if any.
pub open spec fn config_problem(c: AppConfig) -> Option<Seq<char>> {
    if c.server.port == 0 {
        Some("Server port cannot be zero"@)
    } else if c.database.max_connections == 0 {
        Some("Database max connections cannot be zero"@)
    } else if !is_log_level(c.logging.level@) {
        Some("Invalid log level: "@ + c.logging.level@)
    } else {
        None
    }
}

/// Whether `c` holds the default settings.
pub open spec fn is_default_config(c: AppConfig) -> bool {
    &&& c.server.host@ == "127.0.0.1"@
    &&& c.server.port == 8080
    &&& c.server.timeout_seconds == 30
    &&& c.database.url@ == "postgresql://localhost:5432/mydb"@
    &&& c.database.max_connections == 10
    &&& c.database.pool_timeout_seconds == 10
    &&& c.logging.level@ == "info"@
    &&& c.logging.file_path is None
    &&& c.logging.max_file_size_mb == 100
}

/// The settings of a file, checked; `loaded` is what reading and decoding the
/// file gave.
pub fn load_config(loaded: Result<AppConfig, String>) -> (r: Result<AppConfig, String>)
    ensures
        match loaded {
            Err(e) => r matches Err(m) && m@ == e@,
            Ok(c) => match config_problem(c) {
                None => r == Ok::<AppConfig, String>(c),
                Some(p) => r matches Err(m) && m@ == p,
            },
        },
{
    match loaded {
        Err(e) => Err(e),
        Ok(c) => {
            match validate_config(&c) {
                Err(e) => Err(e),
                Ok(()) => Ok(c),
            }
        },
    }
}

/// The settings of a file when they load and check, else the defaults.
pub fn load_config_or_default(loaded: Result<AppConfig, String>) -> (c: AppConfig)
    ensures
        match loaded {
            Ok(x) => if config_problem(x) is None {
                c == x
            } else {
                is_default_config(c)
            },
            Err(_) => is_default_config(c),
        },
{
    match load_config(loaded) {
        Ok(c) => c,
        Err(_) => AppConfig::default(),
    }
}

} // verus!
