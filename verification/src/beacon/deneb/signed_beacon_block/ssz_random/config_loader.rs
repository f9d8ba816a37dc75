//! Server, database and logging settings, with defaults for the optional ones.
//!
//! The settings file is read and decoded outside; the decoded settings, or the
//! text of the error met, are handed in here.
use vstd::prelude::*;

verus! {

broadcast use vstd::string::group_string_axioms;

/// All the settings.
pub struct AppConfig {
    pub server: ServerConfig,
    pub database: DatabaseConfig,
    pub logging: LoggingConfig,
}

/// Where the server listens.
pub struct ServerConfig {
    pub host: String,
    pub port: u16,
    pub timeout: u64,
}

/// How the database is reached.
pub struct DatabaseConfig {
    pub url: String,
    pub pool_size: u32,
    pub max_retries: u8,
}

/// How the application logs.
pub struct LoggingConfig {
    pub level: String,
    pub file_path: Option<String>,
    pub format: String,
}

/// The server timeout when none is given.
pub fn default_timeout() -> (t: u64)
    ensures
        t == 30,
{
    30
}

/// The number of database retries when none is given.
pub fn default_retry_attempts() -> (n: u8)
    ensures
        n == 3,
{
    3
}

/// The log format when none is given.
pub fn default_log_format() -> (f: String)
    ensures
        f@ == "json"@,
{
    "json".to_string()
}

/// The first problem of settings with this port and pool size, if any.
pub open spec fn config_problem(port: u16, pool_size: u32) -> Option<Seq<char>> {
    if port == 0 {
        Some("Port cannot be zero"@)
    } else if pool_size == 0 {
        Some("Database pool size cannot be zero"@)
    } else {
        None
    }
}

impl AppConfig {
    /// Checks the settings; the first problem found is reported.
    pub fn validate(&self) -> (r: Result<(), String>)
        ensures
            match config_problem(self.server.port, self.database.pool_size) {
                Some(p) => r matches Err(m) && m@ == p,
                None => r is Ok,
            },
    {
        if self.server.port == 0 {
            return Err("Port cannot be zero".to_string());
        }
        if self.database.pool_size == 0 {
            return Err("Database pool size cannot be zero".to_string());
        }
        Ok(())
    }

    /// The settings decoded from the file (or the text of the error met reading or
    /// decoding it); they must pass `validate`.
    pub fn from_file(decoded: Result<AppConfig, String>) -> (r: Result<AppConfig, String>)
        ensures
            match decoded {
                Err(e) => r matches Err(m) && m@ == e@,
                Ok(c) => match config_problem(c.server.port, c.database.pool_size) {
                    Some(p) => r matches Err(m) && m@ == p,
                    None => r matches Ok(d) && d == c,
                },
            },
    {
        match decoded {
            Err(e) => Err(e),
            Ok(c) => match c.validate() {
                Err(m) => Err(m),
                Ok(()) => Ok(c),
            },
        }
    }
}

} // verus!
