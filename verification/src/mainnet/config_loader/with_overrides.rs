//! Settings read from a file, then overridden by environment variables.
use vstd::prelude::*;
use crate::numbers::{parse_unsigned, parse_unsigned_str};
use crate::text::concat_str;

verus! {

broadcast use vstd::string::group_string_axioms;

/// The application settings.
pub struct AppConfig {
    pub server_port: u16,
    pub database_url: String,
    pub log_level: String,
    pub cache_ttl: u64,
}

/// Why the settings could not be had.
#[derive(Debug)]
pub enum ConfigError {
    /// The settings file could not be read; the reason is given.
    FileReadError(String),
    /// The settings file could not be decoded; the reason is given.
    ParseError(String),
    /// A required value is missing; its variable is named.
    MissingEnvVar(String),
    /// The port is not a usable port number.
    InvalidPort,
}

impl ConfigError {
    /// The text of the error.
    pub open spec fn text(&self) -> Seq<char> {
        match self {
            ConfigError::FileReadError(s) => "Failed to read config file: "@ + s@,
            ConfigError::ParseError(s) => "Failed to parse config: "@ + s@,
            ConfigError::MissingEnvVar(s) => "Missing required environment variable: "@ + s@,
            ConfigError::InvalidPort => "Invalid port number"@,
        }
    }

    /// The text of the error.
    pub fn message(&self) -> (m: String)
        ensures
            m@ == self.text(),
    {
        match self {
            ConfigError::FileReadError(s) => concat_str("Failed to read config file: ", s.as_str()),
            ConfigError::ParseError(s) => concat_str("Failed to parse config: ", s.as_str()),
            ConfigError::MissingEnvVar(s) => concat_str(
                "Missing required environment variable: ",
                s.as_str(),
            ),
            ConfigError::InvalidPort => "Invalid port number".to_string(),
        }
    }
}

/// The settings file named by `CONFIG_PATH`, else `config.toml`.
pub fn config_path(config_path_var: Option<String>) -> (p: String)
    ensures
        p@ == match config_path_var {
            Some(v) => v@,
            None => "config.toml"@,
        },
{
    match config_path_var {
        Some(v) => v,
        None => "config.toml".to_string(),
    }
}

impl AppConfig {
    /// The settings read from the file (or the error met reading or decoding it),
    /// with the port replaced by `SERVER_PORT` and the database URL by
    /// `DATABASE_URL` where those are set; a port that does not parse, or that is
    /// zero, is refused.
    pub fn load(
        from_file: Result<AppConfig, ConfigError>,
        server_port_var: Option<String>,
        database_url_var: Option<String>,
    ) -> (r: Result<AppConfig, ConfigError>)
        ensures
            from_file is Err ==> r == from_file,
            from_file matches Ok(c) ==> {
                let port: Option<int> = match server_port_var {
                    Some(p) => parse_unsigned(p@, 65535),
                    None => Some(c.server_port as int),
                };
                match port {
                    None => r matches Err(ConfigError::InvalidPort),
                    Some(pv) => if pv == 0 {
                        r matches Err(ConfigError::InvalidPort)
                    } else {
                        r matches Ok(d) && d.server_port == pv && d.database_url@ == (match database_url_var {
                            Some(u) => u@,
                            None => c.database_url@,
                        }) && d.log_level == c.log_level && d.cache_ttl == c.cache_ttl
                    },
                }
            },
    {
        let mut config = match from_file {
            Err(e) => return Err(e),
            Ok(c) => c,
        };
        if let Some(port) = server_port_var {
            match parse_unsigned_str(port.as_str(), 65535) {
                None => return Err(ConfigError::InvalidPort),
                Some(v) => {
                    config.server_port = v as u16;
                },
            }
        }
        if let Some(url) = database_url_var {
            config.database_url = url;
        }
        if config.server_port == 0 {
            return Err(ConfigError::InvalidPort);
        }
        Ok(config)
    }

    /// Checks the settings: the database URL must not be empty.
    pub fn validate(&self) -> (r: Result<(), ConfigError>)
        ensures
            r is Ok <==> self.database_url@.len() > 0,
            r matches Err(e) ==> e matches ConfigError::MissingEnvVar(v) && v@ == "DATABASE_URL"@,
    {
        if self.database_url.as_str().is_empty() {
            return Err(ConfigError::MissingEnvVar("DATABASE_URL".to_string()));
        }
        Ok(())
    }
}

} // verus!
