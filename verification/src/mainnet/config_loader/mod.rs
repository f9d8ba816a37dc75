//! Application settings taken from the environment or from a settings file.
//!
//! Reading the environment and the file happens outside; the values read, or the
//! text of the error met while reading them, are handed in here.
use vstd::prelude::*;
use crate::era1::config_parser::{is_log_level, check_log_level};
use crate::numbers::{parse_unsigned, parse_unsigned_or_failure, unsigned_failure};
use crate::text::concat_str;

pub mod with_overrides;

verus! {

broadcast use vstd::string::group_string_axioms;

/// The application settings.
pub struct AppConfig {
    pub server_port: u16,
    pub database_url: String,
    pub log_level: String,
    pub cache_ttl: u64,
}

/// The first problem of settings with these fields, if any.
pub open spec fn config_problem(server_port: int, database_url: Seq<char>, log_level: Seq<char>) -> Option<
    Seq<char>,
> {
    if server_port == 0 {
        Some("Server port cannot be zero"@)
    } else if database_url.len() == 0 {
        Some("Database URL cannot be empty"@)
    } else if !is_log_level(log_level) {
        Some("Invalid log level: "@ + log_level)
    } else {
        None
    }
}

/// A read value or the text of the error met while reading it.
pub open spec fn text_result(r: Result<String, String>) -> Result<Seq<char>, Seq<char>> {
    match r {
        Ok(s) => Ok(s@),
        Err(e) => Err(e@),
    }
}

/// The settings that the environment values give, as the fields port, database
/// URL, log level and cache lifetime, or the text of the first error: a missing
/// variable's error, or why a number does not parse. An unset log level is `info`.
pub open spec fn env_settings(
    port: Result<Seq<char>, Seq<char>>,
    url: Result<Seq<char>, Seq<char>>,
    level: Result<Seq<char>, Seq<char>>,
    ttl: Result<Seq<char>, Seq<char>>,
) -> Result<(int, Seq<char>, Seq<char>, int), Seq<char>> {
    match port {
        Err(e) => Err(e),
        Ok(p) => match parse_unsigned(p, 65535) {
            None => Err(unsigned_failure(p, 65535).text()),
            Some(pv) => match url {
                Err(e) => Err(e),
                Ok(u) => {
                    let l = match level {
                        Ok(l) => l,
                        Err(_) => "info"@,
                    };
                    match ttl {
                        Err(e) => Err(e),
                        Ok(t) => match parse_unsigned(t, u64::MAX as int) {
                            None => Err(unsigned_failure(t, u64::MAX as int).text()),
                            Some(tv) => Ok((pv, u, l, tv)),
                        },
                    }
                },
            },
        },
    }
}

impl AppConfig {
    /// The fields: port, database URL, log level and cache lifetime.
    pub open spec fn fields(&self) -> (int, Seq<char>, Seq<char>, int) {
        (self.server_port as int, self.database_url@, self.log_level@, self.cache_ttl as int)
    }

    /// Checks the settings; the first problem found is reported.
    pub fn validate(&self) -> (r: Result<(), String>)
        ensures
            match r {
                Ok(()) => config_problem(self.server_port as int, self.database_url@, self.log_level@) is None,
                Err(m) => config_problem(self.server_port as int, self.database_url@, self.log_level@) == Some(m@),
            },
    {
        if self.server_port == 0 {
            return Err("Server port cannot be zero".to_string());
        }
        if self.database_url.as_str().is_empty() {
            return Err("Database URL cannot be empty".to_string());
        }
        if !check_log_level(self.log_level.as_str()) {
            return Err(concat_str("Invalid log level: ", self.log_level.as_str()));
        }
        Ok(())
    }

    /// Settings from the values of `SERVER_PORT`, `DATABASE_URL`, `LOG_LEVEL` and
    /// `CACHE_TTL`, each as read from the environment; they must pass `validate`.
    pub fn from_env(
        server_port: Result<String, String>,
        database_url: Result<String, String>,
        log_level: Result<String, String>,
        cache_ttl: Result<String, String>,
    ) -> (r: Result<AppConfig, String>)
        ensures
            match env_settings(
                text_result(server_port),
                text_result(database_url),
                text_result(log_level),
                text_result(cache_ttl),
            ) {
                Err(e) => r matches Err(m) && m@ == e,
                Ok(f) => match config_problem(f.0, f.1, f.2) {
                    Some(p) => r matches Err(m) && m@ == p,
                    None => r matches Ok(c) && c.fields() == f,
                },
            },
    {
        let port_text = match server_port {
            Err(e) => return Err(e),
            Ok(p) => p,
        };
        let port = match parse_unsigned_or_failure(port_text.as_str(), 65535) {
            Err(f) => return Err(f.message()),
            Ok(v) => v,
        };
        let url = match database_url {
            Err(e) => return Err(e),
            Ok(u) => u,
        };
        let level = match log_level {
            Ok(l) => l,
            Err(_) => "info".to_string(),
        };
        let ttl_text = match cache_ttl {
            Err(e) => return Err(e),
            Ok(t) => t,
        };
        let ttl = match parse_unsigned_or_failure(ttl_text.as_str(), u64::MAX) {
            Err(f) => return Err(f.message()),
            Ok(v) => v,
        };
        let config = AppConfig {
            server_port: port as u16,
            database_url: url,
            log_level: level,
            cache_ttl: ttl,
        };
        match config.validate() {
            Err(m) => Err(m),
            Ok(()) => Ok(config),
        }
    }

    /// Settings as read from a settings file, or the text of the error met reading
    /// or decoding it; they must pass `validate`.
    pub fn from_file(parsed: Result<AppConfig, String>) -> (r: Result<AppConfig, String>)
        ensures
            match parsed {
                Err(e) => r matches Err(m) && m@ == e@,
                Ok(c) => match config_problem(c.server_port as int, c.database_url@, c.log_level@) {
                    Some(p) => r matches Err(m) && m@ == p,
                    None => r matches Ok(d) && d.fields() == c.fields(),
                },
            },
    {
        match parsed {
            Err(e) => Err(e),
            Ok(c) => match c.validate() {
                Err(m) => Err(m),
                Ok(()) => Ok(c),
            },
        }
    }

    /// The settings from the environment if they could be had, else those from the
    /// file, else an error saying that there is no source.
    pub fn load(from_env: Result<AppConfig, String>, from_file: Result<AppConfig, String>) -> (r:
        Result<AppConfig, String>)
        ensures
            from_env matches Ok(c) ==> r matches Ok(d) && d.fields() == c.fields(),
            from_env is Err ==> (from_file matches Ok(c) ==> r matches Ok(d) && d.fields()
                == c.fields()),
            (from_env is Err && from_file is Err) ==> (r matches Err(m) && m@
                == "No configuration source found"@),
    {
        if let Ok(config) = from_env {
            return Ok(config);
        }
        if let Ok(config) = from_file {
            return Ok(config);
        }
        Err("No configuration source found".to_string())
    }
}

} // verus!
