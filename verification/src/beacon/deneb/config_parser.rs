//! Service settings read from `KEY=VALUE` lines, where a value `$NAME` stands for
//! the environment variable `NAME`.
//!
//! The file is read outside and the environment is handed in as a list of
//! name/value pairs; a name that is not in the list is unset.
use vstd::prelude::*;
use crate::text::{
    lines, views, pair_views, setting_parts, lines_of, split_setting, find_pair, chars_of,
    chars_eq, string_from_chars, set_pair, concat_str, slice_chars,
};
use crate::json_value::{lookup, obj_insert, lemma_key_index_bounds};
use crate::numbers::{parse_unsigned, parse_unsigned_str};

verus! {

broadcast use vstd::string::group_string_axioms;

/// The value `v` stands for: the environment's value of `NAME` when `v` is `$NAME`
/// and `NAME` is set, else `v` itself.
pub open spec fn resolve_value(v: Seq<char>, env: Seq<(Seq<char>, Seq<char>)>) -> Seq<char> {
    if v.len() > 0 && v[0] == '$' {
        match lookup(env, v.skip(1)) {
            Some(x) => x,
            None => v,
        }
    } else {
        v
    }
}

/// The settings of the lines `ls`, in the order their keys first appear; a later
/// line for a key replaces the value of an earlier one.
pub open spec fn file_settings(ls: Seq<Seq<char>>, env: Seq<(Seq<char>, Seq<char>)>) -> Seq<
    (Seq<char>, Seq<char>),
>
    decreases ls.len(),
{
    if ls.len() == 0 {
        Seq::empty()
    } else {
        let m = file_settings(ls.drop_last(), env);
        match setting_parts(ls.last()) {
            Some((k, v)) => obj_insert(m, k, resolve_value(v, env)),
            None => m,
        }
    }
}

/// The API keys among the settings `m`: each setting whose key starts with
/// `API_KEY_`, under the rest of its key, and a setting `API_KEY`, under the empty
/// name.
pub open spec fn api_key_entries(m: Seq<(Seq<char>, Seq<char>)>) -> Seq<(Seq<char>, Seq<char>)>
    decreases m.len(),
{
    if m.len() == 0 {
        Seq::empty()
    } else {
        let r = api_key_entries(m.drop_last());
        let (k, v) = m.last();
        if k.len() >= 8 && k.take(8) == "API_KEY_"@ {
            r.push((k.skip(8), v))
        } else if k == "API_KEY"@ {
            r.push((Seq::empty(), v))
        } else {
            r
        }
    }
}

/// The database URL that the settings `m` give.
pub open spec fn database_url_of(m: Seq<(Seq<char>, Seq<char>)>) -> Seq<char> {
    match lookup(m, "DATABASE_URL"@) {
        Some(v) => v,
        None => "postgres://localhost:5432"@,
    }
}

/// The port that the settings `m` give: `PORT` when it reads as a port number, else 8080.
pub open spec fn port_of(m: Seq<(Seq<char>, Seq<char>)>) -> int {
    match lookup(m, "PORT"@) {
        Some(v) => match parse_unsigned(v, 65535) {
            Some(p) => p,
            None => 8080,
        },
        None => 8080,
    }
}

/// Whether the settings `m` turn debugging on: `DEBUG` is `true`.
pub open spec fn debug_of(m: Seq<(Seq<char>, Seq<char>)>) -> bool {
    lookup(m, "DEBUG"@) == Some("true"@)
}

/// The service settings.
#[derive(Debug, Clone)]
pub struct Config {
    pub database_url: String,
    pub port: u16,
    pub debug_mode: bool,
    /// The API keys by name, each name once.
    pub api_keys: Vec<(String, String)>,
}

impl Config {
    /// The settings that the text `contents` gives, `$NAME` values resolved against `env`.
    pub fn from_text(contents: &str, env: &Vec<(String, String)>) -> (c: Config)
        ensures
            ({
                let m = file_settings(lines(contents@), pair_views(env@));
                &&& c.database_url@ == database_url_of(m)
                &&& c.port == port_of(m)
                &&& c.debug_mode == debug_of(m)
                &&& pair_views(c.api_keys@) == api_key_entries(m)
            }),
    {
        let ls = lines_of(contents);
        let ghost e = pair_views(env@);
        let mut values: Vec<(String, String)> = Vec::new();
        let mut i: usize = 0;
        while i < ls.len()
            invariant
                i <= ls@.len(),
                e == pair_views(env@),
                views(ls@) == lines(contents@),
                pair_views(values@) == file_settings(views(ls@).take(i as int), e),
            decreases ls.len() - i,
        {
            assert(views(ls@).take(i + 1).drop_last() =~= views(ls@).take(i as int));
            assert(views(ls@).take(i + 1).last() == ls@[i as int]@);
            match split_setting(ls[i].as_slice()) {
                Some((k, v)) => {
                    let resolved = Self::resolve_value(v.as_slice(), env);
                    set_pair(&mut values, string_from_chars(k.as_slice()), resolved);
                },
                None => {},
            }
            i += 1;
        }
        assert(views(ls@).take(ls@.len() as int) =~= views(ls@));
        let ghost m = pair_views(values@);
        let database_url = match Self::setting(&values, "DATABASE_URL") {
            Some(v) => v.clone(),
            None => "postgres://localhost:5432".to_string(),
        };
        let port: u16 = match Self::setting(&values, "PORT") {
            Some(v) => match parse_unsigned_str(v.as_str(), 65535) {
                Some(p) => p as u16,
                None => 8080,
            },
            None => 8080,
        };
        let debug_mode = match Self::setting(&values, "DEBUG") {
            Some(v) => {
                let vc = chars_of(v.as_str());
                let t = vec!['t', 'r', 'u', 'e'];
                proof {
                    reveal_strlit("true");
                    assert(t@ =~= "true"@);
                }
                chars_eq(vc.as_slice(), t.as_slice())
            },
            None => false,
        };
        let api_keys = Self::api_keys_of(&values);
        Config { database_url, port, debug_mode, api_keys }
    }

    /// The settings of the file whose text was read as `contents` (or the text of
    /// the error met reading it), `$NAME` values resolved against `env`.
    pub fn from_file(contents: Result<String, String>, env: &Vec<(String, String)>) -> (r: Result<
        Config,
        String,
    >)
        ensures
            match contents {
                Err(e) => r matches Err(m) && m@ == "Failed to read config file: "@ + e@,
                Ok(t) => r matches Ok(c) && {
                    let m = file_settings(lines(t@), pair_views(env@));
                    &&& c.database_url@ == database_url_of(m)
                    &&& c.port == port_of(m)
                    &&& c.debug_mode == debug_of(m)
                    &&& pair_views(c.api_keys@) == api_key_entries(m)
                },
            },
    {
        match contents {
            Err(e) => Err(concat_str("Failed to read config file: ", e.as_str())),
            Ok(t) => Ok(Self::from_text(t.as_str(), env)),
        }
    }

    /// The value of setting `key` among `values`, if any.
    fn setting<'a>(values: &'a Vec<(String, String)>, key: &str) -> (r: Option<&'a String>)
        ensures
            match r {
                Some(v) => lookup(pair_views(values@), key@) == Some(v@),
                None => lookup(pair_views(values@), key@) is None,
            },
    {
        proof {
            lemma_key_index_bounds(pair_views(values@), key@);
        }
        let k = chars_of(key);
        let i = find_pair(values, k.as_slice());
        if i < values.len() {
            Some(&values[i].1)
        } else {
            None
        }
    }

    /// The API keys among the settings `values`.
    fn api_keys_of(values: &Vec<(String, String)>) -> (r: Vec<(String, String)>)
        ensures
            pair_views(r@) == api_key_entries(pair_views(values@)),
    {
        let prefix = vec!['A', 'P', 'I', '_', 'K', 'E', 'Y', '_'];
        proof {
            reveal_strlit("API_KEY_");
            assert(prefix@ =~= "API_KEY_"@);
        }
        let mut out: Vec<(String, String)> = Vec::new();
        let mut i: usize = 0;
        while i < values.len()
            invariant
                i <= values@.len(),
                prefix@ == "API_KEY_"@,
                pair_views(out@) == api_key_entries(pair_views(values@).take(i as int)),
            decreases values.len() - i,
        {
            let ghost m = pair_views(values@);
            assert(m.take(i + 1).drop_last() =~= m.take(i as int));
            let k = chars_of(values[i].0.as_str());
            let bare = vec!['A', 'P', 'I', '_', 'K', 'E', 'Y'];
            proof {
                reveal_strlit("API_KEY");
                assert(bare@ =~= "API_KEY"@);
            }
            if chars_eq(k.as_slice(), bare.as_slice()) {
                let ghost before = pair_views(out@);
                out.push((String::new(), values[i].1.clone()));
                assert(pair_views(out@) =~= before.push((Seq::<char>::empty(), values@[i as int].1@)));
                assert(!(k@.len() >= 8));
            } else if k.len() >= 8 {
                let head = slice_chars(k.as_slice(), 0, 8);
                assert(head@ =~= k@.take(8));
                if chars_eq(head.as_slice(), prefix.as_slice()) {
                    let rest = slice_chars(k.as_slice(), 8, k.len());
                    assert(rest@ =~= k@.skip(8));
                    let ghost before = pair_views(out@);
                    out.push((string_from_chars(rest.as_slice()), values[i].1.clone()));
                    assert(pair_views(out@) =~= before.push((k@.skip(8), values@[i as int].1@)));
                }
            }
            i += 1;
        }
        assert(pair_views(values@).take(values@.len() as int) =~= pair_views(values@));
        out
    }

    /// The value `v` stands for, `$NAME` resolved against `env`.
    fn resolve_value(v: &[char], env: &Vec<(String, String)>) -> (r: String)
        ensures
            r@ == resolve_value(v@, pair_views(env@)),
    {
        if v.len() > 0 && v[0] == '$' {
            let name = slice_chars(v, 1, v.len());
            assert(name@ =~= v@.skip(1));
            proof {
                lemma_key_index_bounds(pair_views(env@), name@);
            }
            let i = find_pair(env, name.as_slice());
            if i < env.len() {
                return env[i].1.clone();
            }
        }
        string_from_chars(v)
    }

    /// The API key stored under `name`, if any.
    pub fn api_key(&self, name: &str) -> (r: Option<&String>)
        ensures
            match r {
                Some(v) => lookup(pair_views(self.api_keys@), name@) == Some(v@),
                None => lookup(pair_views(self.api_keys@), name@) is None,
            },
    {
        Self::setting(&self.api_keys, name)
    }

    /// Checks the settings; every problem found is reported, in order.
    pub fn validate(&self) -> (r: Result<(), Vec<String>>)
        ensures
            (self.database_url@.len() == 0 || self.port == 0) <==> r is Err,
            r matches Err(errors) ==> {
                let expected: Seq<Seq<char>> = if self.database_url@.len() == 0 && self.port == 0 {
                    seq!["DATABASE_URL cannot be empty"@, "PORT must be greater than 0"@]
                } else if self.database_url@.len() == 0 {
                    seq!["DATABASE_URL cannot be empty"@]
                } else {
                    seq!["PORT must be greater than 0"@]
                };
                crate::text::string_views(errors@) == expected
            },
    {
        let mut errors: Vec<String> = Vec::new();
        if self.database_url.as_str().is_empty() {
            errors.push("DATABASE_URL cannot be empty".to_string());
        }
        if self.port == 0 {
            errors.push("PORT must be greater than 0".to_string());
        }
        if errors.len() == 0 {
            Ok(())
        } else {
            assert(crate::text::string_views(errors@) =~= (if self.database_url@.len() == 0
                && self.port == 0 {
                seq!["DATABASE_URL cannot be empty"@, "PORT must be greater than 0"@]
            } else if self.database_url@.len() == 0 {
                seq!["DATABASE_URL cannot be empty"@]
            } else {
                seq!["PORT must be greater than 0"@]
            }));
            Err(errors)
        }
    }
}

} // verus!
