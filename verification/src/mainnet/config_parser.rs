//! `KEY=VALUE` settings with `${NAME}` references to environment variables.
//!
//! The environment is handed in as a list of name/value pairs; a name that is
//! not in the list is unset.
use vstd::prelude::*;
use crate::text::{is_ws, lemma_trim_ends, trim, lines, views, pair_views, first_index_of, lines_of, trim_chars, slice_chars, find_char, find_pair, chars_of, string_from_chars};
use crate::json_value::{lookup, obj_insert, distinct_keys, lemma_key_index_bounds, lemma_obj_insert_distinct};

verus! {

broadcast use vstd::string::group_string_axioms;

/// The value that the environment `env` gives the variable `name`, empty when unset.
pub open spec fn env_value(env: Seq<(Seq<char>, Seq<char>)>, name: Seq<char>) -> Seq<char> {
    match lookup(env, name) {
        Some(v) => v,
        None => Seq::empty(),
    }
}

/// What is left of `v` from position `i` on after substitution, where `in_braces`
/// says whether a `${` is open and `name` holds what has been read of its name.
pub open spec fn substitute_from(
    v: Seq<char>,
    i: int,
    env: Seq<(Seq<char>, Seq<char>)>,
    in_braces: bool,
    name: Seq<char>,
) -> Seq<char>
    decreases v.len() - i,
{
    if i < 0 || i >= v.len() {
        Seq::empty()
    } else if v[i] == '$' && i + 1 < v.len() && v[i + 1] == '{' {
        substitute_from(v, i + 2, env, true, Seq::empty())
    } else if in_braces {
        if v[i] == '}' {
            env_value(env, name) + substitute_from(v, i + 1, env, false, Seq::empty())
        } else {
            substitute_from(v, i + 1, env, true, name.push(v[i]))
        }
    } else {
        seq![v[i]] + substitute_from(v, i + 1, env, false, name)
    }
}

/// `v` with each `${NAME}` replaced by the value of `NAME` in `env` (nothing when it
/// is unset); an unclosed `${` and what follows it are dropped.
pub open spec fn substitute(v: Seq<char>, env: Seq<(Seq<char>, Seq<char>)>) -> Seq<char> {
    substitute_from(v, 0, env, false, Seq::empty())
}

/// The setting that the line `line` holds, if any: blank lines, lines whose first
/// non-blank character is `#` and lines without `=` hold none.
pub open spec fn line_entry(line: Seq<char>, env: Seq<(Seq<char>, Seq<char>)>) -> Option<
    (Seq<char>, Seq<char>),
> {
    let t = trim(line);
    if t.len() == 0 || t[0] == '#' {
        None
    } else {
        match first_index_of(t, '=') {
            Some(p) => Some((trim(t.take(p)), substitute(trim(t.skip(p + 1)), env))),
            None => None,
        }
    }
}

/// The settings of the lines `ls`, in the order their keys first appear; a later
/// line for a key replaces the value of an earlier one.
pub open spec fn settings_of(ls: Seq<Seq<char>>, env: Seq<(Seq<char>, Seq<char>)>) -> Seq<
    (Seq<char>, Seq<char>),
>
    decreases ls.len(),
{
    if ls.len() == 0 {
        Seq::empty()
    } else {
        let m = settings_of(ls.drop_last(), env);
        match line_entry(ls.last(), env) {
            Some(e) => obj_insert(m, e.0, e.1),
            None => m,
        }
    }
}

/// The settings of the text `content`.
pub open spec fn parsed_settings(content: Seq<char>, env: Seq<(Seq<char>, Seq<char>)>) -> Seq<
    (Seq<char>, Seq<char>),
> {
    settings_of(lines(content), env)
}

/// `k` neither begins nor ends with whitespace.
pub open spec fn no_edge_space(k: Seq<char>) -> bool {
    k.len() > 0 ==> !is_ws(k[0]) && !is_ws(k.last())
}

/// Every key of the settings of lines neither begins nor ends with whitespace,
/// whatever spaces surround it in its line; so a line `K = V` sets the key `K`
/// without the spaces before `=`.
pub proof fn law_setting_keys_are_trimmed(ls: Seq<Seq<char>>, env: Seq<(Seq<char>, Seq<char>)>)
    ensures
        forall|j: int| 0 <= j < settings_of(ls, env).len() ==> no_edge_space(#[trigger] settings_of(ls, env)[j].0),
    decreases ls.len(),
{
    if ls.len() > 0 {
        law_setting_keys_are_trimmed(ls.drop_last(), env);
        let m = settings_of(ls.drop_last(), env);
        match line_entry(ls.last(), env) {
            Some(e) => {
                let t = trim(ls.last());
                let p = first_index_of(t, '=')->0;
                lemma_trim_ends(t.take(p));
                assert(e.0 == trim(t.take(p)));
                lemma_key_index_bounds(m, e.0);
                let r = obj_insert(m, e.0, e.1);
                assert forall|j: int| 0 <= j < r.len() implies no_edge_space(#[trigger] r[j].0) by {
                    if j < m.len() && j != crate::json_value::key_index(m, e.0) {
                        assert(r[j] == m[j]);
                    }
                }
            },
            None => {},
        }
    }
}

/// For text `content`, every key of its settings neither begins nor ends with
/// whitespace.
pub proof fn law_parsed_keys_are_trimmed(content: Seq<char>, env: Seq<(Seq<char>, Seq<char>)>)
    ensures
        forall|j: int|
            0 <= j < parsed_settings(content, env).len() ==> no_edge_space(#[trigger] parsed_settings(content, env)[j].0),
{
    law_setting_keys_are_trimmed(lines(content), env);
}

/// Settings read from `KEY=VALUE` lines.
pub struct Config {
    values: Vec<(String, String)>,
}

impl Config {
    /// The settings, in the order their keys first appeared.
    pub closed spec fn entries(&self) -> Seq<(Seq<char>, Seq<char>)> {
        pair_views(self.values@)
    }

    #[verifier::type_invariant]
    spec fn keys_distinct(&self) -> bool {
        distinct_keys(pair_views(self.values@))
    }

    /// Reads the settings of `content`, resolving `${NAME}` against `env`.
    pub fn parse(content: &str, env: &Vec<(String, String)>) -> (r: Result<Config, String>)
        ensures
            r matches Ok(c) && c.entries() == parsed_settings(content@, pair_views(env@)),
    {
        let ls = lines_of(content);
        let ghost e = pair_views(env@);
        let mut values: Vec<(String, String)> = Vec::new();
        let mut i: usize = 0;
        while i < ls.len()
            invariant
                i <= ls@.len(),
                e == pair_views(env@),
                views(ls@) == lines(content@),
                pair_views(values@) == settings_of(views(ls@).take(i as int), e),
                distinct_keys(pair_views(values@)),
            decreases ls.len() - i,
        {
            let ghost before = pair_views(values@);
            assert(views(ls@).take(i + 1).drop_last() =~= views(ls@).take(i as int));
            assert(views(ls@).take(i + 1).last() == ls@[i as int]@);
            let t = trim_chars(ls[i].as_slice());
            if t.len() > 0 && t[0] != '#' {
                match find_char(t.as_slice(), '=') {
                    Some(p) => {
                        let left = slice_chars(t.as_slice(), 0, p);
                        let right = slice_chars(t.as_slice(), p + 1, t.len());
                        assert(left@ =~= t@.take(p as int));
                        assert(right@ =~= t@.skip(p + 1));
                        let key = trim_chars(left.as_slice());
                        let raw = trim_chars(right.as_slice());
                        let value = Self::process_value(raw.as_slice(), env);
                        let k = find_pair(&values, key.as_slice());
                        let ks = string_from_chars(key.as_slice());
                        let vs = string_from_chars(value.as_slice());
                        proof {
                            lemma_obj_insert_distinct(before, ks@, vs@);
                        }
                        if k < values.len() {
                            values.set(k, (ks, vs));
                        } else {
                            values.push((ks, vs));
                        }
                        assert(pair_views(values@) =~= obj_insert(before, key@, value@));
                    },
                    None => {},
                }
            }
            i += 1;
        }
        assert(views(ls@).take(ls@.len() as int) =~= views(ls@));
        Ok(Config { values })
    }

    /// Replaces each `${NAME}` of `value` by the value of `NAME` in `env`.
    fn process_value(value: &[char], env: &Vec<(String, String)>) -> (r: Vec<char>)
        ensures
            r@ == substitute(value@, pair_views(env@)),
    {
        let ghost e = pair_views(env@);
        let mut result: Vec<char> = Vec::new();
        let mut in_braces = false;
        let mut name: Vec<char> = Vec::new();
        let mut i: usize = 0;
        while i < value.len()
            invariant
                i <= value@.len(),
                e == pair_views(env@),
                result@ + substitute_from(value@, i as int, e, in_braces, name@) == substitute(
                    value@,
                    e,
                ),
            decreases value.len() - i,
        {
            let ch = value[i];
            let ghost r0 = result@;
            if ch == '$' && i + 1 < value.len() && value[i + 1] == '{' {
                in_braces = true;
                name = Vec::new();
                i += 2;
            } else if in_braces {
                if ch == '}' {
                    let ghost n0 = name@;
                    in_braces = false;
                    let k = find_pair(env, name.as_slice());
                    if k < env.len() {
                        let extra = chars_of(env[k].1.as_str());
                        let mut j: usize = 0;
                        while j < extra.len()
                            invariant
                                j <= extra@.len(),
                                result@ == r0 + extra@.take(j as int),
                            decreases extra.len() - j,
                        {
                            result.push(extra[j]);
                            j += 1;
                            assert(result@ =~= r0 + extra@.take(j as int));
                        }
                        assert(extra@.take(extra@.len() as int) =~= extra@);
                    }
                    assert(result@ == r0 + env_value(e, n0));
                    name = Vec::new();
                    i += 1;
                    assert(r0 + (env_value(e, n0) + substitute_from(value@, i as int, e, false, Seq::empty()))
                        =~= result@ + substitute_from(value@, i as int, e, false, Seq::empty()));
                } else {
                    name.push(ch);
                    i += 1;
                }
            } else {
                result.push(ch);
                i += 1;
                assert(r0 + (seq![ch] + substitute_from(value@, i as int, e, false, name@))
                    =~= result@ + substitute_from(value@, i as int, e, false, name@));
            }
        }
        assert(result@ + substitute_from(value@, i as int, e, in_braces, name@) =~= result@);
        result
    }

    /// The value of `key`, if it is set.
    pub fn get(&self, key: &str) -> (r: Option<&String>)
        ensures
            match r {
                Some(v) => lookup(self.entries(), key@) == Some(v@),
                None => lookup(self.entries(), key@) is None,
            },
    {
        proof {
            lemma_key_index_bounds(self.entries(), key@);
        }
        let k = chars_of(key);
        let i = find_pair(&self.values, k.as_slice());
        if i < self.values.len() {
            Some(&self.values[i].1)
        } else {
            None
        }
    }

    /// The value of `key`, or `default` when it is not set.
    pub fn get_or_default(&self, key: &str, default: &str) -> (r: String)
        ensures
            r@ == match lookup(self.entries(), key@) {
                Some(v) => v,
                None => default@,
            },
    {
        match self.get(key) {
            Some(v) => v.clone(),
            None => default.to_string(),
        }
    }
}

} // verus!
