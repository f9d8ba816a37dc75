//! The decisions of a weather client: a cache of answers by city that forgets an
//! answer once it is older than a time to live, the request URLs, and the errors.
//!
//! The requests, the clock and the decoding of answers are outside; the time of
//! each cache operation is handed in, in nanoseconds on a clock of the caller's.
use vstd::prelude::*;
use crate::text::{str_eq, concat_str};
use crate::json_value::{lookup, obj_insert, key_index, lemma_key_index, lemma_lookup_obj_insert};

verus! {

/// Why fetching the weather failed.
#[derive(Debug)]
pub enum WeatherError {
    RequestFailed(String),
    InvalidResponse,
    CacheExpired,
}

impl WeatherError {
    /// The text of the error.
    pub open spec fn text(&self) -> Seq<char> {
        match self {
            WeatherError::RequestFailed(e) => "Network request failed: "@ + e@,
            WeatherError::InvalidResponse => "Invalid API response"@,
            WeatherError::CacheExpired => "Cache expired"@,
        }
    }

    /// The text of the error.
    pub fn message(&self) -> (m: String)
        ensures
            m@ == self.text(),
    {
        match self {
            WeatherError::RequestFailed(e) => concat_str("Network request failed: ", e.as_str()),
            WeatherError::InvalidResponse => "Invalid API response".to_string(),
            WeatherError::CacheExpired => "Cache expired".to_string(),
        }
    }
}

/// The URL that asks for the weather of `city` in metric units.
pub open spec fn weather_url_text(city: Seq<char>, api_key: Seq<char>) -> Seq<char> {
    "https://api.openweathermap.org/data/2.5/weather?q="@ + city + "&appid="@ + api_key + "&units=metric"@
}

/// The URL that asks for the weather of `city` in metric units.
pub fn weather_url(city: &str, api_key: &str) -> (u: String)
    ensures
        u@ == weather_url_text(city@, api_key@),
{
    let a = concat_str("https://api.openweathermap.org/data/2.5/weather?q=", city);
    let b = concat_str(a.as_str(), "&appid=");
    let c = concat_str(b.as_str(), api_key);
    concat_str(c.as_str(), "&units=metric")
}

/// The URL that lists the repositories of `username`.
pub fn repos_url(username: &str) -> (u: String)
    ensures
        u@ == "https://api.github.com/users/"@ + username@ + "/repos"@,
{
    let a = concat_str("https://api.github.com/users/", username);
    concat_str(a.as_str(), "/repos")
}

/// The entries of a cache: for each city, the answer and when it was stored.
pub open spec fn cache_views<T>(v: Seq<(String, T, u64)>) -> Seq<(Seq<char>, (T, u64))> {
    Seq::new(v.len(), |i: int| (v[i].0@, (v[i].1, v[i].2)))
}

/// Whether an answer stored at `stored` is still fresh at `now` under `ttl`: no
/// time before it was stored, and less than `ttl` since.
pub open spec fn fresh(stored: u64, now: u64, ttl: u64) -> bool {
    stored <= now && now - stored < ttl
}

/// An answer just stored for a city is what the cache gives for that city at
/// the same time, when the time to live is not zero; the answers of the other
/// cities are untouched.
pub proof fn law_get_after_insert<T>(entries: Seq<(Seq<char>, (T, u64))>, city: Seq<char>, data: T, now: u64, ttl: u64, other: Seq<char>)
    requires
        ttl > 0,
    ensures
        lookup(obj_insert(entries, city, (data, now)), city) == Some((data, now)),
        fresh(now, now, ttl),
        other != city ==> lookup(obj_insert(entries, city, (data, now)), other) == lookup(entries, other),
{
    lemma_lookup_obj_insert(entries, city, (data, now), city);
    lemma_lookup_obj_insert(entries, city, (data, now), other);
}

/// Answers by city, each kept with the time it was stored.
pub struct WeatherCache<T> {
    data: Vec<(String, T, u64)>,
    ttl: u64,
}

impl<T> WeatherCache<T> {
    /// The entries.
    pub closed spec fn entries(&self) -> Seq<(Seq<char>, (T, u64))> {
        cache_views(self.data@)
    }

    /// How long an answer stays fresh, in nanoseconds.
    pub closed spec fn time_to_live(&self) -> u64 {
        self.ttl
    }

    /// An empty cache whose answers stay fresh for `ttl_seconds` seconds.
    pub fn new(ttl_seconds: u64) -> (c: WeatherCache<T>)
        requires
            ttl_seconds * 1000000000 <= u64::MAX,
        ensures
            c.entries() == Seq::<(Seq<char>, (T, u64))>::empty(),
            c.time_to_live() == ttl_seconds * 1000000000,
    {
        let c = WeatherCache { data: Vec::new(), ttl: ttl_seconds * 1000000000 };
        assert(c.entries() =~= Seq::<(Seq<char>, (T, u64))>::empty());
        c
    }

    /// The position of the entry of `city`, or the number of entries.
    fn position(&self, city: &str) -> (i: usize)
        ensures
            i == key_index(self.entries(), city@),
            i <= self.data@.len(),
    {
        let ghost m = self.entries();
        let mut i: usize = 0;
        while i < self.data.len() && !str_eq(self.data[i].0.as_str(), city)
            invariant
                i <= self.data@.len(),
                m == cache_views(self.data@),
                forall|j: int| 0 <= j < i ==> m[j].0 != city@,
            decreases self.data.len() - i,
        {
            i += 1;
        }
        proof {
            lemma_key_index(m, city@, i as int);
        }
        i
    }

    /// The answer stored for `city` when it is still fresh at `now`.
    pub fn get(&self, city: &str, now: u64) -> (r: Option<&T>)
        ensures
            match lookup(self.entries(), city@) {
                Some((x, at)) => if fresh(at, now, self.time_to_live()) {
                    r == Some(&x)
                } else {
                    r is None
                },
                None => r is None,
            },
    {
        let i = self.position(city);
        if i < self.data.len() {
            let at = self.data[i].2;
            if at <= now && now - at < self.ttl {
                Some(&self.data[i].1)
            } else {
                None
            }
        } else {
            None
        }
    }

    /// Stores `data` for `city` at `now`, in place of any earlier answer.
    pub fn insert(&mut self, city: String, data: T, now: u64)
        ensures
            final(self).entries() == obj_insert(old(self).entries(), city@, (data, now)),
            final(self).time_to_live() == old(self).time_to_live(),
    {
        let i = self.position(city.as_str());
        let ghost m = self.entries();
        let ghost cv = city@;
        if i < self.data.len() {
            self.data.set(i, (city, data, now));
            assert(self.entries() =~= m.update(i as int, (cv, (data, now))));
        } else {
            self.data.push((city, data, now));
            assert(self.entries() =~= m.push((cv, (data, now))));
        }
    }
}

} // verus!
