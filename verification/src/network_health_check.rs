//! Decides whether hosts and ports answer, from the outcomes of name lookups and
//! connection attempts made outside.
use vstd::prelude::*;
use crate::numbers::{decimal_text, signed_decimal};
use crate::text::concat_str;

verus! {

broadcast use vstd::string::group_string_axioms;

/// Checks hosts and ports with a connection timeout.
pub struct NetworkHealth {
    timeout_secs: u64,
}

/// What a port check answers, given the outcome of looking the address up: the
/// error text of a failed lookup, or for each address found whether a connection
/// to it succeeded.
pub open spec fn port_outcome(lookup: Result<Seq<bool>, Seq<char>>) -> Result<bool, Seq<char>> {
    match lookup {
        Err(e) => Err("DNS resolution failed: "@ + e),
        Ok(c) => if c.len() == 0 {
            Err("No addresses resolved"@)
        } else {
            Ok(exists|i: int| 0 <= i < c.len() && c[i])
        },
    }
}

impl NetworkHealth {
    /// The connection timeout, in seconds.
    pub closed spec fn timeout(&self) -> u64 {
        self.timeout_secs
    }

    /// A checker that gives each connection attempt `timeout_secs` seconds.
    pub fn new(timeout_secs: u64) -> (h: NetworkHealth)
        ensures
            h.timeout() == timeout_secs,
    {
        NetworkHealth { timeout_secs }
    }

    /// The connection timeout, in seconds.
    pub fn timeout_secs(&self) -> (t: u64)
        ensures
            t == self.timeout(),
    {
        self.timeout_secs
    }

    /// The address to look up for `host` and `port`: `host:port`.
    pub fn address(host: &str, port: u16) -> (a: String)
        ensures
            a@ == host@ + seq![':'] + decimal_text(port as nat),
    {
        let with_colon = concat_str(host, ":");
        let digits = signed_decimal(port as i128);
        proof {
            reveal_strlit(":");
        }
        concat_str(with_colon.as_str(), digits.as_str())
    }

    /// Whether the port answers: an error when the lookup failed or found no
    /// address, else whether a connection to one of the addresses succeeded.
    /// `connections` holds the outcomes of the attempts made, in order; the
    /// attempts may stop at the first success.
    pub fn check_port(&self, lookup: Result<Vec<bool>, String>) -> (r: Result<bool, String>)
        ensures
            match lookup {
                Err(e) => r matches Err(m) && port_outcome(Err(e@)) == Err::<bool, Seq<char>>(m@),
                Ok(c) => match port_outcome(Ok(c@)) {
                    Ok(b) => r == Ok::<bool, String>(b),
                    Err(p) => r matches Err(m) && m@ == p,
                },
            },
    {
        match lookup {
            Err(e) => Err(concat_str("DNS resolution failed: ", e.as_str())),
            Ok(c) => {
                if c.len() == 0 {
                    return Err("No addresses resolved".to_string());
                }
                let mut i: usize = 0;
                while i < c.len()
                    invariant
                        i <= c@.len(),
                        lookup matches Ok(cc) && cc@ == c@,
                        forall|j: int| 0 <= j < i ==> !c@[j],
                    decreases c.len() - i,
                {
                    if c[i] {
                        assert(c@[i as int]);
                        assert(port_outcome(Ok(c@)) == Ok::<bool, Seq<char>>(true));
                        return Ok(true);
                    }
                    i += 1;
                }
                Ok(false)
            },
        }
    }

    /// Each port with whether it answers, a failed check counting as not answering;
    /// `outcomes[i]` is what `check_port` answered for `ports[i]`.
    pub fn check_multiple_ports(&self, ports: &[u16], outcomes: &[Result<bool, String>]) -> (r: Vec<
        (u16, bool),
    >)
        requires
            ports@.len() == outcomes@.len(),
        ensures
            r@.len() == ports@.len(),
            forall|i: int|
                0 <= i < ports@.len() ==> r@[i] == (ports@[i], outcomes@[i] matches Ok(true)),
    {
        let mut out: Vec<(u16, bool)> = Vec::new();
        let mut i: usize = 0;
        while i < ports.len()
            invariant
                i <= ports@.len(),
                ports@.len() == outcomes@.len(),
                out@.len() == i,
                forall|j: int| 0 <= j < i ==> out@[j] == (ports@[j], outcomes@[j] matches Ok(true)),
            decreases ports.len() - i,
        {
            let up = match &outcomes[i] {
                Ok(b) => *b,
                Err(_) => false,
            };
            out.push((ports[i], up));
            i += 1;
        }
        out
    }

    /// The port checked to see whether a host resolves and answers.
    pub fn validation_port() -> (p: u16)
        ensures
            p == 80,
    {
        80
    }

    /// Whether a host is valid: the check of its validation port gave no error.
    pub fn validate_host(&self, outcome: &Result<bool, String>) -> (b: bool)
        ensures
            b == outcome is Ok,
    {
        outcome.is_ok()
    }
}

} // verus!
