//! The decisions of an echo server over WebSocket: what to answer each message
//! with, what to log, and when to stop.
//!
//! Accepting connections, receiving and sending happen outside; each event is
//! handed in here and the action to take is handed back.
use vstd::prelude::*;
use crate::text::concat_str;

verus! {

broadcast use vstd::string::group_string_axioms;

/// What came from the client.
pub enum Incoming {
    /// A text message.
    Text(String),
    /// A request to close.
    Close,
    /// Any other kind of message.
    Other,
    /// Receiving failed; the reason is given.
    Failed(String),
    /// Sending the last echo failed; the reason is given.
    SendFailed(String),
}

/// What to do next, with the line to log.
pub enum Action {
    /// Send `reply`, then go on.
    Echo { reply: String, info: String },
    /// Go on without answering.
    Ignore { info: String },
    /// Stop, as the client asked.
    Close { info: String },
    /// Stop after an error.
    Fail { error: String },
}

/// The view of an action: its kind (0 echo, 1 ignore, 2 close, 3 fail), the reply,
/// and the line to log.
pub open spec fn action_view(a: Action) -> (int, Seq<char>, Seq<char>) {
    match a {
        Action::Echo { reply, info } => (0, reply@, info@),
        Action::Ignore { info } => (1, Seq::empty(), info@),
        Action::Close { info } => (2, Seq::empty(), info@),
        Action::Fail { error } => (3, Seq::empty(), error@),
    }
}

/// The action for a message from the client at `addr`.
pub open spec fn reaction(addr: Seq<char>, msg: Incoming) -> (int, Seq<char>, Seq<char>) {
    match msg {
        Incoming::Text(t) => (0, "Echo: "@ + t@, "Received text message from "@ + addr + ": "@ + t@),
        Incoming::Close => (2, Seq::empty(), "Client "@ + addr + " requested close"@),
        Incoming::Other => (1, Seq::empty(), "Received non-text message from "@ + addr + ", ignoring"@),
        Incoming::Failed(e) => (3, Seq::empty(), "Error receiving message from "@ + addr + ": "@ + e@),
        Incoming::SendFailed(e) => (3, Seq::empty(), "Failed to send echo message to "@ + addr + ": "@ + e@),
    }
}

/// Whether an action of this view ends the connection: a close or a failure.
pub open spec fn stops(a: (int, Seq<char>, Seq<char>)) -> bool {
    a.0 == 2 || a.0 == 3
}

/// The actions taken for the events `events` of a connection with the client at
/// `addr`: one for each event up to and including the first that stops it, and
/// none after.
pub open spec fn session(addr: Seq<char>, events: Seq<Incoming>) -> Seq<(int, Seq<char>, Seq<char>)>
    decreases events.len(),
{
    if events.len() == 0 {
        Seq::empty()
    } else {
        let a = reaction(addr, events[0]);
        if stops(a) {
            seq![a]
        } else {
            seq![a] + session(addr, events.subrange(1, events.len() as int))
        }
    }
}

/// The line logged when a client at `addr` connects.
pub fn connection_opened(addr: &str) -> (line: String)
    ensures
        line@ == "New WebSocket connection from: "@ + addr@,
{
    concat_str("New WebSocket connection from: ", addr)
}

/// The line logged when the connection with the client at `addr` ends.
pub fn connection_closed(addr: &str) -> (line: String)
    ensures
        line@ == "Connection closed for client: "@ + addr@,
{
    concat_str("Connection closed for client: ", addr)
}

/// What to do with a message from the client at `addr`.
pub fn handle_message(addr: &str, msg: Incoming) -> (a: Action)
    ensures
        action_view(a) == reaction(addr@, msg),
{
    match msg {
        Incoming::Text(t) => {
            let a = concat_str("Received text message from ", addr);
            let b = concat_str(a.as_str(), ": ");
            let info = concat_str(b.as_str(), t.as_str());
            let reply = concat_str("Echo: ", t.as_str());
            Action::Echo { reply, info }
        },
        Incoming::Close => {
            let a = concat_str("Client ", addr);
            Action::Close { info: concat_str(a.as_str(), " requested close") }
        },
        Incoming::Other => {
            let a = concat_str("Received non-text message from ", addr);
            Action::Ignore { info: concat_str(a.as_str(), ", ignoring") }
        },
        Incoming::Failed(e) => {
            let a = concat_str("Error receiving message from ", addr);
            let b = concat_str(a.as_str(), ": ");
            Action::Fail { error: concat_str(b.as_str(), e.as_str()) }
        },
        Incoming::SendFailed(e) => Action::Fail { error: send_failed(addr, e.as_str()) },
    }
}

/// A connection with one client: open until an event stops it, after which no
/// event is acted on.
pub struct Connection {
    addr: String,
    open: bool,
}

impl Connection {
    /// Whether the connection still takes events.
    pub closed spec fn is_open(&self) -> bool {
        self.open
    }

    /// The client's address.
    pub closed spec fn address(&self) -> Seq<char> {
        self.addr@
    }

    /// An open connection with the client at `addr`.
    pub fn new(addr: &str) -> (c: Connection)
        ensures
            c.is_open(),
            c.address() == addr@,
    {
        Connection { addr: addr.to_string(), open: true }
    }

    /// Whether the connection still takes events: the next message is read only
    /// while it does.
    pub fn is_open_now(&self) -> (b: bool)
        ensures
            b == self.is_open(),
    {
        self.open
    }

    /// The action for `msg` while the connection is open, after which it is closed
    /// if the action stops it; `None`, and nothing changed, once it is closed.
    pub fn on_event(&mut self, msg: Incoming) -> (a: Option<Action>)
        ensures
            final(self).address() == old(self).address(),
            old(self).is_open() ==> (a matches Some(x) && action_view(x) == reaction(old(self).address(), msg)
                && final(self).is_open() == !stops(reaction(old(self).address(), msg))),
            !old(self).is_open() ==> (a is None && !final(self).is_open()),
    {
        if !self.open {
            return None;
        }
        let a = handle_message(self.addr.as_str(), msg);
        let stop = match &a {
            Action::Close { .. } => true,
            Action::Fail { .. } => true,
            _ => false,
        };
        if stop {
            self.open = false;
        }
        Some(a)
    }
}

/// The actions of a connection are the reactions to its events, in order, up to
/// the first that stops it: none before the last stops it, and when events are
/// left over the last action stops the connection, so no later event (no message
/// read after a close, a receive error or a failed send) is answered.
pub proof fn law_session(addr: Seq<char>, events: Seq<Incoming>)
    ensures
        session(addr, events).len() <= events.len(),
        forall|k: int| 0 <= k < session(addr, events).len() ==> #[trigger] session(addr, events)[k] == reaction(addr, events[k]),
        forall|k: int| 0 <= k < session(addr, events).len() - 1 ==> !stops(#[trigger] session(addr, events)[k]),
        session(addr, events).len() < events.len() ==> session(addr, events).len() > 0 && stops(session(addr, events).last()),
    decreases events.len(),
{
    if events.len() > 0 {
        let rest = events.subrange(1, events.len() as int);
        let a = reaction(addr, events[0]);
        if !stops(a) {
            law_session(addr, rest);
            let s = session(addr, events);
            let t = session(addr, rest);
            assert(s == seq![a] + t);
            assert forall|k: int| 0 <= k < s.len() implies #[trigger] s[k] == reaction(addr, events[k]) by {
                if k > 0 {
                    assert(s[k] == t[k - 1]);
                    assert(rest[k - 1] == events[k]);
                }
            }
            assert forall|k: int| 0 <= k < s.len() - 1 implies !stops(#[trigger] s[k]) by {
                if k > 0 {
                    assert(s[k] == t[k - 1]);
                }
            }
            if t.len() > 0 {
                assert(s.last() == t.last());
            }
        }
    }
}

/// The line logged when sending the echo to the client at `addr` failed; the
/// connection then ends.
pub fn send_failed(addr: &str, reason: &str) -> (line: String)
    ensures
        line@ == "Failed to send echo message to "@ + addr@ + ": "@ + reason@,
{
    let a = concat_str("Failed to send echo message to ", addr);
    let b = concat_str(a.as_str(), ": ");
    concat_str(b.as_str(), reason)
}

} // verus!
