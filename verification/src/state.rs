//! Live daemon status, published for the status command and the bar widget.

use vstd::prelude::*;
use vstd::string::*;

use crate::settings::opt_text;

verus! {

#[derive(Clone, Copy, Debug, PartialEq, Eq, Structural)]
pub enum Status {
    Listening,
    /// A client proved the PIN and the host is waiting on the share picker.
    Sharing,
    Connected,
}

impl Default for Status {
    fn default() -> (r: Status)
        ensures
            r == Status::Listening,
    {
        Status::Listening
    }
}

#[derive(Clone, Debug, PartialEq, Eq)]
pub struct LiveState {
    pub pid: u32,
    pub status: Status,
    pub port: u16,
    pub peer: Option<String>,
    pub client: Option<String>,
    /// Unix seconds when the current session started.
    pub since: Option<u64>,
    /// Unix seconds until which wrong-PIN lockout refuses attempts.
    pub locked_until: Option<u64>,
    pub last_error: Option<String>,
    pub input_ready: bool,
}

impl Default for LiveState {
    fn default() -> (r: LiveState)
        ensures
            r == (LiveState {
                pid: 0,
                status: Status::Listening,
                port: 0,
                peer: None,
                client: None,
                since: None,
                locked_until: None,
                last_error: None,
                input_ready: false,
            }),
    {
        LiveState {
            pid: 0,
            status: Status::Listening,
            port: 0,
            peer: None,
            client: None,
            since: None,
            locked_until: None,
            last_error: None,
            input_ready: false,
        }
    }
}

impl LiveState {
    /// The state after a client proved the PIN.
    pub open spec fn shared(self, picker: bool, peer: String, client: String) -> LiveState {
        LiveState {
            status: if picker {
                Status::Sharing
            } else {
                Status::Connected
            },
            peer: Some(peer),
            client: Some(client),
            ..self
        }
    }

    /// The state after the session started.
    pub open spec fn joined(self, since: u64) -> LiveState {
        LiveState { status: Status::Connected, since: Some(since), ..self }
    }

    /// The state after the session.
    pub open spec fn left(self, error: Option<String>) -> LiveState {
        LiveState {
            status: Status::Listening,
            peer: None,
            client: None,
            since: None,
            last_error: error,
            ..self
        }
    }

    /// The state of a host that has just begun to listen.
    pub fn started(pid: u32, port: u16, input_ready: bool) -> (r: LiveState)
        ensures
            r == (LiveState {
                pid,
                status: Status::Listening,
                port,
                peer: None,
                client: None,
                since: None,
                locked_until: None,
                last_error: None,
                input_ready,
            }),
    {
        LiveState { pid, port, input_ready, ..LiveState::default() }
    }

    /// A client proved the PIN. A host with a share picker waits on it; without one
    /// the client is connected.
    pub fn sharing(self, picker: bool, peer: String, client: String) -> (r: LiveState)
        ensures
            r == (LiveState {
                status: if picker {
                    Status::Sharing
                } else {
                    Status::Connected
                },
                peer: Some(peer),
                client: Some(client),
                ..self
            }),
            r == self.shared(picker, peer, client),
    {
        let status = if picker {
            Status::Sharing
        } else {
            Status::Connected
        };
        LiveState { status, peer: Some(peer), client: Some(client), ..self }
    }

    /// The session started, at this Unix second.
    pub fn connected(self, since: u64) -> (r: LiveState)
        ensures
            r == (LiveState { status: Status::Connected, since: Some(since), ..self }),
            r == self.joined(since),
    {
        LiveState { status: Status::Connected, since: Some(since), ..self }
    }

    /// The session is over, with an error or without one.
    pub fn listening(self, error: Option<String>) -> (r: LiveState)
        ensures
            r == (LiveState {
                status: Status::Listening,
                peer: None,
                client: None,
                since: None,
                last_error: error,
                ..self
            }),
            r == self.left(error),
    {
        LiveState {
            status: Status::Listening,
            peer: None,
            client: None,
            since: None,
            last_error: error,
            ..self
        }
    }

    /// Attempts are refused until then, or are not.
    pub fn locked(self, until: Option<u64>) -> (r: LiveState)
        ensures
            r == (LiveState { locked_until: until, ..self }),
    {
        LiveState { locked_until: until, ..self }
    }
}

/// Holds the live state, and says where each change of it is to be written.
pub struct Publisher {
    path: Option<String>,
    state: LiveState,
}

impl Publisher {
    /// Where the state is published, if it is.
    pub closed spec fn file(&self) -> Option<Seq<char>> {
        opt_text(self.path)
    }

    pub closed spec fn current(&self) -> LiveState {
        self.state
    }

    pub fn new(path: Option<String>, initial: LiveState) -> (r: Publisher)
        ensures
            r.file() == opt_text(path),
            r.current() == initial,
    {
        Publisher { path, state: initial }
    }

    /// The state that is published.
    pub fn state(&self) -> (r: &LiveState)
        ensures
            *r == self.current(),
    {
        &self.state
    }

    /// Changes the state. Returns where it is to be written.
    pub fn update<F: FnOnce(LiveState) -> LiveState>(&mut self, change: F) -> (r: Option<&str>)
        requires
            call_requires(change, (old(self).current(),)),
        ensures
            call_ensures(change, (old(self).current(),), final(self).current()),
            final(self).file() == old(self).file(),
            match old(self).file() {
                Some(path) => r matches Some(p) && p@ == path,
                None => r is None,
            },
    {
        let mut state = LiveState::default();
        std::mem::swap(&mut state, &mut self.state);
        self.state = change(state);
        self.clear()
    }

    /// The file that holds the state, which is to be deleted when the host ends.
    pub fn clear(&self) -> (r: Option<&str>)
        ensures
            match self.file() {
                Some(path) => r matches Some(p) && p@ == path,
                None => r is None,
            },
    {
        match &self.path {
            Some(path) => Some(path.as_str()),
            None => None,
        }
    }
}

/// A session from its start to its end: the client is shown from the proof of its PIN on,
/// and since when it is connected from its start on. After it all of that is gone, but for
/// the error that ended it; the host itself, its port and its lock are what they were.
pub proof fn sessions_come_and_go(
    s: LiveState,
    picker: bool,
    peer: String,
    client: String,
    since: u64,
    error: Option<String>,
)
    ensures
        ({
            let a = s.shared(picker, peer, client);
            let b = a.joined(since);
            let c = b.left(error);
            &&& picker ==> a.status is Sharing
            &&& !picker ==> a.status is Connected
            &&& a.peer == Some(peer) && a.client == Some(client) && a.since == s.since
            &&& b.status is Connected && b.peer == Some(peer) && b.client == Some(client)
            &&& b.since == Some(since) && b.last_error == s.last_error
            &&& c.status is Listening && c.peer is None && c.client is None && c.since is None
            &&& c.last_error == error
            &&& c.pid == s.pid && c.port == s.port && c.locked_until == s.locked_until
                && c.input_ready == s.input_ready
        }),
{
}

} // verus!
