use vstd::prelude::*;
use crate::bytes::append;
use crate::cgi::{build_cgi_response, cgi_response};
use crate::config::Config;
use crate::connection::{
    expired, has_expired, rank, verdict, Connection, ConnectionState, ReadStep, WriteStep,
};
use crate::request::{parsed, HttpRequest};
use crate::table::Table;

verus! {

/// Tokens below this number are kept for listeners.
pub const SERVER_TOKEN_MAX: usize = 100;

/// A script that runs for a client.
pub struct PendingCgi {
    pub io_token: usize,
    pub output: Vec<u8>,
    pub started_at: u64,
}

/// The state of the reactor: its listeners, its clients, the scripts that run
/// for them, and which client each script's output belongs to.
pub struct Server {
    config: Config,
    listeners: Table<usize>,
    connections: Table<Connection>,
    pending_cgi: Table<PendingCgi>,
    cgi_token_to_client: Table<usize>,
    next_token: usize,
}

/// What a token stands for.
#[derive(Debug, Clone, Copy, PartialEq, Eq, Structural)]
pub enum TokenClass {
    Listener,
    CgiOutput { client: usize },
    Client,
}

/// What the poller reports of a descriptor.
#[derive(Debug, Clone, Copy, PartialEq, Eq, Structural)]
pub struct Readiness {
    pub readable: bool,
    pub writable: bool,
    pub read_closed: bool,
    pub write_closed: bool,
}

/// What to do for a client on an event, in this order.
#[derive(Debug, Clone, Copy, PartialEq, Eq, Structural)]
pub struct EventPlan {
    pub read: bool,
    pub write: bool,
    pub close: bool,
}

/// What to do on an event.
#[derive(Debug, Clone, Copy, PartialEq, Eq, Structural)]
pub enum Dispatch {
    /// A listener is ready: accept until the kernel has no more.
    Accept,
    /// A script has written or closed its output: drain it for this client.
    DrainCgi { client: usize },
    /// A client's socket is ready.
    Client { plan: EventPlan },
    /// Nothing.
    Nothing,
}

/// How a non-blocking read ended.
pub enum ReadOutcome {
    Data(Vec<u8>),
    Eof,
    WouldBlock,
    Failed,
}

/// What to do after a read on a client's socket.
#[derive(Debug, Clone, Copy, PartialEq, Eq, Structural)]
pub enum ReadDecision {
    Continue,
    Stop,
    Close,
    TooLarge,
    Process,
}

/// How a non-blocking write ended.
#[derive(Debug, Clone, Copy, PartialEq, Eq, Structural)]
pub enum WriteOutcome {
    Wrote(usize),
    WouldBlock,
    Failed,
}

/// What to do after a write on a client's socket.
#[derive(Debug, Clone, Copy, PartialEq, Eq, Structural)]
pub enum WriteDecision {
    Continue,
    Stop,
    Close,
}

/// What was taken down with a connection: the descriptors to deregister.
#[derive(Debug, Clone, Copy, PartialEq, Eq, Structural)]
pub struct Closed {
    /// The client's socket was registered under the token.
    pub connection: bool,
    /// A script ran for the client; its output was registered under this token.
    pub cgi_io: Option<usize>,
}

/// What staging a response did.
#[derive(Debug, Clone, Copy, PartialEq, Eq, Structural)]
pub struct Finalized {
    /// The connection turned to writing: register its socket for writing.
    pub staged: bool,
    /// A script ran for the client; its output was registered under this token.
    pub cgi_io: Option<usize>,
}

/// How the check on a script's process ended.
#[derive(Debug, Clone, Copy, PartialEq, Eq, Structural)]
pub enum WaitOutcome {
    Exited,
    Running,
    Failed,
}

/// What to do with a script after its output was drained.
#[derive(Debug, Clone, Copy, PartialEq, Eq, Structural)]
pub enum CgiStep {
    /// Leave it running.
    Wait,
    /// It has ended: make the response from its output.
    Finish,
    /// It failed: take it down and answer 500.
    Fail,
}

/// Decides what to do with a script once its output is drained: a failed read
/// or a failed check is a failure; a script that has exited is finished.
pub fn cgi_step(read_failed: bool, wait: WaitOutcome) -> (r: CgiStep)
    ensures
        r == if read_failed || wait == WaitOutcome::Failed {
            CgiStep::Fail
        } else if wait == WaitOutcome::Exited {
            CgiStep::Finish
        } else {
            CgiStep::Wait
        },
{
    if read_failed || wait == WaitOutcome::Failed {
        CgiStep::Fail
    } else if wait == WaitOutcome::Exited {
        CgiStep::Finish
    } else {
        CgiStep::Wait
    }
}

impl Server {
    /// The configuration that the reactor runs with.
    pub closed spec fn settings(&self) -> Config {
        self.config
    }

    /// The listeners: each token with the index of its server.
    pub closed spec fn listening(&self) -> Map<usize, usize> {
        self.listeners@
    }

    /// The clients, by token.
    pub closed spec fn clients(&self) -> Map<usize, Connection> {
        self.connections@
    }

    /// The scripts that run, by the token of the client that each runs for.
    pub closed spec fn scripts(&self) -> Map<usize, PendingCgi> {
        self.pending_cgi@
    }

    /// The outputs of the scripts: each token with the token of its client.
    pub closed spec fn outputs(&self) -> Map<usize, usize> {
        self.cgi_token_to_client@
    }

    /// The token that is handed out next.
    pub closed spec fn next(&self) -> usize {
        self.next_token
    }

    /// The configuration that the reactor runs with.
    pub fn config(&self) -> (r: &Config)
        ensures
            *r == self.settings(),
    {
        &self.config
    }

    /// The connection of a client.
    pub fn connection(&self, token: usize) -> (r: Option<&Connection>)
        ensures
            match r {
                Some(c) => self.clients().contains_key(token) && self.clients()[token] == *c,
                None => !self.clients().contains_key(token),
            },
    {
        self.connections.get(token)
    }

    /// The script that runs for a client.
    pub fn pending(&self, client_token: usize) -> (r: Option<&PendingCgi>)
        ensures
            match r {
                Some(p) => self.scripts().contains_key(client_token)
                    && self.scripts()[client_token] == *p,
                None => !self.scripts().contains_key(client_token),
            },
    {
        self.pending_cgi.get(client_token)
    }

    /// The first token that a client or a script's output can get.
    pub closed spec fn base(&self) -> int {
        if self.config.servers@.len() > SERVER_TOKEN_MAX {
            self.config.servers@.len() as int
        } else {
            SERVER_TOKEN_MAX as int
        }
    }

    /// The tokens of everything that is registered with the poller: listeners,
    /// clients, and the outputs of scripts.
    pub closed spec fn live_tokens(&self) -> Set<usize> {
        self.listeners@.dom() + self.connections@.dom() + self.cgi_token_to_client@.dom()
    }

    /// What holds of the reactor between any two steps. A listener's token is
    /// its server's index. A client's token is no listener's and no script's,
    /// its connection is well formed, and it waits for a script exactly when
    /// one runs for it. Scripts and their output tokens refer to each other.
    pub closed spec fn wf(&self) -> bool {
        &&& self.base() <= self.next_token
        &&& forall|t: usize| #[trigger]
            self.listeners@.contains_key(t) ==> t < self.config.servers@.len()
                && self.listeners@[t] == t
        &&& forall|t: usize| #[trigger]
            self.connections@.contains_key(t) ==> {
                &&& self.base() <= t < self.next_token
                &&& self.connections@[t].wf(self.config.max_server_size as int)
                &&& (self.connections@[t].state == ConnectionState::CgiPending)
                    == self.pending_cgi@.contains_key(t)
                &&& !self.cgi_token_to_client@.contains_key(t)
            }
        &&& forall|c: usize| #[trigger]
            self.pending_cgi@.contains_key(c) ==> {
                &&& self.connections@.contains_key(c)
                &&& self.cgi_token_to_client@.contains_key(self.pending_cgi@[c].io_token)
                &&& self.cgi_token_to_client@[self.pending_cgi@[c].io_token] == c
            }
        &&& forall|io: usize| #[trigger]
            self.cgi_token_to_client@.contains_key(io) ==> {
                &&& self.base() <= io < self.next_token
                &&& self.pending_cgi@.contains_key(self.cgi_token_to_client@[io])
                &&& self.pending_cgi@[self.cgi_token_to_client@[io]].io_token == io
            }
    }

    /// Whether `self` can have come from `before`: tokens are only ever handed
    /// out anew, a connection that was closed stays closed, and no connection
    /// that is still there went back in its life or moved its write cursor back.
    pub closed spec fn advanced_from(&self, before: &Server) -> bool {
        &&& before.next_token <= self.next_token
        &&& forall|t: usize| #[trigger]
            self.connections@.contains_key(t) && t < before.next_token
                ==> before.connections@.contains_key(t)
        &&& forall|t: usize| #[trigger]
            self.connections@.contains_key(t) && before.connections@.contains_key(t) ==> {
                &&& rank(self.connections@[t].state) >= rank(before.connections@[t].state)
                &&& self.connections@[t].bytes_written >= before.connections@[t].bytes_written
                &&& self.connections@[t].server_idx == before.connections@[t].server_idx
            }
    }

    /// Over any number of steps a connection only moves forward: what holds
    /// from one state to the next holds from the first to the last.
    pub proof fn lemma_advance_chain(first: &Server, middle: &Server, last: &Server)
        requires
            first.wf(),
            middle.wf(),
            middle.advanced_from(first),
            last.advanced_from(middle),
        ensures
            last.advanced_from(first),
    {
        assert forall|t: usize| #[trigger]
            last.connections@.contains_key(t) && t < first.next_token implies first.connections@.contains_key(
            t,
        ) by {
            assert(middle.connections@.contains_key(t));
        }
        assert forall|t: usize| #[trigger]
            last.connections@.contains_key(t) && first.connections@.contains_key(t) implies {
            &&& rank(last.connections@[t].state) >= rank(first.connections@[t].state)
            &&& last.connections@[t].bytes_written >= first.connections@[t].bytes_written
            &&& last.connections@[t].server_idx == first.connections@[t].server_idx
        } by {
            assert(t < first.next_token);
            assert(middle.connections@.contains_key(t));
        }
    }

    /// What `live_tokens` holds: the tokens of listeners, clients, and outputs
    /// of scripts.
    pub proof fn lemma_live_tokens(&self, t: usize)
        ensures
            self.live_tokens().contains(t) == (self.listening().contains_key(t)
                || self.clients().contains_key(t) || self.outputs().contains_key(t)),
    {
    }

    /// What `advanced_from` says of one token: tokens are only handed out anew,
    /// a connection that was closed stays closed, and one that is still there
    /// has not gone back in its life nor moved its write cursor back.
    pub proof fn lemma_advanced(&self, before: &Server, t: usize)
        requires
            self.advanced_from(before),
        ensures
            before.next() <= self.next(),
            self.clients().contains_key(t) && t < before.next() ==> before.clients().contains_key(
                t,
            ),
            self.clients().contains_key(t) && before.clients().contains_key(t) ==> {
                &&& rank(self.clients()[t].state) >= rank(before.clients()[t].state)
                &&& self.clients()[t].bytes_written >= before.clients()[t].bytes_written
                &&& self.clients()[t].server_idx == before.clients()[t].server_idx
            },
    {
    }

    /// What `wf` says of one token. No token stands for two things; a
    /// listener's token is its server's index; a client waits for a script
    /// exactly when one runs for it; scripts and their outputs refer to each
    /// other; every token in use was handed out; and every connection keeps
    /// its read buffer within the cap and its write cursor within the
    /// response.
    pub proof fn lemma_tokens_apart(&self, t: usize)
        requires
            self.wf(),
        ensures
            !(self.listening().contains_key(t) && self.clients().contains_key(t)),
            !(self.listening().contains_key(t) && self.outputs().contains_key(t)),
            !(self.clients().contains_key(t) && self.outputs().contains_key(t)),
            self.clients().contains_key(t) ==> ((self.clients()[t].state
                == ConnectionState::CgiPending) == self.scripts().contains_key(t)),
            self.scripts().contains_key(t) ==> self.clients().contains_key(t)
                && self.live_tokens().contains(self.scripts()[t].io_token),
            self.listening().contains_key(t) ==> t < self.settings().servers@.len()
                && self.listening()[t] == t,
            self.clients().contains_key(t) || self.outputs().contains_key(t) ==> t < self.next(),
            self.scripts().contains_key(t) ==> self.outputs().contains_key(
                self.scripts()[t].io_token,
            ) && self.outputs()[self.scripts()[t].io_token] == t,
            self.outputs().contains_key(t) ==> self.scripts().contains_key(self.outputs()[t])
                && self.scripts()[self.outputs()[t]].io_token == t,
            self.clients().contains_key(t) ==> self.clients()[t].read_buffer@.len()
                <= self.settings().max_server_size && self.clients()[t].bytes_written
                <= self.clients()[t].write_buffer@.len(),
    {
    }

    /// A reactor without listeners or clients.
    pub fn new(config: Config) -> (r: Self)
        ensures
            r.wf(),
            r.settings() == config,
            r.live_tokens() =~= Set::<usize>::empty(),
            r.next() == r.base(),
    {
        let first = if config.servers.len() > SERVER_TOKEN_MAX {
            config.servers.len()
        } else {
            SERVER_TOKEN_MAX
        };
        Server {
            config,
            listeners: Table::new(),
            connections: Table::new(),
            pending_cgi: Table::new(),
            cgi_token_to_client: Table::new(),
            next_token: first,
        }
    }

    /// Records that the server with index `idx` listens; its socket is to be
    /// registered for reading under the token `idx`. Refused where there is no
    /// such server.
    pub fn add_listener(&mut self, idx: usize) -> (r: bool)
        requires
            old(self).wf(),
        ensures
            final(self).wf(),
            final(self).advanced_from(old(self)),
            r == (idx < old(self).settings().servers@.len()),
            r ==> final(self).live_tokens() =~= old(self).live_tokens().insert(idx)
                && final(self).listening() == old(self).listening().insert(idx, idx),
            !r ==> *final(self) == *old(self),
    {
        if idx >= self.config.servers.len() {
            return false;
        }
        self.listeners.insert(idx, idx);
        true
    }

    /// Whether any server listens.
    pub fn has_listeners(&self) -> (r: bool)
        ensures
            r == !self.listening().is_empty(),
    {
        !self.listeners.is_empty()
    }

    /// What a token of an event stands for: a listener, the output of a
    /// script, or else a client.
    pub fn classify(&self, token: usize) -> (r: TokenClass)
        ensures
            r == if self.listening().contains_key(token) {
                TokenClass::Listener
            } else if self.outputs().contains_key(token) {
                TokenClass::CgiOutput { client: self.outputs()[token] }
            } else {
                TokenClass::Client
            },
    {
        if self.listeners.contains(token) {
            return TokenClass::Listener;
        }
        match self.cgi_token_to_client.get(token) {
            Some(c) => TokenClass::CgiOutput { client: *c },
            None => TokenClass::Client,
        }
    }

    /// Takes in a client that the listener `server_token` accepted: the new
    /// connection's token, under which its socket is to be registered for
    /// reading. `None` where the token is no listener's or tokens have run out.
    pub fn accept_connection(&mut self, server_token: usize, now: u64) -> (r: Option<usize>)
        requires
            old(self).wf(),
        ensures
            final(self).wf(),
            final(self).advanced_from(old(self)),
            r.is_some() == (old(self).listening().contains_key(server_token)
                && old(self).next() < usize::MAX),
            match r {
                Some(t) => {
                    &&& t == old(self).next()
                    &&& final(self).next() == t + 1
                    &&& !old(self).live_tokens().contains(t)
                    &&& final(self).live_tokens() =~= old(self).live_tokens().insert(t)
                    &&& final(self).clients().dom() =~= old(self).clients().dom().insert(t)
                    &&& final(self).clients()[t].state == ConnectionState::ReadRequest
                    &&& final(self).clients()[t].server_idx == old(self).listening()[server_token]
                    &&& final(self).clients()[t].last_activity == now
                    &&& final(self).clients()[t].read_buffer@.len() == 0
                },
                None => *final(self) == *old(self),
            },
    {
        let server_idx = match self.listeners.get(server_token) {
            Some(i) => *i,
            None => {
                return None;
            },
        };
        if self.next_token == usize::MAX {
            return None;
        }
        let token = self.next_token;
        self.next_token = token + 1;
        self.connections.insert(token, Connection::new(server_idx, now));
        Some(token)
    }

    /// What to do for a client on an event. While a script runs for it, only
    /// a hang-up counts. Otherwise bytes are read while the request is being
    /// read, written when the socket takes them, and a hang-up closes.
    pub fn handle_client_event(&self, token: usize, event: Readiness) -> (r: EventPlan)
        ensures
            r == self.client_plan(token, event),
    {
        match self.connections.get(token) {
            None => EventPlan { read: false, write: false, close: false },
            Some(conn) => {
                let close = event.read_closed || event.write_closed;
                if conn.state == ConnectionState::CgiPending {
                    EventPlan { read: false, write: false, close }
                } else {
                    EventPlan {
                        read: event.readable && conn.state == ConnectionState::ReadRequest,
                        write: event.writable,
                        close,
                    }
                }
            },
        }
    }

    /// What the plan for a client is on an event.
    pub closed spec fn client_plan(&self, token: usize, event: Readiness) -> EventPlan {
        if !self.connections@.contains_key(token) {
            (EventPlan { read: false, write: false, close: false })
        } else if self.connections@[token].state == ConnectionState::CgiPending {
            (EventPlan { read: false, write: false, close: event.read_closed || event.write_closed })
        } else {
            (EventPlan {
                read: event.readable && self.connections@[token].state
                    == ConnectionState::ReadRequest,
                write: event.writable,
                close: event.read_closed || event.write_closed,
            })
        }
    }

    /// Decides what to do on an event by what its token stands for: a
    /// listener accepts; the output of a script is drained when it is readable
    /// or closed; any other token is taken for a client's.
    pub fn handle_event(&self, token: usize, event: Readiness) -> (r: Dispatch)
        ensures
            r == if self.listening().contains_key(token) {
                Dispatch::Accept
            } else if self.outputs().contains_key(token) {
                if event.readable || event.read_closed {
                    (Dispatch::DrainCgi { client: self.outputs()[token] })
                } else {
                    Dispatch::Nothing
                }
            } else {
                (Dispatch::Client { plan: self.client_plan(token, event) })
            },
    {
        match self.classify(token) {
            TokenClass::Listener => Dispatch::Accept,
            TokenClass::CgiOutput { client } => {
                if event.readable || event.read_closed {
                    Dispatch::DrainCgi { client }
                } else {
                    Dispatch::Nothing
                }
            },
            TokenClass::Client => Dispatch::Client { plan: self.handle_client_event(token, event) },
        }
    }

    /// Takes the outcome of one read on a client's socket. The end of the
    /// stream or a failure closes; bytes go to the connection, which says
    /// whether to read on, to process the request, or to refuse it as too large.
    pub fn read_from_client(&mut self, token: usize, outcome: ReadOutcome, now: u64) -> (r:
        ReadDecision)
        requires
            old(self).wf(),
        ensures
            final(self).wf(),
            final(self).advanced_from(old(self)),
            final(self).live_tokens() == old(self).live_tokens(),
            final(self).clients().dom() == old(self).clients().dom(),
            !old(self).clients().contains_key(token) ==> r == ReadDecision::Stop,
            old(self).clients().contains_key(token) ==> match outcome {
                ReadOutcome::Eof => r == ReadDecision::Close,
                ReadOutcome::Failed => r == ReadDecision::Close,
                ReadOutcome::WouldBlock => r == ReadDecision::Stop,
                ReadOutcome::Data(data) => {
                    let before = old(self).clients()[token];
                    let after = final(self).clients()[token];
                    if before.state != ConnectionState::ReadRequest {
                        r == ReadDecision::Stop && after == before
                    } else if before.read_buffer@.len() + data@.len()
                        > old(self).settings().max_server_size {
                        r == ReadDecision::TooLarge && after == before
                    } else {
                        &&& after.read_buffer@ == before.read_buffer@ + data@
                        &&& after.last_activity == now
                        &&& r == match verdict(
                            after.read_buffer@,
                            old(self).settings().body_limit(before.server_idx as int),
                        ) {
                            ReadStep::Continue => ReadDecision::Continue,
                            ReadStep::Stop => ReadDecision::Stop,
                            ReadStep::TooLarge => ReadDecision::TooLarge,
                            ReadStep::Process => ReadDecision::Process,
                        }
                    }
                },
            },
    {
        let data = match outcome {
            ReadOutcome::Data(d) => d,
            ReadOutcome::WouldBlock => {
                return ReadDecision::Stop;
            },
            _ => {
                return if self.connections.contains(token) {
                    ReadDecision::Close
                } else {
                    ReadDecision::Stop
                };
            },
        };
        let mut conn = match self.connections.remove(token) {
            Some(c) => c,
            None => {
                proof {
                    assert(self.connections@ =~= old(self).connections@);
                }
                return ReadDecision::Stop;
            },
        };
        let limit = self.config.effective_body_limit(conn.server_idx);
        let step = conn.receive(data.as_slice(), now, self.config.max_server_size, limit);
        self.connections.insert(token, conn);
        proof {
            assert(self.connections@.dom() =~= old(self).connections@.dom());
        }
        match step {
            ReadStep::Continue => ReadDecision::Continue,
            ReadStep::Stop => ReadDecision::Stop,
            ReadStep::TooLarge => ReadDecision::TooLarge,
            ReadStep::Process => ReadDecision::Process,
        }
    }

    /// The bytes of a client's response that are still to be sent; `None`
    /// where there is no such client.
    pub fn unsent(&self, token: usize) -> (r: Option<&[u8]>)
        requires
            self.wf(),
        ensures
            match r {
                Some(b) => self.clients().contains_key(token) && b@
                    == self.clients()[token].write_buffer@.skip(
                    self.clients()[token].bytes_written as int,
                ),
                None => !self.clients().contains_key(token),
            },
    {
        match self.connections.get(token) {
            Some(conn) => Some(conn.unsent()),
            None => None,
        }
    }

    /// Takes the outcome of one write on a client's socket. Bytes that were
    /// taken move the write cursor; the connection is to be closed once
    /// nothing is left, or on a failure.
    pub fn write_to_client(&mut self, token: usize, outcome: WriteOutcome, now: u64) -> (r:
        WriteDecision)
        requires
            old(self).wf(),
        ensures
            final(self).wf(),
            final(self).advanced_from(old(self)),
            final(self).live_tokens() == old(self).live_tokens(),
            final(self).clients().dom() == old(self).clients().dom(),
            !old(self).clients().contains_key(token) ==> r == WriteDecision::Stop,
            old(self).clients().contains_key(token) ==> {
                let before = old(self).clients()[token];
                let after = final(self).clients()[token];
                match outcome {
                    WriteOutcome::Failed => r == WriteDecision::Close && after == before,
                    WriteOutcome::WouldBlock => r == WriteDecision::Stop && after == before,
                    WriteOutcome::Wrote(n) => if before.bytes_written + n
                        <= before.write_buffer@.len() {
                        &&& after.bytes_written == before.bytes_written + n
                        &&& after.write_buffer@ == before.write_buffer@
                        &&& after.state == before.state
                        &&& after.last_activity == now
                        &&& r == if after.bytes_written == after.write_buffer@.len() {
                            WriteDecision::Close
                        } else {
                            WriteDecision::Continue
                        }
                    } else {
                        r == WriteDecision::Close && after == before
                    },
                }
            },
    {
        if !self.connections.contains(token) {
            return WriteDecision::Stop;
        }
        let n = match outcome {
            WriteOutcome::Wrote(n) => n,
            WriteOutcome::WouldBlock => {
                return WriteDecision::Stop;
            },
            WriteOutcome::Failed => {
                return WriteDecision::Close;
            },
        };
        let mut conn = match self.connections.remove(token) {
            Some(c) => c,
            None => {
                return WriteDecision::Stop;
            },
        };
        let step = conn.written(n, now, self.config.max_server_size);
        self.connections.insert(token, conn);
        proof {
            assert(self.connections@.dom() =~= old(self).connections@.dom());
        }
        match step {
            WriteStep::Continue => WriteDecision::Continue,
            WriteStep::Close => WriteDecision::Close,
        }
    }

    /// The request that a client has sent, with the index of its server; `None`
    /// where there is no such client or its buffer holds no well-formed request.
    pub fn request_of(&self, token: usize) -> (r: Option<(HttpRequest, usize)>)
        ensures
            match r {
                Some(q) => self.clients().contains_key(token) && parsed(
                    self.clients()[token].read_buffer@,
                ) == Some(q.0@) && q.1 == self.clients()[token].server_idx,
                None => !self.clients().contains_key(token) || parsed(
                    self.clients()[token].read_buffer@,
                ).is_none(),
            },
    {
        match self.connections.get(token) {
            Some(conn) => match HttpRequest::parse(conn.read_buffer.as_slice()) {
                Some(req) => Some((req, conn.server_idx)),
                None => None,
            },
            None => None,
        }
    }

    /// Takes the script of a client out of both tables.
    fn remove_pending_cgi(&mut self, client_token: usize) -> (r: Option<PendingCgi>)
        ensures
            final(self).settings() == old(self).settings(),
            final(self).listeners == old(self).listeners,
            final(self).connections == old(self).connections,
            final(self).next() == old(self).next(),
            final(self).scripts() == old(self).scripts().remove(client_token),
            match r {
                Some(p) => old(self).scripts().contains_key(client_token)
                    && old(self).scripts()[client_token] == p
                    && final(self).outputs() == old(self).outputs().remove(
                    p.io_token,
                ),
                None => !old(self).scripts().contains_key(client_token)
                    && final(self).outputs() == old(self).outputs(),
            },
    {
        match self.pending_cgi.remove(client_token) {
            Some(p) => {
                self.cgi_token_to_client.remove(p.io_token);
                Some(p)
            },
            None => None,
        }
    }

    /// Stages a response for a client and turns its connection to writing. A
    /// script that runs for the client is taken down first. A connection that
    /// is already writing keeps its response.
    pub fn finalize_response(&mut self, token: usize, response_bytes: Vec<u8>, now: u64) -> (r:
        Finalized)
        requires
            old(self).wf(),
        ensures
            final(self).wf(),
            final(self).advanced_from(old(self)),
            final(self).clients().dom() == old(self).clients().dom(),
            r.cgi_io == (if old(self).scripts().contains_key(token) {
                Some(old(self).scripts()[token].io_token)
            } else {
                None
            }),
            final(self).live_tokens() =~= (match r.cgi_io {
                Some(io) => old(self).live_tokens().remove(io),
                None => old(self).live_tokens(),
            }),
            r.staged == (old(self).clients().contains_key(token)
                && old(self).clients()[token].state != ConnectionState::WriteResponse),
            r.staged ==> {
                &&& final(self).clients()[token].state == ConnectionState::WriteResponse
                &&& final(self).clients()[token].write_buffer@ == response_bytes@
                &&& final(self).clients()[token].last_activity == now
            },
            !r.staged && old(self).clients().contains_key(token) ==> final(self).clients()[token] == old(self).clients()[token],
    {
        let cgi_io = match self.remove_pending_cgi(token) {
            Some(p) => Some(p.io_token),
            None => None,
        };
        let mut conn = match self.connections.remove(token) {
            Some(c) => c,
            None => {
                proof {
                    assert(self.connections@ =~= old(self).connections@);
                }
                return Finalized { staged: false, cgi_io };
            },
        };
        let staged = conn.respond(response_bytes, now, self.config.max_server_size);
        self.connections.insert(token, conn);
        proof {
            assert(self.connections@.dom() =~= old(self).connections@.dom());
        }
        Finalized { staged, cgi_io }
    }

    /// Takes a connection down, and the script that runs for it.
    pub fn close_connection(&mut self, token: usize) -> (r: Closed)
        requires
            old(self).wf(),
        ensures
            final(self).wf(),
            final(self).advanced_from(old(self)),
            final(self).clients() == old(self).clients().remove(token),
            r.connection == old(self).clients().contains_key(token),
            r.cgi_io == (if old(self).scripts().contains_key(token) {
                Some(old(self).scripts()[token].io_token)
            } else {
                None
            }),
            final(self).live_tokens() =~= (match r.cgi_io {
                Some(io) => old(self).live_tokens().remove(io).remove(token),
                None => if r.connection {
                    old(self).live_tokens().remove(token)
                } else {
                    old(self).live_tokens()
                },
            }),
    {
        let cgi_io = match self.remove_pending_cgi(token) {
            Some(p) => Some(p.io_token),
            None => None,
        };
        let connection = self.connections.remove(token).is_some();
        Closed { connection, cgi_io }
    }

    /// Records that a script was started for a client: the token under which
    /// the script's output is to be registered for reading. `None`, and
    /// nothing changed, unless the client is reading its request and a token
    /// is left.
    pub fn start_cgi_process(&mut self, client_token: usize, now: u64) -> (r: Option<usize>)
        requires
            old(self).wf(),
        ensures
            final(self).wf(),
            final(self).advanced_from(old(self)),
            final(self).clients().dom() == old(self).clients().dom(),
            r.is_some() == (old(self).clients().contains_key(client_token)
                && old(self).clients()[client_token].state == ConnectionState::ReadRequest
                && old(self).next() < usize::MAX),
            match r {
                Some(io) => {
                    &&& io == old(self).next()
                    &&& !old(self).live_tokens().contains(io)
                    &&& final(self).live_tokens() =~= old(self).live_tokens().insert(io)
                    &&& final(self).clients()[client_token].state == ConnectionState::CgiPending
                    &&& final(self).scripts().contains_key(client_token)
                    &&& final(self).scripts()[client_token].io_token == io
                    &&& final(self).scripts()[client_token].output@.len() == 0
                    &&& final(self).scripts()[client_token].started_at == now
                    &&& final(self).outputs() == old(self).outputs().insert(
                        io,
                        client_token,
                    )
                },
                None => *final(self) == *old(self),
            },
    {
        let ready = match self.connections.get(client_token) {
            Some(c) => c.state == ConnectionState::ReadRequest,
            None => false,
        };
        if !ready || self.next_token == usize::MAX {
            return None;
        }
        let mut conn = match self.connections.remove(client_token) {
            Some(c) => c,
            None => {
                return None;
            },
        };
        let io_token = self.next_token;
        self.next_token = io_token + 1;
        conn.park(now, self.config.max_server_size);
        self.connections.insert(client_token, conn);
        self.pending_cgi.insert(
            client_token,
            PendingCgi { io_token, output: Vec::new(), started_at: now },
        );
        self.cgi_token_to_client.insert(io_token, client_token);
        proof {
            assert(self.connections@.dom() =~= old(self).connections@.dom());
        }
        Some(io_token)
    }

    /// Takes bytes that a script wrote for a client: they are added to its
    /// output, and the client counts as active. Dropped where no script runs
    /// for the client.
    pub fn cgi_output(&mut self, client_token: usize, data: &[u8], now: u64) -> (r: bool)
        requires
            old(self).wf(),
        ensures
            final(self).wf(),
            final(self).advanced_from(old(self)),
            final(self).live_tokens() == old(self).live_tokens(),
            final(self).clients().dom() == old(self).clients().dom(),
            r == old(self).scripts().contains_key(client_token),
            r ==> {
                &&& final(self).scripts()[client_token].output@ == old(self).scripts()[client_token].output@ + data@
                &&& final(self).clients()[client_token].last_activity == now
                &&& final(self).clients()[client_token].state == ConnectionState::CgiPending
            },
            !r ==> *final(self) == *old(self),
    {
        if !self.pending_cgi.contains(client_token) {
            return false;
        }
        let mut pending = match self.pending_cgi.remove(client_token) {
            Some(p) => p,
            None => {
                return false;
            },
        };
        append(&mut pending.output, data);
        self.pending_cgi.insert(client_token, pending);
        match self.connections.remove(client_token) {
            Some(mut conn) => {
                conn.last_activity = now;
                self.connections.insert(client_token, conn);
            },
            None => {},
        }
        proof {
            assert(self.connections@.dom() =~= old(self).connections@.dom());
            assert(self.pending_cgi@.dom() =~= old(self).pending_cgi@.dom());
        }
        true
    }

    /// Ends a script that has exited: its output becomes the client's
    /// response. The token says which output descriptor to deregister; `None`
    /// where no script ran for the client.
    pub fn finish_cgi(&mut self, client_token: usize, now: u64) -> (r: Finalized)
        requires
            old(self).wf(),
        ensures
            final(self).wf(),
            final(self).advanced_from(old(self)),
            final(self).clients().dom() == old(self).clients().dom(),
            r.cgi_io == (if old(self).scripts().contains_key(client_token) {
                Some(old(self).scripts()[client_token].io_token)
            } else {
                None
            }),
            r.staged == r.cgi_io.is_some(),
            final(self).live_tokens() =~= (match r.cgi_io {
                Some(io) => old(self).live_tokens().remove(io),
                None => old(self).live_tokens(),
            }),
            r.staged ==> {
                &&& final(self).clients()[client_token].state == ConnectionState::WriteResponse
                &&& final(self).clients()[client_token].write_buffer@ == cgi_response(
                    old(self).scripts()[client_token].output@,
                )
            },
            !r.staged ==> *final(self) == *old(self),
    {
        let response = match self.pending_cgi.get(client_token) {
            Some(p) => build_cgi_response(p.output.as_slice()),
            None => {
                return Finalized { staged: false, cgi_io: None };
            },
        };
        self.finalize_response(client_token, response, now)
    }

    /// Whether a client has been idle for too long. A client that waits for a
    /// script is never idle: the script has a timer of its own.
    pub closed spec fn idle(&self, token: usize, now: u64) -> bool {
        self.connections@.contains_key(token) && self.connections@[token].state
            != ConnectionState::CgiPending && expired(
            now,
            self.connections@[token].last_activity,
            self.config.timeout_seconds,
        )
    }

    /// Whether the script that runs for a client has run for too long.
    pub closed spec fn overdue(&self, client_token: usize, now: u64) -> bool {
        self.pending_cgi@.contains_key(client_token) && expired(
            now,
            self.pending_cgi@[client_token].started_at,
            self.config.timeout_seconds,
        )
    }

    /// Those of the tokens, in their order, that stand for idle clients.
    pub closed spec fn idle_among(&self, tokens: Seq<usize>, now: u64) -> Seq<usize>
        decreases tokens.len(),
    {
        if tokens.len() == 0 {
            Seq::empty()
        } else if self.idle(tokens.last(), now) {
            self.idle_among(tokens.drop_last(), now).push(tokens.last())
        } else {
            self.idle_among(tokens.drop_last(), now)
        }
    }

    /// Those of the tokens, in their order, that stand for clients whose
    /// script is overdue.
    pub closed spec fn overdue_among(&self, tokens: Seq<usize>, now: u64) -> Seq<usize>
        decreases tokens.len(),
    {
        if tokens.len() == 0 {
            Seq::empty()
        } else if self.overdue(tokens.last(), now) {
            self.overdue_among(tokens.drop_last(), now).push(tokens.last())
        } else {
            self.overdue_among(tokens.drop_last(), now)
        }
    }

    /// Whether a client has been idle for too long.
    pub fn is_idle(&self, token: usize, now: u64) -> (r: bool)
        ensures
            r == self.idle(token, now),
    {
        match self.connections.get(token) {
            Some(conn) => conn.is_idle(now, self.config.timeout_seconds),
            None => false,
        }
    }

    /// Whether the script that runs for a client has run for too long.
    pub fn is_overdue(&self, client_token: usize, now: u64) -> (r: bool)
        ensures
            r == self.overdue(client_token, now),
    {
        match self.pending_cgi.get(client_token) {
            Some(p) => has_expired(now, p.started_at, self.config.timeout_seconds),
            None => false,
        }
    }

    /// Picks, among the given tokens, the clients to close for idleness.
    pub fn check_timeouts(&self, tokens: &[usize], now: u64) -> (r: Vec<usize>)
        ensures
            r@ == self.idle_among(tokens@, now),
    {
        let mut out: Vec<usize> = Vec::new();
        let mut i: usize = 0;
        proof {
            assert(tokens@.take(0) =~= Seq::<usize>::empty());
        }
        while i < tokens.len()
            invariant
                i <= tokens@.len(),
                out@ == self.idle_among(tokens@.take(i as int), now),
            decreases tokens.len() - i,
        {
            proof {
                assert(tokens@.take(i + 1).drop_last() =~= tokens@.take(i as int));
            }
            if self.is_idle(tokens[i], now) {
                out.push(tokens[i]);
            }
            i += 1;
        }
        proof {
            assert(tokens@.take(i as int) =~= tokens@);
        }
        out
    }

    /// Picks, among the given tokens, the clients whose script is to be
    /// stopped for running too long; each of them is then answered with 504.
    pub fn check_cgi_timeouts(&self, tokens: &[usize], now: u64) -> (r: Vec<usize>)
        ensures
            r@ == self.overdue_among(tokens@, now),
    {
        let mut out: Vec<usize> = Vec::new();
        let mut i: usize = 0;
        proof {
            assert(tokens@.take(0) =~= Seq::<usize>::empty());
        }
        while i < tokens.len()
            invariant
                i <= tokens@.len(),
                out@ == self.overdue_among(tokens@.take(i as int), now),
            decreases tokens.len() - i,
        {
            proof {
                assert(tokens@.take(i + 1).drop_last() =~= tokens@.take(i as int));
            }
            if self.is_overdue(tokens[i], now) {
                out.push(tokens[i]);
            }
            i += 1;
        }
        proof {
            assert(tokens@.take(i as int) =~= tokens@);
        }
        out
    }
}

} // verus!
