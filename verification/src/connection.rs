use vstd::prelude::*;
use vstd::slice::slice_subrange;
use vstd::utf8::valid_utf8;
use vstd::string::StringSliceAdditionalSpecFns;
use crate::bytes::{
    append, eq_ignore_case, find_byte, find_from, line_at, line_bounds, line_next,
    same_ignoring_case, trim, trimmed,
};
use crate::number::{parse_number, parse_uint};
use crate::request::{complete, header_end, is_utf8, HttpRequest};

verus! {

/// Where a connection stands between accept and close.
#[derive(Debug, Clone, Copy, PartialEq, Eq, Structural)]
pub enum ConnectionState {
    ReadRequest,
    CgiPending,
    WriteResponse,
}

/// How far a state is along the life of a connection.
pub open spec fn rank(s: ConnectionState) -> int {
    match s {
        ConnectionState::ReadRequest => 0,
        ConnectionState::CgiPending => 1,
        ConnectionState::WriteResponse => 2,
    }
}

/// What the reactor keeps of one client. Times are milliseconds of a
/// monotonic clock.
pub struct Connection {
    pub state: ConnectionState,
    pub read_buffer: Vec<u8>,
    pub write_buffer: Vec<u8>,
    pub bytes_written: usize,
    pub last_activity: u64,
    pub server_idx: usize,
    pub request_complete: bool,
}

/// What to do after bytes were taken from a client.
#[derive(Debug, Clone, Copy, PartialEq, Eq, Structural)]
pub enum ReadStep {
    /// Read again.
    Continue,
    /// Nothing to do for now.
    Stop,
    /// The request is too large: answer 413.
    TooLarge,
    /// The request is whole: process it.
    Process,
}

/// What to do after bytes were handed to a client's socket.
#[derive(Debug, Clone, Copy, PartialEq, Eq, Structural)]
pub enum WriteStep {
    /// Write again.
    Continue,
    /// Everything is sent, or the socket misbehaved: close.
    Close,
}

/// Whether more than `timeout_seconds` have passed from `since` to `now`.
pub open spec fn expired(now: u64, since: u64, timeout_seconds: u64) -> bool {
    now - since > timeout_seconds * 1000
}

/// Whether more than `timeout_seconds` have passed from `since` to `now`.
pub fn has_expired(now: u64, since: u64, timeout_seconds: u64) -> (r: bool)
    ensures
        r == expired(now, since, timeout_seconds),
{
    if now <= since {
        return false;
    }
    if timeout_seconds > u64::MAX / 1000 {
        return false;
    }
    now - since > timeout_seconds * 1000
}

/// The length that the first `Content-Length` line of a header block declares,
/// from the line at `pos` on: the line's name is what stands before its first
/// colon, whatever the case of its letters. A number that cannot be read ends
/// the search.
pub open spec fn declared_length_from(h: Seq<u8>, pos: int) -> Option<nat>
    decreases h.len() - pos,
{
    if pos < 0 || pos >= h.len() {
        None
    } else {
        let line = line_at(h, pos);
        match find_from(line, seq![58u8], 0) {
            Some(c) => if same_ignoring_case(trim(line.take(c)), "content-length".spec_bytes()) {
                parse_number(trim(line.skip(c + 1)), 10, usize::MAX as nat)
            } else {
                declared_length_from(h, line_next(h, pos))
            },
            None => declared_length_from(h, line_next(h, pos)),
        }
    }
}

/// The length that a header block declares.
pub open spec fn declared_length(h: Seq<u8>) -> Option<nat> {
    if valid_utf8(h) {
        declared_length_from(h, 0)
    } else {
        None
    }
}

/// The length that a header block declares.
pub fn extract_content_length(header_bytes: &[u8]) -> (r: Option<usize>)
    ensures
        match r {
            Some(n) => declared_length(header_bytes@) == Some(n as nat),
            None => declared_length(header_bytes@).is_none(),
        },
{
    if !is_utf8(header_bytes) {
        return None;
    }
    let key = "content-length".as_bytes();
    let mut pos: usize = 0;
    while pos < header_bytes.len()
        invariant
            valid_utf8(header_bytes@),
            key@ == "content-length".spec_bytes(),
            declared_length_from(header_bytes@, 0) == declared_length_from(
                header_bytes@,
                pos as int,
            ),
        decreases header_bytes.len() - pos,
    {
        let (e, next) = line_bounds(header_bytes, pos);
        let line = slice_subrange(header_bytes, pos, e);
        match find_byte(line, 58u8, 0) {
            Some(c) => {
                let name = trimmed(slice_subrange(line, 0, c));
                proof {
                    assert(line@.subrange(0, c as int) =~= line@.take(c as int));
                    assert(line@.subrange(c + 1, line@.len() as int) =~= line@.skip(c + 1));
                }
                if eq_ignore_case(name.as_slice(), key) {
                    let value = trimmed(slice_subrange(line, c + 1, line.len()));
                    return parse_uint(value.as_slice(), 10, usize::MAX);
                }
            },
            None => {},
        }
        pos = next;
    }
    None
}

/// Whether a buffer holds a request that is over the body limit: its header
/// block declares more, or more bytes than that have come behind the block.
pub open spec fn over_limit(buf: Seq<u8>, limit: int) -> bool {
    match header_end(buf) {
        Some(h) => (match declared_length(buf.take(h)) {
            Some(n) => n > limit,
            None => false,
        }) || buf.len() - h > limit,
        None => false,
    }
}

/// What follows from a buffer that has just grown.
pub open spec fn verdict(buf: Seq<u8>, limit: int) -> ReadStep {
    if over_limit(buf, limit) {
        ReadStep::TooLarge
    } else if complete(buf) {
        ReadStep::Process
    } else {
        ReadStep::Continue
    }
}

/// What follows from a buffer that has just grown.
pub fn judge(buf: &[u8], limit: usize) -> (r: ReadStep)
    ensures
        r == verdict(buf@, limit as int),
{
    match HttpRequest::find_header_end(buf) {
        Some(h) => {
            let head = slice_subrange(buf, 0, h);
            match extract_content_length(head) {
                Some(n) => {
                    if n > limit {
                        return ReadStep::TooLarge;
                    }
                },
                None => {},
            }
            if buf.len() - h > limit {
                return ReadStep::TooLarge;
            }
        },
        None => {},
    }
    if HttpRequest::is_complete(buf) {
        ReadStep::Process
    } else {
        ReadStep::Continue
    }
}

impl Connection {
    /// What holds of every connection: the write cursor lies within the write
    /// buffer, the read buffer is within the cap `max`, and nothing is staged
    /// for writing before the response is set.
    pub open spec fn wf(&self, max: int) -> bool {
        &&& self.bytes_written <= self.write_buffer@.len()
        &&& self.read_buffer@.len() <= max
        &&& (self.state != ConnectionState::WriteResponse ==> self.write_buffer@.len() == 0)
    }

    /// A connection as it is right after accept.
    pub fn new(server_idx: usize, now: u64) -> (r: Self)
        ensures
            r.state == ConnectionState::ReadRequest,
            r.read_buffer@.len() == 0,
            r.write_buffer@.len() == 0,
            r.bytes_written == 0,
            r.last_activity == now,
            r.server_idx == server_idx,
            !r.request_complete,
            forall|max: int| 0 <= max ==> r.wf(max),
    {
        Connection {
            state: ConnectionState::ReadRequest,
            read_buffer: Vec::new(),
            write_buffer: Vec::new(),
            bytes_written: 0,
            last_activity: now,
            server_idx,
            request_complete: false,
        }
    }

    /// Takes bytes that were read from the client. Bytes that would take the
    /// read buffer over `max` are refused, and so is a request over `limit`;
    /// bytes that come while no request is being read are dropped.
    pub fn receive(&mut self, data: &[u8], now: u64, max: usize, limit: usize) -> (r: ReadStep)
        requires
            old(self).wf(max as int),
        ensures
            final(self).wf(max as int),
            final(self).state == old(self).state,
            final(self).bytes_written == old(self).bytes_written,
            final(self).write_buffer@ == old(self).write_buffer@,
            final(self).server_idx == old(self).server_idx,
            old(self).state != ConnectionState::ReadRequest ==> r == ReadStep::Stop && *final(self)
                == *old(self),
            old(self).state == ConnectionState::ReadRequest && old(self).read_buffer@.len()
                + data@.len() > max ==> r == ReadStep::TooLarge && *final(self) == *old(self),
            old(self).state == ConnectionState::ReadRequest && old(self).read_buffer@.len()
                + data@.len() <= max ==> {
                &&& final(self).read_buffer@ == old(self).read_buffer@ + data@
                &&& final(self).last_activity == now
                &&& r == verdict(final(self).read_buffer@, limit as int)
                &&& final(self).request_complete == (old(self).request_complete || r
                    == ReadStep::Process)
            },
    {
        if self.state != ConnectionState::ReadRequest {
            return ReadStep::Stop;
        }
        if data.len() > max - self.read_buffer.len() {
            return ReadStep::TooLarge;
        }
        append(&mut self.read_buffer, data);
        self.last_activity = now;
        let step = judge(self.read_buffer.as_slice(), limit);
        if step == ReadStep::Process {
            self.request_complete = true;
        }
        step
    }

    /// The bytes of the response that are still to be sent.
    pub fn unsent(&self) -> (r: &[u8])
        requires
            self.bytes_written <= self.write_buffer@.len(),
        ensures
            r@ == self.write_buffer@.skip(self.bytes_written as int),
    {
        let r = slice_subrange(
            self.write_buffer.as_slice(),
            self.bytes_written,
            self.write_buffer.len(),
        );
        proof {
            assert(r@ =~= self.write_buffer@.skip(self.bytes_written as int));
        }
        r
    }

    /// Whether everything staged for writing has been sent.
    pub fn drained(&self) -> (r: bool)
        ensures
            r == (self.bytes_written >= self.write_buffer@.len()),
    {
        self.bytes_written >= self.write_buffer.len()
    }

    /// Records that the socket took `n` more bytes of the response. The cursor
    /// moves forward by `n`; once it reaches the end the connection is to be
    /// closed, and so it is where `n` is more than was left to send.
    pub fn written(&mut self, n: usize, now: u64, max: usize) -> (r: WriteStep)
        requires
            old(self).wf(max as int),
        ensures
            final(self).wf(max as int),
            final(self).state == old(self).state,
            final(self).write_buffer@ == old(self).write_buffer@,
            final(self).read_buffer@ == old(self).read_buffer@,
            final(self).server_idx == old(self).server_idx,
            final(self).bytes_written >= old(self).bytes_written,
            old(self).bytes_written + n <= old(self).write_buffer@.len() ==> {
                &&& final(self).bytes_written == old(self).bytes_written + n
                &&& final(self).last_activity == now
                &&& r == if final(self).bytes_written == final(self).write_buffer@.len() {
                    WriteStep::Close
                } else {
                    WriteStep::Continue
                }
            },
            old(self).bytes_written + n > old(self).write_buffer@.len() ==> r == WriteStep::Close
                && *final(self) == *old(self),
    {
        if n > self.write_buffer.len() - self.bytes_written {
            return WriteStep::Close;
        }
        self.bytes_written = self.bytes_written + n;
        self.last_activity = now;
        if self.bytes_written == self.write_buffer.len() {
            WriteStep::Close
        } else {
            WriteStep::Continue
        }
    }

    /// Stages a response and turns to writing it. A connection that is
    /// already writing keeps its response.
    pub fn respond(&mut self, response: Vec<u8>, now: u64, max: usize) -> (r: bool)
        requires
            old(self).wf(max as int),
        ensures
            final(self).wf(max as int),
            final(self).state == ConnectionState::WriteResponse,
            rank(final(self).state) >= rank(old(self).state),
            final(self).bytes_written == old(self).bytes_written,
            final(self).read_buffer@ == old(self).read_buffer@,
            final(self).server_idx == old(self).server_idx,
            r == (old(self).state != ConnectionState::WriteResponse),
            r ==> final(self).write_buffer@ == response@ && final(self).last_activity == now,
            !r ==> *final(self) == *old(self),
    {
        if self.state == ConnectionState::WriteResponse {
            return false;
        }
        self.write_buffer = response;
        self.state = ConnectionState::WriteResponse;
        self.last_activity = now;
        true
    }

    /// Parks the connection while a script runs for it. Only a connection that
    /// is reading its request can be parked.
    pub fn park(&mut self, now: u64, max: usize) -> (r: bool)
        requires
            old(self).wf(max as int),
        ensures
            final(self).wf(max as int),
            rank(final(self).state) >= rank(old(self).state),
            final(self).bytes_written == old(self).bytes_written,
            final(self).read_buffer@ == old(self).read_buffer@,
            final(self).write_buffer@ == old(self).write_buffer@,
            final(self).server_idx == old(self).server_idx,
            r == (old(self).state == ConnectionState::ReadRequest),
            r ==> final(self).state == ConnectionState::CgiPending && final(self).last_activity
                == now,
            !r ==> *final(self) == *old(self),
    {
        if self.state != ConnectionState::ReadRequest {
            return false;
        }
        self.state = ConnectionState::CgiPending;
        self.last_activity = now;
        true
    }

    /// Whether the connection has been idle for too long. One that waits for a
    /// script is never idle: the script has a timer of its own.
    pub fn is_idle(&self, now: u64, timeout_seconds: u64) -> (r: bool)
        ensures
            r == (self.state != ConnectionState::CgiPending && expired(
                now,
                self.last_activity,
                timeout_seconds,
            )),
    {
        self.state != ConnectionState::CgiPending && has_expired(
            now,
            self.last_activity,
            timeout_seconds,
        )
    }
}

} // verus!
