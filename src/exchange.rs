use crate::address::{no_line_break, parse_address, resolve, check_no_line_break};
use crate::error::FetchError;
use crate::request::HttpRequest;
use crate::wire::{body_bytes, check_headers, header_bytes, headers_valid, serialize_request, serialized};
use vstd::prelude::*;
use vstd::utf8::*;

verus! {

/// The largest response a fetcher keeps by default: 16 MiB.
pub const DEFAULT_MAX_RESPONSE_BYTES: usize = 16777216;

/// How long connecting may take by default, in milliseconds.
pub const DEFAULT_CONNECT_TIMEOUT_MS: u64 = 10000;

/// How long a read may wait for bytes by default, in milliseconds.
pub const DEFAULT_READ_TIMEOUT_MS: u64 = 30000;

/// The bounds under which exchanges run.
pub struct Fetcher {
    pub max_response_bytes: usize,
    pub connect_timeout_ms: u64,
    pub read_timeout_ms: u64,
}

/// Where an exchange stands.
#[derive(Debug, Clone, Copy, PartialEq, Eq)]
pub enum Phase {
    /// Waiting for the connection to open.
    Connecting,
    /// Waiting for the request to be written.
    Sending,
    /// Collecting response bytes until the peer closes.
    Receiving,
    /// A response or an error has been handed out.
    Done,
}

/// What the caller observed while carrying out the last action.
#[derive(Debug)]
pub enum Event {
    Connected,
    ConnectFailed(String),
    Sent,
    SendFailed(String),
    /// Bytes arrived, in the order read.
    Received(Vec<u8>),
    /// The peer closed the connection.
    Closed,
    ReceiveFailed(String),
    /// No bytes arrived within the read bound.
    TimedOut,
}

/// What the caller is to do next.
#[derive(Debug)]
pub enum Action {
    /// Open a connection to the exchange's host and port.
    Connect,
    /// Write all of the exchange's request bytes, then flush.
    Send,
    /// Read the next bytes.
    Read,
    /// Close the connection; this is the complete response.
    Deliver(Vec<u8>),
    /// Close the connection; the exchange failed.
    Fail(FetchError),
    /// Nothing is left to do.
    Idle,
}

/// One request/response exchange: where to connect, what to send, what came back.
pub struct Exchange {
    pub host: Vec<u8>,
    pub port: u16,
    pub request: Vec<u8>,
    pub received: Vec<u8>,
    pub limit: usize,
    pub phase: Phase,
}

/// Host, port and request bytes for a request, or the error that stops it.
///
/// An unusable address is reported first, then an unsupported version, then a
/// header or user agent that cannot be written on one line.
pub open spec fn prepared(req: HttpRequest) -> Result<(Seq<u8>, u16, Seq<u8>), FetchError> {
    let agent = encode_utf8(req.user_agent@);
    let hb = header_bytes(req.headers@);
    match resolve(encode_utf8(req.address@)) {
        None => Err(FetchError::InvalidAddress),
        Some(t) => if !req.version.is_textual() {
            Err(FetchError::UnsupportedVersion)
        } else if !(no_line_break(agent) && headers_valid(hb)) {
            Err(FetchError::InvalidHeader)
        } else {
            Ok((t.0, t.1, serialized(req.method, req.version, t.0, t.2, agent, hb, body_bytes(req.body))))
        },
    }
}

/// The action that the phase waits on.
pub open spec fn phase_action(p: Phase, a: Action) -> bool {
    match p {
        Phase::Connecting => a is Connect,
        Phase::Sending => a is Send,
        Phase::Receiving => a is Read,
        Phase::Done => a is Idle,
    }
}

impl Fetcher {
    pub fn new() -> (r: Self)
        ensures
            r.max_response_bytes == DEFAULT_MAX_RESPONSE_BYTES,
            r.connect_timeout_ms == DEFAULT_CONNECT_TIMEOUT_MS,
            r.read_timeout_ms == DEFAULT_READ_TIMEOUT_MS,
    {
        Fetcher {
            max_response_bytes: DEFAULT_MAX_RESPONSE_BYTES,
            connect_timeout_ms: DEFAULT_CONNECT_TIMEOUT_MS,
            read_timeout_ms: DEFAULT_READ_TIMEOUT_MS,
        }
    }

    /// Checks and serializes a request. The exchange it returns waits to connect;
    /// an error here means that no connection is to be opened.
    pub fn begin(&self, request: &HttpRequest) -> (r: Result<Exchange, FetchError>)
        ensures
            match r {
                Ok(x) => {
                    &&& prepared(*request) == Ok::<_, FetchError>((x.host@, x.port, x.request@))
                    &&& x.received@.len() == 0
                    &&& x.limit == self.max_response_bytes
                    &&& x.phase == Phase::Connecting
                },
                Err(e) => prepared(*request) == Err::<(Seq<u8>, u16, Seq<u8>), _>(e),
            },
    {
        let target = match parse_address(request.address.as_str()) {
            Ok(t) => t,
            Err(e) => {
                return Err(e);
            },
        };
        if let crate::request::HttpVersion::Http20 = request.version {
            return Err(FetchError::UnsupportedVersion);
        }
        if !check_no_line_break(request.user_agent.as_str().as_bytes()) || !check_headers(
            &request.headers,
        ) {
            return Err(FetchError::InvalidHeader);
        }
        let bytes = serialize_request(
            request.method,
            request.version,
            target.host.as_slice(),
            target.path.as_slice(),
            request.user_agent.as_str(),
            &request.headers,
            &request.body,
        );
        Ok(
            Exchange {
                host: target.host,
                port: target.port,
                request: bytes,
                received: Vec::new(),
                limit: self.max_response_bytes,
                phase: Phase::Connecting,
            },
        )
    }
}


impl Exchange {
    /// The bytes collected so far stay within the bound.
    pub open spec fn wf(&self) -> bool {
        self.received@.len() <= self.limit
    }

    /// The action that the current phase waits on.
    pub fn pending(&self) -> (a: Action)
        ensures
            phase_action(self.phase, a),
    {
        match self.phase {
            Phase::Connecting => Action::Connect,
            Phase::Sending => Action::Send,
            Phase::Receiving => Action::Read,
            Phase::Done => Action::Idle,
        }
    }

    /// Takes in what the caller observed and says what to do next.
    ///
    /// Bytes are kept from the first chunk on, as they arrive and whatever they hold,
    /// until the peer closes the connection; the response is then handed out whole.
    /// Any failure, or a response past the bound, ends the exchange with an error.
    /// An event that the phase does not wait for changes nothing.
    pub fn on_event(&mut self, event: Event) -> (a: Action)
        ensures
            final(self).host == old(self).host,
            final(self).port == old(self).port,
            final(self).request == old(self).request,
            final(self).limit == old(self).limit,
            old(self).wf() ==> final(self).wf(),
            match (old(self).phase, event) {
                (Phase::Connecting, Event::Connected) => {
                    &&& final(self).phase == Phase::Sending
                    &&& final(self).received@ == old(self).received@
                    &&& a is Send
                },
                (Phase::Connecting, Event::ConnectFailed(m)) => {
                    &&& final(self).phase == Phase::Done
                    &&& a == Action::Fail(FetchError::ConnectionFailed(m))
                },
                (Phase::Sending, Event::Sent) => {
                    &&& final(self).phase == Phase::Receiving
                    &&& final(self).received@ == old(self).received@
                    &&& a is Read
                },
                (Phase::Sending, Event::SendFailed(m)) => {
                    &&& final(self).phase == Phase::Done
                    &&& a == Action::Fail(FetchError::SendFailed(m))
                },
                (Phase::Receiving, Event::Received(c)) => if old(self).received@.len() + c@.len()
                    <= old(self).limit {
                    &&& final(self).phase == Phase::Receiving
                    &&& final(self).received@ == old(self).received@ + c@
                    &&& a is Read
                } else {
                    &&& final(self).phase == Phase::Done
                    &&& a == Action::Fail(FetchError::ResponseTooLarge)
                },
                (Phase::Receiving, Event::Closed) => {
                    &&& final(self).phase == Phase::Done
                    &&& final(self).received@.len() == 0
                    &&& match a {
                        Action::Deliver(v) => v@ == old(self).received@,
                        _ => false,
                    }
                },
                (Phase::Receiving, Event::ReceiveFailed(m)) => {
                    &&& final(self).phase == Phase::Done
                    &&& a == Action::Fail(FetchError::ReceiveFailed(m))
                },
                (Phase::Receiving, Event::TimedOut) => {
                    &&& final(self).phase == Phase::Done
                    &&& a == Action::Fail(FetchError::ReadTimeout)
                },
                _ => {
                    &&& final(self).phase == old(self).phase
                    &&& final(self).received@ == old(self).received@
                    &&& phase_action(old(self).phase, a)
                },
            },
    {
        match (self.phase, event) {
            (Phase::Connecting, Event::Connected) => {
                self.phase = Phase::Sending;
                Action::Send
            },
            (Phase::Connecting, Event::ConnectFailed(m)) => {
                self.finish();
                Action::Fail(FetchError::ConnectionFailed(m))
            },
            (Phase::Sending, Event::Sent) => {
                self.phase = Phase::Receiving;
                Action::Read
            },
            (Phase::Sending, Event::SendFailed(m)) => {
                self.finish();
                Action::Fail(FetchError::SendFailed(m))
            },
            (Phase::Receiving, Event::Received(c)) => {
                if self.received.len() > self.limit || c.len() > self.limit - self.received.len() {
                    self.finish();
                    Action::Fail(FetchError::ResponseTooLarge)
                } else {
                    let mut c = c;
                    self.received.append(&mut c);
                    Action::Read
                }
            },
            (Phase::Receiving, Event::Closed) => {
                let mut out: Vec<u8> = Vec::new();
                core::mem::swap(&mut out, &mut self.received);
                self.phase = Phase::Done;
                Action::Deliver(out)
            },
            (Phase::Receiving, Event::ReceiveFailed(m)) => {
                self.finish();
                Action::Fail(FetchError::ReceiveFailed(m))
            },
            (Phase::Receiving, Event::TimedOut) => {
                self.finish();
                Action::Fail(FetchError::ReadTimeout)
            },
            _ => self.pending(),
        }
    }

    /// Ends the exchange and drops what was collected.
    fn finish(&mut self)
        ensures
            final(self).phase == Phase::Done,
            final(self).received@.len() == 0,
            final(self).host == old(self).host,
            final(self).port == old(self).port,
            final(self).request == old(self).request,
            final(self).limit == old(self).limit,
    {
        self.received = Vec::new();
        self.phase = Phase::Done;
    }
}

} // verus!
