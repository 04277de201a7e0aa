//! The local file server, as far as it decides: where it listens, how it
//! answers a request, and which session is the active one.  Sockets,
//! threads and files are the caller's.

use crate::mime::{guess_mime_type, mime_of_path};
use crate::text::{append_chars, chars_of, string_of};
use vstd::prelude::*;

verus! {

/// The port at which the search for a free port starts.
pub const DEFAULT_PORT: u16 = 8000;

/// How many ports above the first one the search tries.
pub const PORT_SPAN: u16 = 100;

/// One header of a response.
#[derive(Debug, PartialEq, Eq)]
pub struct Header {
    pub name: String,
    pub value: String,
}

/// The body of a response.
#[derive(Debug, PartialEq, Eq)]
pub enum Body {
    /// Plain text.
    Text(String),
    /// The bytes of a file.
    Bytes(Vec<u8>),
}

/// A response of the file server.
#[derive(Debug, PartialEq, Eq)]
pub struct HttpResponse {
    pub status: u16,
    pub headers: Vec<Header>,
    pub body: Body,
}

/// What the caller found when it looked for the requested file.
#[derive(Debug, PartialEq, Eq)]
pub enum FileRead {
    /// There is no such file, or it is a directory.
    Missing,
    /// The content of the file.
    Loaded(Vec<u8>),
    /// The file exists but could not be read; the message says why.
    Failed(String),
}

/// A body as the specification sees it.
pub enum BodyView {
    Text(Seq<char>),
    Bytes(Seq<u8>),
}

impl Body {
    /// The body as the specification sees it.
    pub open spec fn view(self) -> BodyView {
        match self {
            Body::Text(s) => BodyView::Text(s@),
            Body::Bytes(b) => BodyView::Bytes(b@),
        }
    }
}

/// The headers as pairs of name and value.
pub open spec fn header_views(headers: Seq<Header>) -> Seq<(Seq<char>, Seq<char>)> {
    Seq::new(headers.len(), |i: int| (headers[i].name@, headers[i].value@))
}

/// The headers that let a page of another origin read every response.
pub open spec fn cors_headers() -> Seq<(Seq<char>, Seq<char>)> {
    seq![
        ("Access-Control-Allow-Origin"@, "*"@),
        ("Access-Control-Allow-Methods"@, "GET, POST, OPTIONS"@),
        ("Access-Control-Allow-Headers"@, "Content-Type"@),
    ]
}

/// The answer to a request for the file at `file_path`, given what the
/// caller found there: `200` with the bytes and the content type of the
/// file, `404` where it is missing, `500` with the message where it could
/// not be read.  Every answer carries the CORS headers.
pub open spec fn response_to(file_path: Seq<char>, outcome: FileRead) -> (
    u16,
    Seq<(Seq<char>, Seq<char>)>,
    BodyView,
) {
    match outcome {
        FileRead::Missing => (404, cors_headers(), BodyView::Text("File not found"@)),
        FileRead::Loaded(bytes) => (
            200,
            seq![("Content-Type"@, mime_of_path(file_path))] + cors_headers(),
            BodyView::Bytes(bytes@),
        ),
        FileRead::Failed(message) => (
            500,
            cors_headers(),
            BodyView::Text("Internal Server Error: "@ + message@),
        ),
    }
}

/// Appends one header to `headers`.
fn push_header(headers: &mut Vec<Header>, name: &str, value: String)
    ensures
        header_views(final(headers)@) == header_views(old(headers)@).push((name@, value@)),
{
    let header = Header { name: name.to_owned(), value };
    assert(header_views(headers@.push(header)) == header_views(headers@).push((name@, value@)));
    headers.push(header);
}

/// Adds the CORS headers to a response, behind the headers that it has.
pub fn add_cors_headers(response: HttpResponse) -> (out: HttpResponse)
    ensures
        out.status == response.status,
        out.body == response.body,
        header_views(out.headers@) == header_views(response.headers@) + cors_headers(),
{
    let mut out = response;
    let ghost start = header_views(out.headers@);
    push_header(&mut out.headers, "Access-Control-Allow-Origin", "*".to_owned());
    push_header(&mut out.headers, "Access-Control-Allow-Methods", "GET, POST, OPTIONS".to_owned());
    push_header(&mut out.headers, "Access-Control-Allow-Headers", "Content-Type".to_owned());
    assert(header_views(out.headers@) == start + cors_headers());
    out
}

/// Answers a request for the file at `file_path`, given what the caller
/// found there.
pub fn handle_request(file_path: &str, outcome: FileRead) -> (out: HttpResponse)
    ensures
        (out.status, header_views(out.headers@), out.body.view()) == response_to(
            file_path@,
            outcome,
        ),
{
    let response = match outcome {
        FileRead::Missing => HttpResponse {
            status: 404,
            headers: Vec::new(),
            body: Body::Text("File not found".to_owned()),
        },
        FileRead::Loaded(bytes) => {
            let mut headers: Vec<Header> = Vec::new();
            push_header(&mut headers, "Content-Type", guess_mime_type(file_path));
            HttpResponse { status: 200, headers, body: Body::Bytes(bytes) }
        },
        FileRead::Failed(message) => {
            let mut text = chars_of("Internal Server Error: ");
            let reason = chars_of(message.as_str());
            append_chars(&mut text, &reason);
            HttpResponse { status: 500, headers: Vec::new(), body: Body::Text(string_of(&text)) }
        },
    };
    let ghost before = header_views(response.headers@);
    assert(outcome !is Loaded ==> before + cors_headers() == cors_headers());
    assert(outcome is Loaded ==> before == seq![("Content-Type"@, mime_of_path(file_path@))]);
    add_cors_headers(response)
}

/// The decimal digit for `d`, which is below ten.
pub open spec fn digit(d: int) -> char {
    (('0' as u8) + d) as char
}

/// The decimal notation of `n`.
pub open spec fn decimal(n: nat) -> Seq<char>
    decreases n,
{
    if n < 10 {
        seq![digit(n as int)]
    } else {
        decimal(n / 10).push(digit((n % 10) as int))
    }
}

/// Appends [`decimal`] of `n` to `out`.
fn push_decimal(out: &mut Vec<char>, n: u16)
    ensures
        final(out)@ == old(out)@ + decimal(n as nat),
    decreases n,
{
    if n >= 10 {
        push_decimal(out, n / 10);
    }
    let d: u8 = (n % 10) as u8;
    let c = (48u8 + d) as char;
    assert(c == digit((n % 10) as int));
    proof {
        if n >= 10 {
            assert((old(out)@ + decimal((n / 10) as nat)).push(c) == old(out)@ + decimal(
                (n / 10) as nat,
            ).push(c));
        } else {
            assert(old(out)@.push(c) == old(out)@ + seq![c]);
        }
    }
    out.push(c);
}

/// The address at which the server listens on `port`: the loopback
/// interface and the port in decimal.
pub open spec fn address_of(port: u16) -> Seq<char> {
    "127.0.0.1:"@ + decimal(port as nat)
}

/// The URL under which the server on `port` is reached.
pub open spec fn url_of(port: u16) -> Seq<char> {
    "http://"@ + address_of(port)
}

/// Computes [`address_of`].
pub fn server_address(port: u16) -> (address: String)
    ensures
        address@ == address_of(port),
{
    let mut out = chars_of("127.0.0.1:");
    push_decimal(&mut out, port);
    string_of(&out)
}

/// Computes [`url_of`].
pub fn server_url(port: u16) -> (url: String)
    ensures
        url@ == url_of(port),
{
    let mut out = chars_of("http://");
    let address = chars_of("127.0.0.1:");
    append_chars(&mut out, &address);
    push_decimal(&mut out, port);
    assert(("http://"@ + "127.0.0.1:"@) + decimal(port as nat) == url_of(port));
    string_of(&out)
}

/// One step of the search for a free port.
#[derive(Clone, Copy, Debug, PartialEq, Eq, Structural)]
pub enum PortProbe {
    /// Try to bind this port and report whether it was free.
    Try(u16),
    /// This port was free: listen on it.
    Found(u16),
    /// No port of the range was free.
    Exhausted,
}

/// The step that follows in a search that starts at `start`.  `tried` is
/// the port tried last and whether it was free, or `None` before the first
/// try.  The ports from `start` to `start + 100` are tried in order, and
/// the first free one is taken.
pub open spec fn next_probe(start: u16, tried: Option<(u16, bool)>) -> PortProbe {
    match tried {
        None => PortProbe::Try(start),
        Some((port, true)) => PortProbe::Found(port),
        Some((port, false)) => if port < start + PORT_SPAN {
            PortProbe::Try((port + 1) as u16)
        } else {
            PortProbe::Exhausted
        },
    }
}

/// Computes [`next_probe`].  The range must lie within the port numbers,
/// and a port reported as tried must be one of the range.
pub fn find_available_port(start_port: u16, tried: Option<(u16, bool)>) -> (step: PortProbe)
    requires
        start_port + PORT_SPAN <= u16::MAX,
        tried matches Some((port, _)) ==> start_port <= port <= start_port + PORT_SPAN,
    ensures
        step == next_probe(start_port, tried),
{
    match tried {
        None => PortProbe::Try(start_port),
        Some((port, true)) => PortProbe::Found(port),
        Some((port, false)) => if port < start_port + PORT_SPAN {
            PortProbe::Try(port + 1)
        } else {
            PortProbe::Exhausted
        },
    }
}

/// Where the search ends once `port` has been tried, `free` being the set of the
/// free ports.
pub open spec fn search_after(start: u16, free: Set<u16>, port: int) -> Option<u16>
    decreases start + PORT_SPAN - port,
{
    if start <= port <= start + PORT_SPAN && start + PORT_SPAN <= u16::MAX {
        match next_probe(start, Some((port as u16, free.contains(port as u16)))) {
            PortProbe::Found(found) => Some(found),
            PortProbe::Try(next) => search_after(start, free, next as int),
            PortProbe::Exhausted => None,
        }
    } else {
        None
    }
}

/// Where a search from `start` ends, `free` being the set of
/// the free ports.
pub open spec fn search(start: u16, free: Set<u16>) -> Option<u16> {
    search_after(start, free, start as int)
}

/// Once the ports below `port` proved busy, the search ends at the first
/// free port from `port` on, or without one where none is left.
pub proof fn lemma_search_after(start: u16, free: Set<u16>, port: int)
    requires
        start + PORT_SPAN <= u16::MAX,
        start <= port <= start + PORT_SPAN,
    ensures
        match search_after(start, free, port) {
            Some(found) => port <= found <= start + PORT_SPAN && free.contains(found) && forall|p: u16|
                port <= p < found ==> !free.contains(p),
            None => forall|p: u16| port <= p <= start + PORT_SPAN ==> !free.contains(p),
        },
    decreases start + PORT_SPAN - port,
{
    if !free.contains(port as u16) && port < start + PORT_SPAN {
        lemma_search_after(start, free, port + 1);
    }
}

/// The search finds the first free port of the range, and ends without a
/// port exactly if none of the range is free.
pub proof fn lemma_search_finds_first_free(start: u16, free: Set<u16>)
    requires
        start + PORT_SPAN <= u16::MAX,
    ensures
        match search(start, free) {
            Some(found) => start <= found <= start + PORT_SPAN && free.contains(found) && forall|p: u16|
                start <= p < found ==> !free.contains(p),
            None => forall|p: u16| start <= p <= start + PORT_SPAN ==> !free.contains(p),
        },
{
    lemma_search_after(start, free, start as int);
}

/// Why the server did not start.
#[derive(Clone, Copy, Debug, PartialEq, Eq, Structural)]
pub enum ServerError {
    /// No port of the range was free.
    NoPortAvailable,
    /// The listener could not be bound to the port that was found.
    BindFailed,
}

/// A running server.  `H` is whatever the caller keeps to reach the thread
/// that serves.
pub struct ActiveServer<H> {
    pub port: u16,
    pub base_path: String,
    pub handle: H,
}

/// The server session: at most one active server.
pub struct ServerSession<H> {
    pub active: Option<ActiveServer<H>>,
}

/// How an attempt to start a server went.
pub enum StartAttempt<H> {
    /// The search for a port ended without one.
    NoPortAvailable,
    /// A port was found, but the listener could not be bound.
    BindFailed,
    /// The server listens on `port`.
    Listening { port: u16, handle: H },
}

impl<H> ServerSession<H> {
    /// A session without a server.
    pub fn new() -> (session: Self)
        ensures
            session.active is None,
    {
        ServerSession { active: None }
    }

    /// Ends the session of the server that is active, if any, and hands it
    /// out so that the caller can signal its thread.
    pub fn supersede(&mut self) -> (previous: Option<ActiveServer<H>>)
        ensures
            previous == old(self).active,
            final(self).active is None,
    {
        self.active.take()
    }

    /// The port of the active server.
    pub fn port(&self) -> (port: Option<u16>)
        ensures
            port == (match self.active {
                Some(server) => Some(server.port),
                None => None,
            }),
    {
        match &self.active {
            Some(server) => Some(server.port),
            None => None,
        }
    }
}

/// Records the outcome of an attempt to start a server for `base_path`.
/// The server that was active before is superseded whatever the outcome.
/// Where the new one listens, it becomes the active server and its URL is
/// returned; otherwise the session is left without a server.
pub fn start_local_server<H>(
    session: &mut ServerSession<H>,
    base_path: String,
    attempt: StartAttempt<H>,
) -> (result: Result<String, ServerError>)
    ensures
        match attempt {
            StartAttempt::NoPortAvailable => result == Err::<String, ServerError>(
                ServerError::NoPortAvailable,
            ) && final(session).active is None,
            StartAttempt::BindFailed => result == Err::<String, ServerError>(
                ServerError::BindFailed,
            ) && final(session).active is None,
            StartAttempt::Listening { port, handle } => {
                &&& result matches Ok(url) && url@ == url_of(port)
                &&& final(session).active == Some(ActiveServer { port, base_path, handle })
            },
        },
{
    match attempt {
        StartAttempt::NoPortAvailable => {
            session.active = None;
            Err(ServerError::NoPortAvailable)
        },
        StartAttempt::BindFailed => {
            session.active = None;
            Err(ServerError::BindFailed)
        },
        StartAttempt::Listening { port, handle } => {
            session.active = Some(ActiveServer { port, base_path, handle });
            Ok(server_url(port))
        },
    }
}

} // verus!
