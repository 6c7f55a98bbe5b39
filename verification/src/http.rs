//! The protocol side of a small HTTP client: URLs, request heads, response
//! heads, redirects and body framing. Sockets live with the caller, which
//! hands in lines and byte counts.

use vstd::prelude::*;
use crate::auth::utf8_text;
use crate::text::{dec, has_prefix, hex_fixed, is_digit, lowered, parsed, split_first, split_last};
use crate::text::{char_is_digit, owned, parse_unsigned, push_dec, rsplit_once, same, split_once};
use crate::text::{same_ignoring_case, split_words, starts_with, strip_prefix, to_chars, to_lower};
use crate::text::{trim, trim_end, trimmed, trimmed_end, words};

verus! {

/// Redirects that the fetch of a file or a text follows at most.
pub const MAX_HOPS: u8 = 3;

/// Redirects that the fetch of a live stream follows at most.
pub const MAX_STREAM_HOPS: u8 = 4;

/// Largest body of a text fetch.
pub const TEXT_BODY_CAP: u64 = 16_777_216;

/// URL scheme: decides the default port and whether the transport is TLS.
#[derive(Clone, Copy, Debug, PartialEq, Eq, Structural)]
pub enum Scheme {
    Http,
    Https,
}

impl Scheme {
    /// The scheme as it stands in a URL.
    pub open spec fn name(self) -> Seq<char> {
        match self {
            Scheme::Http => "http"@,
            Scheme::Https => "https"@,
        }
    }

    /// The port that a URL without one means.
    pub open spec fn port(self) -> u16 {
        match self {
            Scheme::Http => 80,
            Scheme::Https => 443,
        }
    }

    /// The scheme as it stands in a URL.
    pub fn as_str(self) -> (s: &'static str)
        ensures
            s@ == self.name(),
    {
        match self {
            Scheme::Http => "http",
            Scheme::Https => "https",
        }
    }

    /// The port that a URL without one means.
    pub fn default_port(self) -> (p: u16)
        ensures
            p == self.port(),
    {
        match self {
            Scheme::Http => 80,
            Scheme::Https => 443,
        }
    }
}

/// Why a text is no usable URL.
#[derive(Clone, Copy, Debug, PartialEq, Eq, Structural)]
pub enum UrlFault {
    /// It does not start with `http://` or `https://`.
    NotHttp,
    /// The digits behind the host are no port number.
    BadPort,
    /// There is no host.
    EmptyHost,
}

/// The parts of a URL.
pub struct UrlParts {
    pub scheme: Scheme,
    pub host: Seq<char>,
    pub port: u16,
    pub path: Seq<char>,
}

/// A parsed `http(s)://host[:port]/path` URL.
#[derive(Clone, Debug)]
pub struct HttpUrl {
    pub scheme: Scheme,
    pub host: String,
    pub port: u16,
    pub path: String,
}

impl View for HttpUrl {
    type V = UrlParts;

    open spec fn view(&self) -> UrlParts {
        UrlParts { scheme: self.scheme, host: self.host@, port: self.port, path: self.path@ }
    }
}

/// The scheme of a URL and what follows `://`.
pub open spec fn scheme_and_rest(url: Seq<char>) -> Option<(Scheme, Seq<char>)> {
    if has_prefix(url, "https://"@) {
        Some((Scheme::Https, url.skip("https://"@.len() as int)))
    } else if has_prefix(url, "http://"@) {
        Some((Scheme::Http, url.skip("http://"@.len() as int)))
    } else {
        None
    }
}

/// The authority of what follows `://`, and the path with its leading slash.
pub open spec fn authority_and_path(rest: Seq<char>) -> (Seq<char>, Seq<char>) {
    match split_first(rest, '/') {
        Some((a, p)) => (a, seq!['/'] + p),
        None => (rest, seq!['/']),
    }
}

/// All characters are digits.
pub open spec fn all_digits(s: Seq<char>) -> bool {
    forall|i: int| 0 <= i < s.len() ==> is_digit(#[trigger] s[i])
}

/// The host of an authority and its port: digits behind the last colon are
/// the port, and everything is the host where there are none.
pub open spec fn host_and_port(authority: Seq<char>, scheme: Scheme) -> Result<
    (Seq<char>, u16),
    UrlFault,
> {
    match split_last(authority, ':') {
        Some((h, p)) => if all_digits(p) {
            match parsed(p, 10, 65535) {
                Some(n) => Ok((h, n as u16)),
                None => Err(UrlFault::BadPort),
            }
        } else {
            Ok((authority, scheme.port()))
        },
        None => Ok((authority, scheme.port())),
    }
}

/// What a text means as a URL.
pub open spec fn parsed_url(url: Seq<char>) -> Result<UrlParts, UrlFault> {
    match scheme_and_rest(url) {
        None => Err(UrlFault::NotHttp),
        Some((scheme, rest)) => {
            let (authority, path) = authority_and_path(rest);
            match host_and_port(authority, scheme) {
                Err(f) => Err(f),
                Ok((host, port)) => if host.len() == 0 {
                    Err(UrlFault::EmptyHost)
                } else {
                    Ok(UrlParts { scheme, host, port, path })
                },
            }
        },
    }
}

/// The start of every absolute URL on the same server.
pub open spec fn origin(url: UrlParts) -> Seq<char> {
    url.scheme.name() + "://"@ + url.host + ":"@ + dec(url.port as nat)
}

/// The directory of a path, up to and with its last slash.
pub open spec fn directory(path: Seq<char>) -> Seq<char> {
    match split_last(path, '/') {
        Some((d, _)) => d + "/"@,
        None => "/"@,
    }
}

/// Where a `Location` leads from `url`: absolute URLs as they are, absolute
/// paths on the same server, anything else relative to the current directory.
pub open spec fn joined_url(url: UrlParts, location: Seq<char>) -> Seq<char> {
    if has_prefix(location, "http://"@) || has_prefix(location, "https://"@) {
        location
    } else if has_prefix(location, "/"@) {
        origin(url) + location
    } else {
        origin(url) + directory(url.path) + location
    }
}

fn digits_only(s: &str) -> (r: bool)
    ensures
        r == all_digits(s@),
{
    let chars = to_chars(s);
    let mut i: usize = 0;
    while i < chars.len()
        invariant
            i <= chars@.len(),
            chars@ == s@,
            forall|k: int| 0 <= k < i ==> is_digit(#[trigger] s@[k]),
        decreases chars@.len() - i,
    {
        if !char_is_digit(chars[i]) {
            assert(!is_digit(s@[i as int]));
            return false;
        }
        i = i + 1;
    }
    true
}

impl HttpUrl {
    /// Takes a URL apart.
    pub fn parse(url: &str) -> (r: Result<HttpUrl, UrlFault>)
        ensures
            match r {
                Ok(u) => parsed_url(url@) == Ok::<UrlParts, UrlFault>(u@),
                Err(f) => parsed_url(url@) == Err::<UrlParts, UrlFault>(f),
            },
    {
        let (scheme, rest) = match strip_prefix(url, "https://") {
            Some(rest) => (Scheme::Https, rest),
            None => match strip_prefix(url, "http://") {
                Some(rest) => (Scheme::Http, rest),
                None => return Err(UrlFault::NotHttp),
            },
        };
        let mut path = String::new();
        path.push('/');
        let authority = match split_once(rest, '/') {
            Some((a, p)) => {
                path.append(p);
                a
            },
            None => rest,
        };
        assert(path@ =~= authority_and_path(rest@).1);
        let (host, port): (&str, u16) = match rsplit_once(authority, ':') {
            Some((h, p)) => {
                if digits_only(p) {
                    match parse_unsigned(p, 10, 65535) {
                        Some(n) => (h, n as u16),
                        None => return Err(UrlFault::BadPort),
                    }
                } else {
                    (authority, scheme.default_port())
                }
            },
            None => (authority, scheme.default_port()),
        };
        if host.is_empty() {
            return Err(UrlFault::EmptyHost);
        }
        Ok(HttpUrl { scheme, host: owned(host), port, path })
    }

    fn origin_text(&self) -> (s: String)
        ensures
            s@ == origin(self@),
    {
        let mut s = owned(self.scheme.as_str());
        s.append("://");
        s.append(self.host.as_str());
        s.append(":");
        push_dec(&mut s, self.port as u64);
        s
    }

    /// Where a `Location` header leads from this URL. A redirect may change
    /// the scheme.
    pub fn join(&self, location: &str) -> (s: String)
        ensures
            s@ == joined_url(self@, location@),
    {
        if starts_with(location, "http://") || starts_with(location, "https://") {
            return owned(location);
        }
        let mut s = self.origin_text();
        if starts_with(location, "/") {
            s.append(location);
            return s;
        }
        match rsplit_once(self.path.as_str(), '/') {
            Some((d, _)) => {
                s.append(d);
            },
            None => {},
        }
        s.append("/");
        s.append(location);
        assert(s@ =~= joined_url(self@, location@));
        s
    }
}

/// The message for a URL that was refused.
pub open spec fn url_fault_text(fault: UrlFault, url: Seq<char>) -> Seq<char> {
    match fault {
        UrlFault::NotHttp => "not an http(s):// URL: "@ + url,
        UrlFault::BadPort => "bad port in "@ + url,
        UrlFault::EmptyHost => "bad URL (empty host): "@ + url,
    }
}

/// The message for a URL that was refused.
pub fn url_fault_message(fault: UrlFault, url: &str) -> (s: String)
    ensures
        s@ == url_fault_text(fault, url@),
{
    let mut s = owned(
        match fault {
            UrlFault::NotHttp => "not an http(s):// URL: ",
            UrlFault::BadPort => "bad port in ",
            UrlFault::EmptyHost => "bad URL (empty host): ",
        },
    );
    s.append(url);
    s
}

/// The shape of a relay URL: a known scheme and something in front of the
/// first slash.
pub open spec fn relay_url_fault(url: Seq<char>) -> Option<UrlFault> {
    match scheme_and_rest(url) {
        None => Some(UrlFault::NotHttp),
        Some((_, rest)) => if authority_and_path(rest).0.len() == 0 {
            Some(UrlFault::EmptyHost)
        } else {
            None
        },
    }
}

/// Checks the shape of a relay URL without resolving its host.
pub fn validate_relay_url(url: &str) -> (r: Result<(), String>)
    ensures
        match relay_url_fault(url@) {
            None => r is Ok,
            Some(f) => r matches Err(msg) && msg@ == url_fault_text(f, url@),
        },
{
    let rest = match strip_prefix(url, "https://") {
        Some(rest) => rest,
        None => match strip_prefix(url, "http://") {
            Some(rest) => rest,
            None => return Err(url_fault_message(UrlFault::NotHttp, url)),
        },
    };
    let host = match split_once(rest, '/') {
        Some((a, _)) => a,
        None => rest,
    };
    if host.is_empty() {
        return Err(url_fault_message(UrlFault::EmptyHost, url));
    }
    Ok(())
}

// ---------------------------------------------------------------------------
// Requests
// ---------------------------------------------------------------------------

/// The lines that every request shares behind its method.
pub open spec fn common_head(url: UrlParts) -> Seq<char> {
    url.path + " HTTP/1.1\r\nHost: "@ + url.host
        + "\r\nUser-Agent: crabsoup/0.1\r\nConnection: close\r\n"@
}

/// A `GET` request. Relays also ask for a stream without interleaved
/// metadata.
pub open spec fn get_request_text(url: UrlParts, relay: bool) -> Seq<char> {
    "GET "@ + common_head(url) + "Accept: */*\r\n"@ + (if relay {
        "Icy-MetaData: 0\r\n"@
    } else {
        Seq::empty()
    }) + "\r\n"@
}

/// A `POST` of a JSON text; the length counts bytes.
pub open spec fn post_request_text(url: UrlParts, body: Seq<char>) -> Seq<char> {
    "POST "@ + common_head(url) + "Content-Type: application/json\r\nContent-Length: "@ + dec(
        vstd::utf8::encode_utf8(body).len(),
    ) + "\r\n\r\n"@ + body
}

fn push_common_head(s: &mut String, url: &HttpUrl)
    ensures
        final(s)@ == old(s)@ + common_head(url@),
{
    s.append(url.path.as_str());
    s.append(" HTTP/1.1\r\nHost: ");
    s.append(url.host.as_str());
    s.append("\r\nUser-Agent: crabsoup/0.1\r\nConnection: close\r\n");
    assert(s@ =~= old(s)@ + common_head(url@));
}

/// Builds a `GET` request.
pub fn get_request(url: &HttpUrl, relay: bool) -> (s: String)
    ensures
        s@ == get_request_text(url@, relay),
{
    let mut s = owned("GET ");
    push_common_head(&mut s, url);
    s.append("Accept: */*\r\n");
    if relay {
        s.append("Icy-MetaData: 0\r\n");
    }
    s.append("\r\n");
    assert(s@ =~= get_request_text(url@, relay));
    s
}

/// Builds a `POST` of a JSON text.
pub fn post_request(url: &HttpUrl, body: &str) -> (s: String)
    ensures
        s@ == post_request_text(url@, body@),
{
    let mut s = owned("POST ");
    push_common_head(&mut s, url);
    s.append("Content-Type: application/json\r\nContent-Length: ");
    push_dec(&mut s, body.as_bytes().len() as u64);
    s.append("\r\n\r\n");
    s.append(body);
    assert(s@ =~= post_request_text(url@, body@));
    s
}

// ---------------------------------------------------------------------------
// Responses
// ---------------------------------------------------------------------------

/// The status code of a status line: its second word.
pub open spec fn status_code(line: Seq<char>) -> Option<u16> {
    let w = words(line);
    if w.len() < 2 {
        None
    } else {
        match parsed(w[1], 10, 65535) {
            Some(n) => Some(n as u16),
            None => None,
        }
    }
}

/// Reads the status code of a status line.
pub fn parse_status_line(line: &str) -> (code: Option<u16>)
    ensures
        code == status_code(line@),
{
    let w = split_words(line);
    proof {
        assert(crate::text::str_views(w@).len() == w@.len());
    }
    if w.len() < 2 {
        return None;
    }
    assert(crate::text::str_views(w@)[1] == w@[1]@);
    match parse_unsigned(w[1], 10, 65535) {
        Some(n) => Some(n as u16),
        None => None,
    }
}

/// What the response head says of the body and of a redirect.
pub struct HeadView {
    pub chunked: bool,
    pub content_length: Option<u64>,
    pub content_type: Option<Seq<char>>,
    pub location: Option<Seq<char>>,
}

/// The head after one more header line. Names are compared without regard to
/// case, values lose the white space around them, and a line without a colon
/// is skipped.
pub open spec fn head_with(h: HeadView, line: Seq<char>) -> HeadView {
    match split_first(trimmed_end(line), ':') {
        None => h,
        Some((key, raw)) => {
            let name = lowered(key);
            let value = trimmed(raw);
            if name == "transfer-encoding"@ {
                HeadView { chunked: h.chunked || lowered(value) == lowered("chunked"@), ..h }
            } else if name == "content-length"@ {
                HeadView {
                    content_length: match parsed(value, 10, u64::MAX as int) {
                        Some(n) => Some(n as u64),
                        None => None,
                    },
                    ..h
                }
            } else if name == "content-type"@ {
                HeadView { content_type: Some(value), ..h }
            } else if name == "location"@ {
                HeadView { location: Some(value), ..h }
            } else {
                h
            }
        },
    }
}

/// The line ends the head.
pub open spec fn blank(line: Seq<char>) -> bool {
    trimmed_end(line).len() == 0
}

/// What the response head says of the body and of a redirect.
#[derive(Clone, Debug)]
pub struct ResponseHead {
    pub chunked: bool,
    pub content_length: Option<u64>,
    pub content_type: Option<String>,
    pub location: Option<String>,
}

/// The view of an optional text.
pub open spec fn opt_text(s: Option<String>) -> Option<Seq<char>> {
    match s {
        Some(t) => Some(t@),
        None => None,
    }
}

impl View for ResponseHead {
    type V = HeadView;

    open spec fn view(&self) -> HeadView {
        HeadView {
            chunked: self.chunked,
            content_length: self.content_length,
            content_type: opt_text(self.content_type),
            location: opt_text(self.location),
        }
    }
}

impl ResponseHead {
    /// A head of which no line was read.
    pub fn new() -> (h: ResponseHead)
        ensures
            h@ == (HeadView {
                chunked: false,
                content_length: None,
                content_type: None,
                location: None,
            }),
    {
        ResponseHead { chunked: false, content_length: None, content_type: None, location: None }
    }

    /// Takes the next line of the head; says whether it was the blank line
    /// that ends it.
    pub fn accept_line(&mut self, line: &str) -> (end: bool)
        ensures
            end == blank(line@),
            final(self)@ == (if blank(line@) {
                old(self)@
            } else {
                head_with(old(self)@, line@)
            }),
    {
        let text = trim_end(line);
        if text.is_empty() {
            return true;
        }
        match split_once(text, ':') {
            None => {},
            Some((key, raw)) => {
                let name = to_lower(key);
                let value = trim(raw);
                if same(name.as_str(), "transfer-encoding") {
                    if same_ignoring_case(value, "chunked") {
                        self.chunked = true;
                    }
                } else if same(name.as_str(), "content-length") {
                    self.content_length = parse_unsigned(value, 10, u64::MAX);
                } else if same(name.as_str(), "content-type") {
                    self.content_type = Some(owned(value));
                } else if same(name.as_str(), "location") {
                    self.location = Some(owned(value));
                }
            },
        }
        false
    }
}

// ---------------------------------------------------------------------------
// Redirects
// ---------------------------------------------------------------------------

/// Why a fetch fails.
pub enum FetchFault {
    /// A redirect leads to an unusable URL.
    BadUrl(UrlFault),
    /// A redirect status without a `Location` header.
    NoLocation(u16),
    /// Any other status than 200.
    Status(u16),
    /// More redirects than are followed.
    TooManyRedirects,
}

/// How the body of a response ends.
#[derive(Clone, Copy, Debug, PartialEq, Eq, Structural)]
pub enum BodyFrame {
    /// In chunks, each behind its size.
    Chunked,
    /// After this many bytes.
    Length(u64),
    /// With the connection.
    ToEnd,
}

/// What a fetch does next.
pub enum FetchStep {
    /// Request the new target.
    Follow,
    /// Read the body.
    Deliver(BodyFrame),
    /// Give up.
    Fail(FetchFault),
}

/// The place of a fetch: its current target, the URL that was last asked for
/// (which may turn out to be unusable), the redirects followed so far, and how
/// many it follows at most.
pub struct FetchState {
    pub target: UrlParts,
    pub asked: Seq<char>,
    pub hops: u8,
    pub limit: u8,
}

/// The framing that a head announces: chunks win over a length.
pub open spec fn body_frame(h: HeadView) -> BodyFrame {
    if h.chunked {
        BodyFrame::Chunked
    } else {
        match h.content_length {
            Some(n) => BodyFrame::Length(n),
            None => BodyFrame::ToEnd,
        }
    }
}

/// What follows a response, and the state after it.
pub open spec fn fetch_step(s: FetchState, code: u16, head: HeadView) -> (FetchState, FetchStep) {
    if 300 <= code < 400 {
        match head.location {
            None => (s, FetchStep::Fail(FetchFault::NoLocation(code))),
            Some(loc) => match parsed_url(joined_url(s.target, loc)) {
                Err(f) => (
                    FetchState { asked: joined_url(s.target, loc), ..s },
                    FetchStep::Fail(FetchFault::BadUrl(f)),
                ),
                Ok(target) => {
                    let next = FetchState {
                        target,
                        asked: joined_url(s.target, loc),
                        hops: (s.hops + 1) as u8,
                        limit: s.limit,
                    };
                    if next.hops > s.limit {
                        (next, FetchStep::Fail(FetchFault::TooManyRedirects))
                    } else {
                        (next, FetchStep::Follow)
                    }
                },
            },
        }
    } else if code != 200 {
        (s, FetchStep::Fail(FetchFault::Status(code)))
    } else {
        (s, FetchStep::Deliver(body_frame(head)))
    }
}

/// One fetch, from its first request to its body or its failure.
pub struct Fetch {
    target: HttpUrl,
    asked: String,
    hops: u8,
    limit: u8,
}

impl View for Fetch {
    type V = FetchState;

    closed spec fn view(&self) -> FetchState {
        FetchState {
            target: self.target@,
            asked: self.asked@,
            hops: self.hops,
            limit: self.limit,
        }
    }
}

/// The fetch of `url` at its start: none where the URL is unusable.
pub open spec fn fetch_start(url: Seq<char>, limit: u8) -> Result<FetchState, UrlFault> {
    match parsed_url(url) {
        Ok(target) => Ok(FetchState { target, asked: url, hops: 0, limit }),
        Err(e) => Err(e),
    }
}

impl Fetch {
    /// No more redirects were followed than are allowed.
    pub open spec fn wf(&self) -> bool {
        self@.hops <= self@.limit <= MAX_STREAM_HOPS
    }

    fn limited(url: &str, limit: u8) -> (r: Result<Fetch, UrlFault>)
        requires
            limit <= MAX_STREAM_HOPS,
        ensures
            match r {
                Ok(f) => f.wf() && fetch_start(url@, limit) == Ok::<FetchState, UrlFault>(f@),
                Err(e) => fetch_start(url@, limit) == Err::<FetchState, UrlFault>(e),
            },
    {
        match HttpUrl::parse(url) {
            Ok(target) => Ok(Fetch { target, asked: owned(url), hops: 0, limit }),
            Err(e) => Err(e),
        }
    }

    /// A fetch of the file or the text at `url`.
    pub fn start(url: &str) -> (r: Result<Fetch, UrlFault>)
        ensures
            match r {
                Ok(f) => f.wf() && fetch_start(url@, MAX_HOPS) == Ok::<FetchState, UrlFault>(f@),
                Err(e) => fetch_start(url@, MAX_HOPS) == Err::<FetchState, UrlFault>(e),
            },
    {
        Fetch::limited(url, MAX_HOPS)
    }

    /// A fetch of the live stream at `url`.
    pub fn start_stream(url: &str) -> (r: Result<Fetch, UrlFault>)
        ensures
            match r {
                Ok(f) => f.wf() && fetch_start(url@, MAX_STREAM_HOPS) == Ok::<
                    FetchState,
                    UrlFault,
                >(f@),
                Err(e) => fetch_start(url@, MAX_STREAM_HOPS) == Err::<FetchState, UrlFault>(e),
            },
    {
        Fetch::limited(url, MAX_STREAM_HOPS)
    }

    /// The URL to request now.
    pub fn target(&self) -> (t: &HttpUrl)
        ensures
            t@ == self@.target,
    {
        &self.target
    }

    /// The URL that was last asked for.
    pub fn asked(&self) -> (s: &str)
        ensures
            s@ == self@.asked,
    {
        self.asked.as_str()
    }

    /// Takes the head of the response to the current request.
    pub fn on_response(&mut self, code: u16, head: &ResponseHead) -> (step: FetchStep)
        requires
            old(self).wf(),
        ensures
            (final(self)@, step) == fetch_step(old(self)@, code, head@),
            step is Follow ==> final(self).wf(),
    {
        if 300 <= code && code < 400 {
            match &head.location {
                None => FetchStep::Fail(FetchFault::NoLocation(code)),
                Some(loc) => {
                    self.asked = self.target.join(loc.as_str());
                    match HttpUrl::parse(self.asked.as_str()) {
                        Err(f) => FetchStep::Fail(FetchFault::BadUrl(f)),
                        Ok(target) => {
                            self.target = target;
                            self.hops = self.hops + 1;
                            if self.hops > self.limit {
                                FetchStep::Fail(FetchFault::TooManyRedirects)
                            } else {
                                FetchStep::Follow
                            }
                        },
                    }
                },
            }
        } else if code != 200 {
            FetchStep::Fail(FetchFault::Status(code))
        } else if head.chunked {
            FetchStep::Deliver(BodyFrame::Chunked)
        } else {
            match head.content_length {
                Some(n) => FetchStep::Deliver(BodyFrame::Length(n)),
                None => FetchStep::Deliver(BodyFrame::ToEnd),
            }
        }
    }
}

/// The message of a failed fetch of `url`, which last asked for `asked`.
pub open spec fn fetch_fault_text(fault: FetchFault, url: Seq<char>, asked: Seq<char>) -> Seq<char> {
    match fault {
        FetchFault::BadUrl(f) => url_fault_text(f, asked),
        FetchFault::NoLocation(code) => "redirect "@ + dec(code as nat) + " without Location"@,
        FetchFault::Status(code) => "HTTP "@ + dec(code as nat) + " for "@ + url,
        FetchFault::TooManyRedirects => "too many redirects"@,
    }
}

/// The message of a failed fetch of `url`, which last asked for `asked`.
pub fn fetch_fault_message(fault: &FetchFault, url: &str, asked: &str) -> (s: String)
    ensures
        s@ == fetch_fault_text(*fault, url@, asked@),
{
    match fault {
        FetchFault::BadUrl(f) => url_fault_message(*f, asked),
        FetchFault::NoLocation(code) => {
            let mut s = owned("redirect ");
            push_dec(&mut s, *code as u64);
            s.append(" without Location");
            s
        },
        FetchFault::Status(code) => {
            let mut s = owned("HTTP ");
            push_dec(&mut s, *code as u64);
            s.append(" for ");
            s.append(url);
            s
        },
        FetchFault::TooManyRedirects => owned("too many redirects"),
    }
}

// ---------------------------------------------------------------------------
// Bodies
// ---------------------------------------------------------------------------

/// What a text fetch may read of a body.
#[derive(Clone, Copy, Debug, PartialEq, Eq, Structural)]
pub enum TextPlan {
    /// Chunks of this many bytes in all.
    Chunks(u64),
    /// This many bytes.
    Exactly(u64),
    /// Up to this many bytes; a body that has them all is too long.
    Below(u64),
    /// The announced length is too long.
    TooLong(u64),
}

/// The reading plan of a text fetch: nothing past the cap.
pub open spec fn text_plan(frame: BodyFrame) -> TextPlan {
    match frame {
        BodyFrame::Chunked => TextPlan::Chunks(TEXT_BODY_CAP),
        BodyFrame::Length(n) => if n > TEXT_BODY_CAP {
            TextPlan::TooLong(n)
        } else {
            TextPlan::Exactly(n)
        },
        BodyFrame::ToEnd => TextPlan::Below((TEXT_BODY_CAP + 1) as u64),
    }
}

/// The reading plan of a text fetch.
pub fn plan_text_body(frame: BodyFrame) -> (p: TextPlan)
    ensures
        p == text_plan(frame),
{
    match frame {
        BodyFrame::Chunked => TextPlan::Chunks(TEXT_BODY_CAP),
        BodyFrame::Length(n) => if n > TEXT_BODY_CAP {
            TextPlan::TooLong(n)
        } else {
            TextPlan::Exactly(n)
        },
        BodyFrame::ToEnd => TextPlan::Below(TEXT_BODY_CAP + 1),
    }
}

/// Why a body is no text.
#[derive(Clone, Copy, Debug, PartialEq, Eq, Structural)]
pub enum TextFault {
    /// It is longer than the cap.
    TooLong,
    /// It is no UTF-8.
    NotText,
}

/// The text of a body that was read by a plan.
pub open spec fn body_text(plan: TextPlan, body: Seq<u8>) -> Result<Seq<char>, TextFault> {
    if plan is TooLong || (plan matches TextPlan::Below(n) && body.len() >= n) {
        Err(TextFault::TooLong)
    } else if !vstd::utf8::valid_utf8(body) {
        Err(TextFault::NotText)
    } else {
        Ok(vstd::utf8::decode_utf8(body))
    }
}

/// The text of a body that was read by a plan.
pub fn text_of_body(plan: TextPlan, body: Vec<u8>) -> (r: Result<String, TextFault>)
    ensures
        match r {
            Ok(s) => body_text(plan, body@) == Ok::<Seq<char>, TextFault>(s@),
            Err(f) => body_text(plan, body@) == Err::<Seq<char>, TextFault>(f),
        },
{
    match plan {
        TextPlan::TooLong(_) => return Err(TextFault::TooLong),
        TextPlan::Below(n) => {
            if body.len() as u64 >= n {
                return Err(TextFault::TooLong);
            }
        },
        _ => {},
    }
    match utf8_text(body) {
        Some(s) => Ok(s),
        None => Err(TextFault::NotText),
    }
}

/// The text in front of the first semicolon, without white space around it.
pub open spec fn chunk_size_text(line: Seq<char>) -> Seq<char> {
    trimmed(
        match split_first(line, ';') {
            Some((a, _)) => a,
            None => line,
        },
    )
}

/// The size that a chunk's size line announces; an extension may follow it.
pub open spec fn chunk_size_of(line: Seq<char>) -> Option<u64> {
    match parsed(chunk_size_text(line), 16, u64::MAX as int) {
        Some(n) => Some(n as u64),
        None => None,
    }
}

/// The text in front of the first semicolon, without white space around it.
pub fn chunk_size_field(line: &str) -> (s: &str)
    ensures
        s@ == chunk_size_text(line@),
{
    let a = match split_once(line, ';') {
        Some((a, _)) => a,
        None => line,
    };
    trim(a)
}

/// Reads the size line of a chunk.
pub fn chunk_size(line: &str) -> (r: Option<u64>)
    ensures
        r == chunk_size_of(line@),
{
    parse_unsigned(chunk_size_field(line), 16, u64::MAX)
}

/// How a bounded chunked read goes on after a size line.
#[derive(Clone, Copy, Debug, PartialEq, Eq, Structural)]
pub enum ChunkStep {
    /// Copy this many bytes and the line end behind them.
    Copy(u64),
    /// The last chunk: skip the trailer lines, then stop.
    Finish,
    /// The line holds no size.
    BadSize,
    /// The chunk would exceed the cap.
    OverCap,
    /// The connection ended in front of the last chunk.
    Truncated,
}

/// How a bounded chunked read goes on after a size line, or after the end of
/// the connection: `total` bytes were announced before, of `cap`.
pub open spec fn budget_step(total: u64, cap: u64, line: Option<Seq<char>>) -> ChunkStep {
    match line {
        None => ChunkStep::Truncated,
        Some(l) => match chunk_size_of(l) {
            None => ChunkStep::BadSize,
            Some(n) => if n == 0 {
                ChunkStep::Finish
            } else if total + n > cap {
                ChunkStep::OverCap
            } else {
                ChunkStep::Copy(n)
            },
        },
    }
}

/// The bytes that chunks announced so far, and how many are allowed.
pub struct ChunkBudget {
    total: u64,
    cap: u64,
}

impl ChunkBudget {
    /// The bytes announced so far.
    pub closed spec fn total(&self) -> u64 {
        self.total
    }

    /// The bytes that are allowed.
    pub closed spec fn cap(&self) -> u64 {
        self.cap
    }

    /// No more was announced than is allowed.
    pub open spec fn wf(&self) -> bool {
        self.total() <= self.cap()
    }

    /// A read of at most `cap` bytes.
    pub fn new(cap: u64) -> (b: ChunkBudget)
        ensures
            b.wf(),
            b.total() == 0,
            b.cap() == cap,
    {
        ChunkBudget { total: 0, cap }
    }

    /// Takes a size line, or the end of the connection.
    pub fn accept_size_line(&mut self, line: Option<&str>) -> (step: ChunkStep)
        requires
            old(self).wf(),
        ensures
            final(self).wf(),
            final(self).cap() == old(self).cap(),
            step == budget_step(
                old(self).total(),
                old(self).cap(),
                match line {
                    Some(l) => Some(l@),
                    None => None,
                },
            ),
            final(self).total() == old(self).total() + (match step {
                ChunkStep::Copy(n) => n as int,
                _ => 0,
            }),
    {
        match line {
            None => ChunkStep::Truncated,
            Some(l) => match chunk_size(l) {
                None => ChunkStep::BadSize,
                Some(n) => if n == 0 {
                    ChunkStep::Finish
                } else if n > self.cap - self.total {
                    ChunkStep::OverCap
                } else {
                    self.total = self.total + n;
                    ChunkStep::Copy(n)
                },
            },
        }
    }
}

/// What a streamed body needs from the connection next.
#[derive(Clone, Copy, Debug, PartialEq, Eq, Structural)]
pub enum BodyNeed {
    /// The size line of the next chunk.
    SizeLine,
    /// Up to this many body bytes.
    Bytes(usize),
    /// Nothing: the body is over.
    Nothing,
}

/// What a size line meant for a streamed body.
#[derive(Clone, Copy, Debug, PartialEq, Eq, Structural)]
pub enum SizeLine {
    /// A chunk follows.
    Chunk,
    /// The last chunk: skip the trailer lines; the body is over.
    Last,
    /// The connection ended: the body is over.
    End,
    /// The line holds no size.
    Bad,
}

/// A body that is read as it comes: how it is framed, and how much of the
/// current piece is left.
pub struct BodyState {
    pub frame: BodyFrame,
    pub left: u64,
}

/// A streamed response body.
pub struct BodyReader {
    frame: BodyFrame,
    left: u64,
}

impl View for BodyReader {
    type V = BodyState;

    closed spec fn view(&self) -> BodyState {
        BodyState { frame: self.frame, left: self.left }
    }
}

/// The smaller of a buffer's size and what is left.
pub open spec fn at_most(buf: usize, left: u64) -> usize {
    if left < buf {
        left as usize
    } else {
        buf
    }
}

/// A body of which nothing was read.
pub open spec fn body_start(frame: BodyFrame) -> BodyState {
    BodyState {
        frame,
        left: match frame {
            BodyFrame::Length(n) => n,
            _ => 0,
        },
    }
}

/// What filling a buffer of `buf` bytes needs from the connection.
pub open spec fn body_need(s: BodyState, buf: usize) -> BodyNeed {
    match s.frame {
        BodyFrame::Chunked => if s.left == 0 {
            BodyNeed::SizeLine
        } else {
            BodyNeed::Bytes(at_most(buf, s.left))
        },
        BodyFrame::Length(_) => if s.left == 0 {
            BodyNeed::Nothing
        } else {
            BodyNeed::Bytes(at_most(buf, s.left))
        },
        BodyFrame::ToEnd => BodyNeed::Bytes(buf),
    }
}

/// The body after the size line of a chunk, or the end of the connection.
pub open spec fn body_sized(s: BodyState, line: Option<Seq<char>>) -> (BodyState, SizeLine) {
    match line {
        None => (BodyState { left: 0, ..s }, SizeLine::End),
        Some(l) => match chunk_size_of(l) {
            None => (BodyState { left: 0, ..s }, SizeLine::Bad),
            Some(n) => (
                BodyState { left: n, ..s },
                if n == 0 {
                    SizeLine::Last
                } else {
                    SizeLine::Chunk
                },
            ),
        },
    }
}

/// The body after `n` bytes, and whether they completed a chunk.
pub open spec fn body_counted(s: BodyState, n: usize) -> (BodyState, bool) {
    match s.frame {
        BodyFrame::ToEnd => (s, false),
        BodyFrame::Length(_) => (BodyState { left: (s.left - n) as u64, ..s }, false),
        BodyFrame::Chunked => (BodyState { left: (s.left - n) as u64, ..s }, s.left == n),
    }
}

impl BodyReader {
    /// A body of which nothing was read.
    pub fn new(frame: BodyFrame) -> (b: BodyReader)
        ensures
            b@ == body_start(frame),
    {
        let left: u64 = match frame {
            BodyFrame::Length(n) => n,
            _ => 0,
        };
        BodyReader { frame, left }
    }

    /// What filling a buffer of `buf` bytes needs from the connection.
    pub fn need(&self, buf: usize) -> (n: BodyNeed)
        ensures
            n == body_need(self@, buf),
    {
        let piece: usize = if self.left < buf as u64 { self.left as usize } else { buf };
        match self.frame {
            BodyFrame::Chunked => if self.left == 0 {
                BodyNeed::SizeLine
            } else {
                BodyNeed::Bytes(piece)
            },
            BodyFrame::Length(_) => if self.left == 0 {
                BodyNeed::Nothing
            } else {
                BodyNeed::Bytes(piece)
            },
            BodyFrame::ToEnd => BodyNeed::Bytes(buf),
        }
    }

    /// Takes the size line of the next chunk, or the end of the connection.
    pub fn on_size_line(&mut self, line: Option<&str>) -> (r: SizeLine)
        requires
            old(self)@.frame is Chunked,
            old(self)@.left == 0,
        ensures
            (final(self)@, r) == body_sized(
                old(self)@,
                match line {
                    Some(l) => Some(l@),
                    None => None,
                },
            ),
    {
        match line {
            None => SizeLine::End,
            Some(l) => match chunk_size(l) {
                None => SizeLine::Bad,
                Some(n) => {
                    self.left = n;
                    if n == 0 {
                        SizeLine::Last
                    } else {
                        SizeLine::Chunk
                    }
                },
            },
        }
    }

    /// Counts `n` bytes that were read; says whether they completed a chunk,
    /// so that the line end behind it has to be skipped.
    pub fn on_bytes(&mut self, n: usize) -> (chunk_done: bool)
        requires
            old(self)@.frame is ToEnd || n <= old(self)@.left,
        ensures
            (final(self)@, chunk_done) == body_counted(old(self)@, n),
    {
        match self.frame {
            BodyFrame::ToEnd => false,
            BodyFrame::Length(_) => {
                self.left = self.left - n as u64;
                false
            },
            BodyFrame::Chunked => {
                self.left = self.left - n as u64;
                self.left == 0
            },
        }
    }
}

/// A status code that accepts a webhook.
pub open spec fn accepted(code: u16) -> bool {
    200 <= code < 300
}

/// Why a webhook was not accepted.
pub open spec fn post_refusal(url: Seq<char>, code: u16) -> Seq<char> {
    "webhook POST to "@ + url + " returned HTTP "@ + dec(code as nat)
}

/// Whether a webhook was accepted, by the status code of the answer.
pub fn post_verdict(url: &str, code: u16) -> (r: Result<(), String>)
    ensures
        match r {
            Ok(_) => accepted(code),
            Err(e) => !accepted(code) && e@ == post_refusal(url@, code),
        },
{
    if 200 <= code && code < 300 {
        return Ok(());
    }
    let mut s = owned("webhook POST to ");
    s.append(url);
    s.append(" returned HTTP ");
    push_dec(&mut s, code as u64);
    Err(s)
}

// ---------------------------------------------------------------------------
// Laws
// ---------------------------------------------------------------------------

/// The state of a fetch after a series of responses; none once a response
/// did not ask to follow a redirect.
pub open spec fn fetch_after(s: FetchState, responses: Seq<(u16, HeadView)>) -> Option<FetchState>
    decreases responses.len(),
{
    if responses.len() == 0 {
        Some(s)
    } else {
        match fetch_after(s, responses.drop_last()) {
            None => None,
            Some(t) => {
                let (u, step) = fetch_step(t, responses.last().0, responses.last().1);
                if step is Follow {
                    Some(u)
                } else {
                    None
                }
            },
        }
    }
}

/// A fetch follows every usable redirect up to its limit, whatever servers
/// answer, and no further one.
pub proof fn law_redirects_are_bounded(s: FetchState, responses: Seq<(u16, HeadView)>)
    requires
        s.hops == 0,
        s.limit < u8::MAX,
    ensures
        fetch_after(s, responses) matches Some(t) ==> {
            &&& t.hops == responses.len()
            &&& t.limit == s.limit
            &&& responses.len() <= s.limit
            &&& forall|code: u16, head: HeadView|
                300 <= code < 400 && (head.location matches Some(loc) && parsed_url(
                    joined_url(t.target, loc),
                ) is Ok) ==> ((#[trigger] fetch_step(t, code, head)).1 is Follow
                    <==> responses.len() < s.limit)
        },
    decreases responses.len(),
{
    if responses.len() > 0 {
        law_redirects_are_bounded(s, responses.drop_last());
    }
}

/// What is read of a body by a plan.
pub open spec fn read_by(plan: TextPlan, body: Seq<u8>) -> Seq<u8> {
    match plan {
        TextPlan::Exactly(n) | TextPlan::Below(n) => if body.len() > n {
            body.take(n as int)
        } else {
            body
        },
        _ => body,
    }
}

/// A text fetch gives a body back as text exactly when the body is within the
/// cap and valid UTF-8. Chunks past the cap are not read at all, as
/// [`ChunkBudget`] refuses them.
pub proof fn law_text_is_the_body(frame: BodyFrame, body: Seq<u8>)
    requires
        frame is Chunked ==> body.len() <= TEXT_BODY_CAP,
        frame matches BodyFrame::Length(n) ==> body.len() == n,
    ensures
        ({
            let plan = text_plan(frame);
            let text = body_text(plan, read_by(plan, body));
            &&& text is Ok <==> body.len() <= TEXT_BODY_CAP && vstd::utf8::valid_utf8(body)
            &&& text is Ok ==> text == Ok::<Seq<char>, TextFault>(vstd::utf8::decode_utf8(body))
            &&& body.len() > TEXT_BODY_CAP <==> text == Err::<Seq<char>, TextFault>(
                TextFault::TooLong,
            )
        }),
{
}

/// A host without a port: no character of it parts a URL.
pub open spec fn is_host(host: Seq<char>) -> bool {
    host.len() > 0 && forall|i: int|
        0 <= i < host.len() ==> #[trigger] host[i] != '/' && host[i] != ':'
}

/// An absolute path.
pub open spec fn is_path(path: Seq<char>) -> bool {
    path.len() > 0 && path[0] == '/'
}

proof fn lemma_schemes(rest: Seq<char>)
    ensures
        scheme_and_rest("http://"@ + rest) == Some((Scheme::Http, rest)),
        scheme_and_rest("https://"@ + rest) == Some((Scheme::Https, rest)),
        "http"@ + "://"@ == "http://"@,
        "https"@ + "://"@ == "https://"@,
{
    reveal_strlit("http://");
    reveal_strlit("https://");
    reveal_strlit("http");
    reveal_strlit("https");
    reveal_strlit("://");
    let a = "http://"@ + rest;
    let b = "https://"@ + rest;
    assert("http"@ + "://"@ =~= "http://"@);
    assert("https"@ + "://"@ =~= "https://"@);
    assert(a.take(7) =~= "http://"@);
    assert(b.take(8) =~= "https://"@);
    assert(a.skip(7) =~= rest);
    assert(b.skip(8) =~= rest);
    assert(a[4] == ':' && "https://"@[4] == 's');
    if has_prefix(a, "https://"@) {
        assert(a.take(8)[4] == a[4]);
    }
}

proof fn lemma_authority(authority: Seq<char>, path: Seq<char>)
    requires
        forall|i: int| 0 <= i < authority.len() ==> #[trigger] authority[i] != '/',
    ensures
        is_path(path) ==> authority_and_path(authority + path) == (authority, path),
        authority_and_path(authority) == (authority, seq!['/']),
{
    if is_path(path) {
        let p = path.skip(1);
        assert(authority + path =~= authority + seq!['/'] + p);
        crate::text::lemma_split_first_at(authority, '/', p);
        assert(seq!['/'] + p =~= path);
    }
    crate::text::lemma_split_whole(authority, '/');
}

proof fn lemma_host(host: Seq<char>, port: u16, scheme: Scheme)
    requires
        is_host(host),
    ensures
        host_and_port(host, scheme) == Ok::<(Seq<char>, u16), UrlFault>((host, scheme.port())),
        host_and_port(host + ":"@ + dec(port as nat), scheme) == Ok::<(Seq<char>, u16), UrlFault>(
            (host, port),
        ),
        forall|i: int|
            0 <= i < (host + ":"@ + dec(port as nat)).len() ==> #[trigger] (host + ":"@ + dec(
                port as nat,
            ))[i] != '/',
{
    reveal_strlit(":");
    assert(":"@ =~= seq![':']);
    let d = dec(port as nat);
    crate::text::lemma_dec_is_numeric(port as nat);
    assert forall|i: int| 0 <= i < d.len() implies #[trigger] d[i] != ':' by {
        assert(is_digit(d[i]));
    }
    crate::text::lemma_split_last_at(host, ':', d);
    crate::text::law_dec_reads_back(port as nat, 65535);
    let all = host + ":"@ + d;
    assert forall|i: int| 0 <= i < all.len() implies #[trigger] all[i] != '/' by {
        if i < host.len() {
            assert(host[i] != '/');
        } else if i > host.len() {
            assert(is_digit(d[i - host.len() - 1]));
        }
    }
    assert forall|i: int| 0 <= i < host.len() implies #[trigger] host[i] != ':' by {
    }
    lemma_no_last(host, ':', host.len() as int);
}

proof fn lemma_no_last(s: Seq<char>, c: char, end: int)
    requires
        0 <= end <= s.len(),
        forall|i: int| 0 <= i < s.len() ==> #[trigger] s[i] != c,
    ensures
        crate::text::rfind_before(s, c, end) == -1,
    decreases end,
{
    if end > 0 {
        assert(s[end - 1] != c);
        lemma_no_last(s, c, end - 1);
    }
}

/// A URL is read as it is written: the scheme decides whether the connection
/// is encrypted and which port it means without one; a port behind the host is
/// that port; a URL without a path means the root.
pub proof fn law_urls_read_back(host: Seq<char>, port: u16, path: Seq<char>)
    requires
        is_host(host),
        is_path(path),
    ensures
        parsed_url("http://"@ + host + path) == Ok::<UrlParts, UrlFault>(
            UrlParts { scheme: Scheme::Http, host, port: 80, path },
        ),
        parsed_url("https://"@ + host + path) == Ok::<UrlParts, UrlFault>(
            UrlParts { scheme: Scheme::Https, host, port: 443, path },
        ),
        parsed_url("http://"@ + host) == Ok::<UrlParts, UrlFault>(
            UrlParts { scheme: Scheme::Http, host, port: 80, path: seq!['/'] },
        ),
        parsed_url("http://"@ + host + ":"@ + dec(port as nat) + path) == Ok::<UrlParts, UrlFault>(
            UrlParts { scheme: Scheme::Http, host, port, path },
        ),
        parsed_url("https://"@ + host + ":"@ + dec(port as nat) + path) == Ok::<UrlParts, UrlFault>(
            UrlParts { scheme: Scheme::Https, host, port, path },
        ),
{
    let d = dec(port as nat);
    let full = host + ":"@ + d;
    lemma_schemes(host + path);
    lemma_schemes(host);
    lemma_schemes(full + path);
    lemma_host(host, port, Scheme::Http);
    lemma_host(host, port, Scheme::Https);
    assert forall|i: int| 0 <= i < host.len() implies #[trigger] host[i] != '/' by {
    }
    lemma_authority(host, path);
    lemma_authority(full, path);
    assert("http://"@ + host + path =~= "http://"@ + (host + path));
    assert("https://"@ + host + path =~= "https://"@ + (host + path));
    assert("http://"@ + host + ":"@ + d + path =~= "http://"@ + (full + path));
    assert("https://"@ + host + ":"@ + d + path =~= "https://"@ + (full + path));
}

/// A URL of another scheme, without a host, or with a port that is none is
/// refused for that reason. A relay's URL is looked at before it is used:
/// one that can be fetched is never refused.
pub proof fn law_unusable_urls(url: Seq<char>, host: Seq<char>, port: nat, path: Seq<char>)
    requires
        is_host(host),
        is_path(path),
    ensures
        !has_prefix(url, "http://"@) && !has_prefix(url, "https://"@) ==> parsed_url(url) == Err::<
            UrlParts,
            UrlFault,
        >(UrlFault::NotHttp) && relay_url_fault(url) == Some(UrlFault::NotHttp),
        parsed_url("http://"@ + path) == Err::<UrlParts, UrlFault>(UrlFault::EmptyHost),
        relay_url_fault("http://"@ + path) == Some(UrlFault::EmptyHost),
        port > 65535 ==> parsed_url("http://"@ + host + ":"@ + dec(port) + path) == Err::<
            UrlParts,
            UrlFault,
        >(UrlFault::BadPort),
        parsed_url(url) is Ok ==> relay_url_fault(url) is None,
{
    let e = Seq::<char>::empty();
    lemma_schemes(path);
    lemma_authority(e, path);
    assert(e + path =~= path);
    assert(crate::text::split_last(e, ':') is None);
    if port > 65535 {
        reveal_strlit(":");
        assert(":"@ =~= seq![':']);
        let d = dec(port);
        let full = host + ":"@ + d;
        crate::text::lemma_dec_is_numeric(port);
        assert forall|i: int| 0 <= i < d.len() implies #[trigger] d[i] != ':' by {
            assert(is_digit(d[i]));
        }
        assert forall|i: int| 0 <= i < full.len() implies #[trigger] full[i] != '/' by {
            if i < host.len() {
                assert(host[i] != '/');
            } else if i > host.len() {
                assert(is_digit(d[i - host.len() - 1]));
            }
        }
        crate::text::lemma_split_last_at(host, ':', d);
        crate::text::law_numbers_are_limited(port, 65535, e, 0);
        lemma_authority(full, path);
        lemma_schemes(full + path);
        assert("http://"@ + host + ":"@ + d + path =~= "http://"@ + (full + path));
    }
    if parsed_url(url) is Ok {
        match scheme_and_rest(url) {
            Some((scheme, rest)) => {
                let a = authority_and_path(rest).0;
                if a.len() == 0 {
                    assert(crate::text::split_last(a, ':') is None);
                }
            },
            None => {},
        }
    }
}

/// A redirect to a path stays on the server, with its scheme and port: to an
/// absolute path exactly there, to any other one in the directory of the
/// current path.
pub proof fn law_redirects_stay_on_the_server(
    url: UrlParts,
    dir: Seq<char>,
    file: Seq<char>,
    location: Seq<char>,
)
    requires
        is_host(url.host),
        forall|i: int| 0 <= i < file.len() ==> #[trigger] file[i] != '/',
        is_path(dir + seq!['/']),
    ensures
        is_path(location) ==> parsed_url(joined_url(url, location)) == Ok::<UrlParts, UrlFault>(
            UrlParts { path: location, ..url },
        ),
        url.path == dir + seq!['/'] + file && !is_path(location) && !has_prefix(
            location,
            "http://"@,
        ) && !has_prefix(location, "https://"@) ==> parsed_url(joined_url(url, location)) == Ok::<
            UrlParts,
            UrlFault,
        >(UrlParts { path: dir + seq!['/'] + location, ..url }),
{
    reveal_strlit("/");
    reveal_strlit("http://");
    reveal_strlit("https://");
    assert("/"@ =~= seq!['/']);
    if is_path(location) {
        assert(location.take(1) =~= "/"@);
        if has_prefix(location, "http://"@) {
            assert(location.take(7)[0] == location[0]);
        }
        if has_prefix(location, "https://"@) {
            assert(location.take(8)[0] == location[0]);
        }
        lemma_origin(url, location);
    } else {
        if has_prefix(location, "/"@) {
            assert(location.take(1)[0] == location[0]);
        }
        crate::text::lemma_split_last_at(dir, '/', file);
        let p = dir + seq!['/'] + location;
        assert(p[0] == (dir + seq!['/'])[0]);
        lemma_origin(url, p);
        if url.path == dir + seq!['/'] + file {
            assert(origin(url) + directory(url.path) + location =~= origin(url) + p);
        }
    }
}

proof fn lemma_origin(url: UrlParts, path: Seq<char>)
    requires
        is_host(url.host),
        is_path(path),
    ensures
        parsed_url(origin(url) + path) == Ok::<UrlParts, UrlFault>(UrlParts { path, ..url }),
{
    law_urls_read_back(url.host, url.port, path);
    lemma_schemes(path);
    match url.scheme {
        Scheme::Http => {
            assert(origin(url) + path =~= "http://"@ + url.host + ":"@ + dec(url.port as nat)
                + path);
        },
        Scheme::Https => {
            assert(origin(url) + path =~= "https://"@ + url.host + ":"@ + dec(url.port as nat)
                + path);
        },
    }
}

/// A request asks for the path of its URL by the method, at its host, and ends
/// with a blank line; a text that is posted follows that line, and its length
/// in bytes is announced.
pub proof fn law_requests_ask_for_the_path(url: UrlParts, relay: bool, body: Seq<char>)
    ensures
        ({
            let get = get_request_text(url, relay);
            let post = post_request_text(url, body);
            let line = url.path + " HTTP/1.1\r\nHost: "@ + url.host + "\r\n"@;
            &&& has_prefix(get, "GET "@ + line)
            &&& crate::text::has_suffix(get, "\r\n\r\n"@)
            &&& relay ==> crate::text::has_suffix(get, "Icy-MetaData: 0\r\n\r\n"@)
            &&& !relay ==> crate::text::has_suffix(get, "Accept: */*\r\n\r\n"@)
            &&& has_prefix(post, "POST "@ + line)
            &&& crate::text::has_suffix(
                post,
                "Content-Length: "@ + dec(vstd::utf8::encode_utf8(body).len()) + "\r\n\r\n"@
                    + body,
            )
        }),
{
    reveal_strlit("\r\n");
    reveal_strlit("\r\n\r\n");
    reveal_strlit("\r\nUser-Agent: crabsoup/0.1\r\nConnection: close\r\n");
    reveal_strlit("Accept: */*\r\n");
    reveal_strlit("Accept: */*\r\n\r\n");
    reveal_strlit("Icy-MetaData: 0\r\n");
    reveal_strlit("Icy-MetaData: 0\r\n\r\n");
    reveal_strlit("Content-Type: application/json\r\nContent-Length: ");
    reveal_strlit("Content-Length: ");
    let get = get_request_text(url, relay);
    let post = post_request_text(url, body);
    let line = url.path + " HTTP/1.1\r\nHost: "@ + url.host + "\r\n"@;
    let tail = "\r\nUser-Agent: crabsoup/0.1\r\nConnection: close\r\n"@;
    assert(tail.take(2) =~= "\r\n"@);
    assert(get.take(("GET "@ + line).len() as int) =~= "GET "@ + line);
    assert(post.take(("POST "@ + line).len() as int) =~= "POST "@ + line);
    assert(get.skip(get.len() - 4) =~= "\r\n\r\n"@);
    if relay {
        assert(get.skip(get.len() - 19) =~= "Icy-MetaData: 0\r\n\r\n"@);
    } else {
        assert(get.skip(get.len() - 15) =~= "Accept: */*\r\n\r\n"@);
    }
    let end = "Content-Length: "@ + dec(vstd::utf8::encode_utf8(body).len()) + "\r\n\r\n"@ + body;
    let json = "Content-Type: application/json\r\nContent-Length: "@;
    assert(json.skip(json.len() - 16) =~= "Content-Length: "@);
    assert(post.skip(post.len() - end.len()) =~= end);
}

/// The status code of an answer is the number behind the version.
pub proof fn law_status_lines(version: Seq<char>, code: u16, reason: Seq<char>)
    requires
        crate::text::is_word(version),
        crate::text::is_word(reason),
    ensures
        status_code(version + seq![' '] + dec(code as nat) + seq![' '] + reason) == Some(code),
        status_code(version) is None,
        status_code(version + seq![' '] + reason) is Some ==> parsed(reason, 10, 65535) is Some,
{
    let d = dec(code as nat);
    crate::text::lemma_dec_is_numeric(code as nat);
    assert(crate::text::is_word(d)) by {
        assert forall|i: int| 0 <= i < d.len() implies !crate::text::is_space(#[trigger] d[i]) by {
            assert(is_digit(d[i]));
        }
    }
    crate::text::law_dec_reads_back(code as nat, 65535);
    let e = Seq::<char>::empty();
    let sp = seq![' '];
    assert(crate::text::all_space(e));
    assert(crate::text::all_space(sp));
    crate::text::law_words_read_back(seq![e, sp, sp], seq![version, d, reason]);
    crate::text::law_words_read_back(seq![e, sp], seq![version, reason]);
    crate::text::law_words_read_back(seq![e], seq![version]);
    reveal_with_fuel(crate::text::spaced, 4);
    let g3 = seq![e, sp, sp];
    let w3 = seq![version, d, reason];
    assert(g3.skip(1) =~= seq![sp, sp] && w3.skip(1) =~= seq![d, reason]);
    assert(seq![sp, sp].skip(1) =~= seq![sp] && seq![d, reason].skip(1) =~= seq![reason]);
    assert(seq![sp].skip(1) =~= Seq::<Seq<char>>::empty() && seq![reason].skip(1) =~= Seq::<
        Seq<char>,
    >::empty());
    assert(crate::text::spaced(g3, w3) =~= version + sp + d + sp + reason);
    let g2 = seq![e, sp];
    let w2 = seq![version, reason];
    assert(g2.skip(1) =~= seq![sp] && w2.skip(1) =~= seq![reason]);
    assert(crate::text::spaced(g2, w2) =~= version + sp + reason);
    assert(seq![e].skip(1) =~= Seq::<Seq<char>>::empty() && seq![version].skip(1) =~= Seq::<
        Seq<char>,
    >::empty());
    assert(crate::text::spaced(seq![e], seq![version]) =~= version);
}

/// The headers that count are read, whatever the case of their names and the
/// white space around their values: the length of the body, that it comes in
/// chunks, its type, and where a redirect leads. Any other one changes
/// nothing.
pub proof fn law_headers_are_read(h: HeadView, key: Seq<char>, gap: Seq<char>, value: Seq<char>, n: u64)
    requires
        forall|i: int| 0 <= i < key.len() ==> #[trigger] key[i] != ':',
        crate::text::all_space(gap),
        value.len() > 0,
        !crate::text::is_space(value[0]),
        !crate::text::is_space(value.last()),
    ensures
        ({
            let t = head_with(h, key + seq![':'] + gap + value + seq!['\r', '\n']);
            &&& lowered(key) == "content-length"@ && value == dec(n as nat) ==> t == (HeadView {
                content_length: Some(n),
                ..h
            })
            &&& lowered(key) == "transfer-encoding"@ && lowered(value) == lowered("chunked"@) ==> t
                == (HeadView { chunked: true, ..h })
            &&& lowered(key) == "transfer-encoding"@ && lowered(value) != lowered("chunked"@) ==> t
                == h
            &&& lowered(key) == "content-type"@ ==> t == (HeadView {
                content_type: Some(value),
                ..h
            })
            &&& lowered(key) == "location"@ ==> t == (HeadView { location: Some(value), ..h })
            &&& lowered(key) != "content-length"@ && lowered(key) != "transfer-encoding"@
                && lowered(key) != "content-type"@ && lowered(key) != "location"@ ==> t == h
        }),
        !blank(key + seq![':'] + gap + value + seq!['\r', '\n']),
        blank(seq!['\r', '\n']),
{
    let end = seq!['\r', '\n'];
    let body = key + seq![':'] + (gap + value);
    let line = key + seq![':'] + gap + value + end;
    assert(line =~= body + end);
    assert(crate::text::all_space(end));
    assert(body.last() == value.last());
    let e = Seq::<char>::empty();
    lemma_trim_line(body, end);
    lemma_trim_line(e, end);
    assert(e + end =~= end);
    crate::text::lemma_split_first_at(key, ':', gap + value);
    crate::text::law_trim_takes_off_white_space(gap, value, e);
    assert(gap + value + e =~= gap + value);
    crate::text::law_dec_reads_back(n as nat, u64::MAX as nat);
    reveal_strlit("transfer-encoding");
    reveal_strlit("content-length");
    reveal_strlit("content-type");
    reveal_strlit("location");
    assert("transfer-encoding"@.len() == 17 && "content-length"@.len() == 14
        && "content-type"@.len() == 12 && "location"@.len() == 8);
}

proof fn lemma_trim_line(s: Seq<char>, r: Seq<char>)
    requires
        crate::text::all_space(r),
        s.len() > 0 ==> !crate::text::is_space(s.last()),
    ensures
        trimmed_end(s + r) == s,
{
    crate::text::lemma_trim_end(s, r);
}

/// A fetch delivers the body of an answer with code 200, chunks first, then by
/// its length, then to the end; it follows a redirect to where that leads; any
/// other code fails the fetch with that code. Nothing but a redirect moves it.
pub proof fn law_fetch_answers(s: FetchState, code: u16, head: HeadView)
    requires
        s.hops < u8::MAX,
    ensures
        ({
            let (t, step) = fetch_step(s, code, head);
            &&& code == 200 ==> t == s && (step matches FetchStep::Deliver(frame) && {
                &&& head.chunked ==> frame == BodyFrame::Chunked
                &&& !head.chunked ==> match head.content_length {
                    Some(n) => frame == BodyFrame::Length(n),
                    None => frame == BodyFrame::ToEnd,
                }
            })
            &&& code != 200 && !(300 <= code < 400) ==> t == s && (step matches FetchStep::Fail(f)
                && f == FetchFault::Status(code))
            &&& step is Follow ==> {
                &&& 300 <= code < 400
                &&& head.location matches Some(loc) && parsed_url(joined_url(s.target, loc))
                    == Ok::<UrlParts, UrlFault>(t.target)
            }
            &&& 300 <= code < 400 && head.location is None ==> (step matches FetchStep::Fail(f) && f
                == FetchFault::NoLocation(code))
        }),
{
}

/// The size of a chunk is the number in base sixteen in front of an
/// extension.
pub proof fn law_chunk_sizes(n: u64, width: nat, ext: Seq<char>)
    requires
        width > 0,
        (n as int) < vstd::arithmetic::power::pow(16, width),
    ensures
        chunk_size_of(hex_fixed(n as nat, width) + seq!['\r', '\n']) == Some(n),
        chunk_size_of(hex_fixed(n as nat, width) + seq![';'] + ext) == Some(n),
{
    let x = hex_fixed(n as nat, width);
    crate::text::lemma_hex_len(n as nat, width);
    crate::text::law_hex_reads_back(n as nat, width, u64::MAX as nat);
    crate::text::lemma_hex_chars(n as nat, width);
    let e = Seq::<char>::empty();
    let end = seq!['\r', '\n'];
    assert(crate::text::all_space(end));
    crate::text::law_trim_takes_off_white_space(e, x, end);
    crate::text::law_trim_takes_off_white_space(e, x, e);
    assert(e + x + end =~= x + end && e + x + e =~= x);
    let line = x + end;
    assert forall|i: int| 0 <= i < line.len() implies #[trigger] line[i] != ';' by {
        if i < x.len() {
            assert(x[i] != ';');
        }
    }
    crate::text::lemma_split_whole(line, ';');
    assert forall|i: int| 0 <= i < x.len() implies #[trigger] x[i] != ';' by {
    }
    crate::text::lemma_split_first_at(x, ';', ext);
}

/// A bounded read never takes more than it may: a chunk is copied exactly when
/// it still fits, in full; the one of size zero ends the body; the end of the
/// connection before it does not.
pub proof fn law_chunks_stay_within_the_cap(total: u64, cap: u64, line: Seq<char>)
    requires
        total <= cap,
    ensures
        budget_step(total, cap, Some(line)) matches ChunkStep::Copy(n) ==> 0 < n && total + n <= cap
            && chunk_size_of(line) == Some(n),
        budget_step(total, cap, Some(line)) is OverCap ==> (chunk_size_of(line) matches Some(n)
            && total + n > cap),
        budget_step(total, cap, Some(line)) is Finish <==> chunk_size_of(line) == Some(0u64),
        budget_step(total, cap, Some(line)) is BadSize <==> chunk_size_of(line) is None,
        budget_step(total, cap, None) is Truncated,
{
}

/// The bytes of a body with a length are asked for until all of them were
/// read, never more than are left; those of a chunk likewise, after which the
/// line of the next chunk is due; a body to the end always wants more.
pub proof fn law_bodies_are_read_to_their_end(n: u64, buf: usize, k: usize, line: Seq<char>)
    requires
        buf > 0,
        k <= n,
    ensures
        ({
            let s = body_start(BodyFrame::Length(n));
            let t = body_counted(s, k).0;
            &&& body_need(s, buf) matches BodyNeed::Bytes(b) ==> 0 < b <= n && b <= buf
            &&& n > 0 ==> body_need(s, buf) is Bytes
            &&& body_need(t, buf) is Nothing <==> k == n
            &&& body_need(t, buf) matches BodyNeed::Bytes(b) ==> 0 < b <= n - k && b <= buf
            &&& !body_counted(s, k).1
        }),
        ({
            let s = body_start(BodyFrame::Chunked);
            let (t, r) = body_sized(s, Some(line));
            &&& body_need(s, buf) is SizeLine
            &&& chunk_size_of(line) == Some(n) && n > 0 ==> {
                &&& r is Chunk
                &&& body_need(t, buf) matches BodyNeed::Bytes(b) && 0 < b <= n && b <= buf
                &&& body_counted(t, k).1 <==> k == n
                &&& body_need(body_counted(t, k).0, buf) is SizeLine <==> k == n
            }
            &&& chunk_size_of(line) == Some(0u64) ==> r is Last
            &&& chunk_size_of(line) is None ==> r is Bad
            &&& body_sized(s, None).1 is End
        }),
        ({
            let s = body_start(BodyFrame::ToEnd);
            &&& body_need(s, buf) == BodyNeed::Bytes(buf)
            &&& body_counted(s, k) == (s, false)
        }),
{
}

/// A webhook is accepted with any code of success, and with no other one.
pub proof fn law_webhooks(code: u16)
    ensures
        accepted(code) <==> code / 100 == 2,
{
}

/// The scheme of a redirect to an absolute path is kept, and a redirect to an
/// absolute URL leads exactly there.
pub proof fn law_absolute_redirect(url: UrlParts, location: Seq<char>)
    requires
        has_prefix(location, "http://"@) || has_prefix(location, "https://"@),
    ensures
        joined_url(url, location) == location,
{
}

/// A header counts whatever the case of its name.
pub proof fn law_header_names_ignore_case(h: HeadView, a: Seq<char>, b: Seq<char>)
    requires
        split_first(trimmed_end(a), ':') matches Some((ka, va)) && (split_first(
            trimmed_end(b),
            ':',
        ) matches Some((kb, vb)) && lowered(ka) == lowered(kb) && va == vb),
    ensures
        head_with(h, a) == head_with(h, b),
{
}

} // verus!
