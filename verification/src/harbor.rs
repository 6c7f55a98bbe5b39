//! The live input: the source protocol that a DJ speaks, the framing of the
//! upload, and the course of decoding it.

use vstd::prelude::*;
use crate::auth::{basic_password_matches, password_of};
use crate::config::LiveConfig;
use crate::control::{lossy_text, text_of_bytes};
use crate::http::opt_text;
use crate::text::{contains, contains_text, dec, has_prefix, lowered, owned, parse_unsigned, parsed};
use crate::text::{push_dec, same, same_ignoring_case, split, split_all, split_first, split_once};
use crate::text::{split_words, str_views, texts, to_lower, trim, trimmed, words};

verus! {

/// Largest head of a request.
pub const MAX_HEADER_BYTES: usize = 16_384;

/// Seconds that a finished upload may still play from the buffer.
pub const DRAIN_WAIT_SECS: u64 = 15;

// ---------------------------------------------------------------------------
// Requests
// ---------------------------------------------------------------------------

/// How far the head of a request has been read.
#[derive(Clone, Copy, Debug, PartialEq, Eq, Structural)]
pub enum HeaderProgress {
    More,
    Complete,
    TooLarge,
}

/// The bytes end with a blank line.
pub open spec fn ends_head(buf: Seq<u8>) -> bool {
    buf.len() >= 4 && buf.skip(buf.len() - 4) == seq![13u8, 10, 13, 10]
}

/// How far the head of a request has been read.
pub open spec fn head_so_far(buf: Seq<u8>) -> HeaderProgress {
    if buf.len() > MAX_HEADER_BYTES {
        HeaderProgress::TooLarge
    } else if ends_head(buf) {
        HeaderProgress::Complete
    } else {
        HeaderProgress::More
    }
}

/// Looks at the head after one more byte.
pub fn header_progress(buf: &[u8]) -> (p: HeaderProgress)
    ensures
        p == head_so_far(buf@),
{
    let n: usize = buf.len();
    if n > MAX_HEADER_BYTES {
        return HeaderProgress::TooLarge;
    }
    if n >= 4 {
        let ghost tail = buf@.skip(n - 4);
        if buf[n - 4] == 13 && buf[n - 3] == 10 && buf[n - 2] == 13 && buf[n - 1] == 10 {
            assert(tail =~= seq![13u8, 10, 13, 10]);
            return HeaderProgress::Complete;
        }
        assert(tail[0] == buf@[n - 4] && tail[1] == buf@[n - 3] && tail[2] == buf@[n - 2] && tail[3]
            == buf@[n - 1]);
    }
    HeaderProgress::More
}

/// A source-protocol request.
pub struct SourceView {
    pub path: Seq<char>,
    pub authorization: Option<Seq<char>>,
    pub content_type: Option<Seq<char>>,
    pub content_length: Option<u64>,
    pub chunked: bool,
}

/// A source-protocol request.
#[derive(Clone, Debug)]
pub struct SourceRequest {
    pub path: String,
    pub authorization: Option<String>,
    pub content_type: Option<String>,
    /// The length of a bounded upload; streaming sources send none.
    pub content_length: Option<u64>,
    /// The body comes in chunks.
    pub chunked: bool,
}

impl View for SourceRequest {
    type V = SourceView;

    open spec fn view(&self) -> SourceView {
        SourceView {
            path: self.path@,
            authorization: opt_text(self.authorization),
            content_type: opt_text(self.content_type),
            content_length: self.content_length,
            chunked: self.chunked,
        }
    }
}

/// A request after one more header line.
pub open spec fn source_with(r: SourceView, line: Seq<char>) -> SourceView {
    match split_first(line, ':') {
        None => r,
        Some((k, v)) => {
            let key = lowered(trimmed(k));
            let value = trimmed(v);
            if key == "authorization"@ {
                SourceView { authorization: Some(value), ..r }
            } else if key == "content-type"@ {
                SourceView { content_type: Some(value), ..r }
            } else if key == "content-length"@ {
                SourceView {
                    content_length: match parsed(value, 10, u64::MAX as int) {
                        Some(n) => Some(n as u64),
                        None => None,
                    },
                    ..r
                }
            } else if key == "transfer-encoding"@ {
                SourceView { chunked: contains_text(lowered(value), "chunked"@), ..r }
            } else {
                r
            }
        },
    }
}

/// A request after the first `n` lines of its head.
pub open spec fn source_after(path: Seq<char>, lines: Seq<Seq<char>>, n: nat) -> SourceView
    decreases n,
{
    if n <= 1 {
        SourceView {
            path,
            authorization: None,
            content_type: None,
            content_length: None,
            chunked: false,
        }
    } else {
        source_with(source_after(path, lines, (n - 1) as nat), lines[n - 1])
    }
}

/// The path that a request line asks for: its second word up to a question
/// mark.
pub open spec fn requested_path(line: Seq<char>) -> Seq<char> {
    let w = words(line);
    if w.len() < 2 {
        Seq::empty()
    } else {
        split_all(w[1], '?')[0]
    }
}

/// The request of a head, or the status code of its refusal: 400 for an empty
/// head, 405 for any method but PUT.
pub open spec fn source_request(text: Seq<char>) -> Result<SourceView, u16> {
    let lines = split_all(text, '\n');
    let w = words(lines[0]);
    if text.len() == 0 {
        Err(400)
    } else if w.len() == 0 || lowered(w[0]) != lowered("PUT"@) {
        Err(405)
    } else {
        Ok(source_after(requested_path(lines[0]), lines, lines.len()))
    }
}

impl SourceRequest {
    fn accept_line(&mut self, line: &str)
        ensures
            final(self)@ == source_with(old(self)@, line@),
    {
        match split_once(line, ':') {
            None => {},
            Some((k, v)) => {
                let key = to_lower(trim(k));
                let value = trim(v);
                if same(key.as_str(), "authorization") {
                    self.authorization = Some(owned(value));
                } else if same(key.as_str(), "content-type") {
                    self.content_type = Some(owned(value));
                } else if same(key.as_str(), "content-length") {
                    self.content_length = parse_unsigned(value, 10, u64::MAX);
                } else if same(key.as_str(), "transfer-encoding") {
                    self.chunked = contains(to_lower(value).as_str(), "chunked");
                }
            },
        }
    }
}

/// Understands the head of a request, given as text.
pub fn parse_source_text(text: &str) -> (r: Result<SourceRequest, u16>)
    ensures
        match r {
            Ok(q) => source_request(text@) == Ok::<SourceView, u16>(q@),
            Err(code) => source_request(text@) == Err::<SourceView, u16>(code),
        },
{
    if text.is_empty() {
        return Err(400);
    }
    let lines = split(text, '\n');
    let ghost all = str_views(lines@);
    proof {
        crate::text::lemma_split_nonempty(text@, '\n');
        assert(all.len() == lines@.len());
        assert(all[0] == lines@[0]@);
    }
    let w = split_words(lines[0]);
    let ghost wv = str_views(w@);
    proof {
        assert(wv.len() == w@.len());
    }
    if w.len() == 0 {
        return Err(405);
    }
    assert(wv[0] == w@[0]@);
    if !same_ignoring_case(w[0], "PUT") {
        return Err(405);
    }
    let mut path = String::new();
    if w.len() >= 2 {
        assert(wv[1] == w@[1]@);
        let parts = split(w[1], '?');
        proof {
            crate::text::lemma_split_nonempty(w@[1]@, '?');
            assert(str_views(parts@).len() == parts@.len());
            assert(str_views(parts@)[0] == parts@[0]@);
        }
        path = owned(parts[0]);
    }
    assert(path@ =~= requested_path(all[0]));
    let ghost p = path@;
    let mut r = SourceRequest {
        path,
        authorization: None,
        content_type: None,
        content_length: None,
        chunked: false,
    };
    let mut i: usize = 1;
    while i < lines.len()
        invariant
            1 <= i <= lines@.len(),
            all == str_views(lines@),
            r@ == source_after(p, all, i as nat),
        decreases lines@.len() - i,
    {
        assert(all[i as int] == lines@[i as int]@);
        r.accept_line(lines[i]);
        i = i + 1;
    }
    Ok(r)
}

/// Understands the head of a request.
pub fn parse_source_request(header: &[u8]) -> (r: Result<SourceRequest, u16>)
    ensures
        match r {
            Ok(q) => source_request(lossy_text(header@)) == Ok::<SourceView, u16>(q@),
            Err(code) => source_request(lossy_text(header@)) == Err::<SourceView, u16>(code),
        },
{
    let text = text_of_bytes(header);
    parse_source_text(text.as_str())
}

/// The password is one of those that the live input accepts.
pub open spec fn accepted(config: LiveConfig, password: Seq<char>) -> bool {
    password == config.password@ || texts(config.extra_passwords@).contains(password)
}

/// The request carries a credential with an accepted password.
pub open spec fn authorized(config: LiveConfig, r: SourceView) -> bool {
    match r.authorization {
        None => false,
        Some(credential) => match password_of(credential) {
            None => false,
            Some(p) => accepted(config, p),
        },
    }
}

/// What becomes of a connection.
#[derive(Clone, Copy, Debug, PartialEq, Eq, Structural)]
pub enum Admission {
    /// It is answered with this status code and closed.
    Refuse(u16),
    /// The DJ is on air. A streaming source is answered at once, a bounded
    /// upload only after its body.
    Accept { answer_at_end: bool },
}

/// What becomes of a request: the first thing wrong with it decides. Only one
/// DJ is on air at a time.
pub open spec fn admission(
    request: Result<SourceView, u16>,
    config: LiveConfig,
    occupied: bool,
) -> Admission {
    match request {
        Err(code) => Admission::Refuse(code),
        Ok(r) => if r.path != config.mount@ {
            Admission::Refuse(404)
        } else if !authorized(config, r) {
            Admission::Refuse(401)
        } else if occupied {
            Admission::Refuse(403)
        } else {
            Admission::Accept { answer_at_end: r.content_length is Some }
        },
    }
}

fn credential_accepted(config: &LiveConfig, credential: &str) -> (b: bool)
    ensures
        b == (match password_of(credential@) {
            None => false,
            Some(p) => accepted(*config, p),
        }),
{
    if basic_password_matches(credential, config.password.as_str()) {
        return true;
    }
    let mut i: usize = 0;
    while i < config.extra_passwords.len()
        invariant
            i <= config.extra_passwords@.len(),
            password_of(credential@) != Some(config.password@),
            forall|k: int|
                0 <= k < i ==> password_of(credential@) != Some(
                    (#[trigger] config.extra_passwords@[k])@,
                ),
        decreases config.extra_passwords@.len() - i,
    {
        if basic_password_matches(credential, config.extra_passwords[i].as_str()) {
            proof {
                assert(texts(config.extra_passwords@)[i as int]
                    == config.extra_passwords@[i as int]@);
            }
            return true;
        }
        i = i + 1;
    }
    proof {
        match password_of(credential@) {
            None => {},
            Some(p) => {
                if texts(config.extra_passwords@).contains(p) {
                    let k = choose|k: int|
                        0 <= k < texts(config.extra_passwords@).len() && texts(
                            config.extra_passwords@,
                        )[k] == p;
                    assert(config.extra_passwords@[k]@ == p);
                }
            },
        }
    }
    false
}

/// Decides what becomes of a request.
pub fn decide(request: &Result<SourceRequest, u16>, config: &LiveConfig, occupied: bool) -> (a:
    Admission)
    ensures
        a == admission(
            match request {
                Ok(r) => Ok(r@),
                Err(code) => Err(*code),
            },
            *config,
            occupied,
        ),
{
    match request {
        Err(code) => Admission::Refuse(*code),
        Ok(r) => {
            if !same(r.path.as_str(), config.mount.as_str()) {
                return Admission::Refuse(404);
            }
            let ok = match &r.authorization {
                None => false,
                Some(credential) => credential_accepted(config, credential.as_str()),
            };
            if !ok {
                return Admission::Refuse(401);
            }
            if occupied {
                return Admission::Refuse(403);
            }
            Admission::Accept { answer_at_end: r.content_length.is_some() }
        },
    }
}

/// The reason phrase of a status code.
pub open spec fn reason_phrase(code: u16) -> Seq<char> {
    if code == 400 {
        "Bad Request"@
    } else if code == 401 {
        "Unauthorized"@
    } else if code == 403 {
        "Forbidden"@
    } else if code == 404 {
        "Not Found"@
    } else if code == 405 {
        "Method Not Allowed"@
    } else if code == 200 {
        "OK"@
    } else {
        "Error"@
    }
}

/// The reason phrase of a status code.
pub fn reason(code: u16) -> (s: &'static str)
    ensures
        s@ == reason_phrase(code),
{
    if code == 400 {
        "Bad Request"
    } else if code == 401 {
        "Unauthorized"
    } else if code == 403 {
        "Forbidden"
    } else if code == 404 {
        "Not Found"
    } else if code == 405 {
        "Method Not Allowed"
    } else if code == 200 {
        "OK"
    } else {
        "Error"
    }
}

/// The answer to a source.
pub open spec fn response_of(code: u16) -> Seq<char> {
    "HTTP/1.0 "@ + dec(code as nat) + " "@ + reason_phrase(code)
        + "\r\nServer: Crabsoup Harbor\r\nContent-Length: 0\r\n\r\n"@
}

/// The answer to a source.
pub fn response_text(code: u16) -> (s: String)
    ensures
        s@ == response_of(code),
{
    let mut s = owned("HTTP/1.0 ");
    push_dec(&mut s, code as u64);
    s.append(" ");
    s.append(reason(code));
    s.append("\r\nServer: Crabsoup Harbor\r\nContent-Length: 0\r\n\r\n");
    s
}

/// The file extension that helps to probe a stream of a content type.
pub open spec fn hint_of(content_type: Option<Seq<char>>) -> Option<Seq<char>> {
    let ct = match content_type {
        Some(t) => lowered(t),
        None => Seq::empty(),
    };
    if contains_text(ct, "mpeg"@) || contains_text(ct, "mp3"@) {
        Some("mp3"@)
    } else if contains_text(ct, "ogg"@) || contains_text(ct, "opus"@) {
        Some("ogg"@)
    } else if contains_text(ct, "aac"@) {
        Some("aac"@)
    } else {
        None
    }
}

/// The file extension that helps to probe a stream of a content type.
pub fn hint_for_content_type(content_type: Option<&str>) -> (r: Option<&'static str>)
    ensures
        match r {
            Some(e) => hint_of(
                match content_type {
                    Some(t) => Some(t@),
                    None => None,
                },
            ) == Some(e@),
            None => hint_of(
                match content_type {
                    Some(t) => Some(t@),
                    None => None,
                },
            ) is None,
        },
{
    let lower = match content_type {
        Some(t) => to_lower(t),
        None => String::new(),
    };
    let ct = lower.as_str();
    if contains(ct, "mpeg") || contains(ct, "mp3") {
        Some("mp3")
    } else if contains(ct, "ogg") || contains(ct, "opus") {
        Some("ogg")
    } else if contains(ct, "aac") {
        Some("aac")
    } else {
        None
    }
}

// ---------------------------------------------------------------------------
// Chunked uploads
// ---------------------------------------------------------------------------

/// The place of a chunked body: in a size line of which some bytes were read,
/// in the data of a chunk with bytes left, behind the data of a chunk, behind
/// the last chunk, or behind a line that holds no size.
pub enum ChunkView {
    SizeLine(Seq<u8>),
    Data(nat),
    AfterData,
    Done,
    BadSize(Seq<u8>),
}

/// The bytes without the line ends behind them.
pub open spec fn without_line_end(line: Seq<u8>) -> Seq<u8>
    decreases line.len(),
{
    if line.len() > 0 && (line.last() == 13 || line.last() == 10) {
        without_line_end(line.drop_last())
    } else {
        line
    }
}

/// The bytes as characters, one for one.
pub open spec fn latin1(data: Seq<u8>) -> Seq<char> {
    Seq::new(data.len(), |i: int| data[i] as char)
}

/// The text of a size line in front of an extension.
pub open spec fn size_text(line: Seq<u8>) -> Seq<char> {
    let text = latin1(without_line_end(line));
    trimmed(
        match split_first(text, ';') {
            Some((a, _)) => a,
            None => text,
        },
    )
}

/// What follows a size line: another one behind a blank line, a chunk, or the
/// end.
pub open spec fn after_size_line(line: Seq<u8>) -> ChunkView {
    let hex = size_text(line);
    if hex.len() == 0 {
        ChunkView::SizeLine(Seq::empty())
    } else {
        match parsed(hex, 16, usize::MAX as int) {
            None => ChunkView::BadSize(line),
            Some(n) => if n == 0 {
                ChunkView::Done
            } else {
                ChunkView::Data(n as nat)
            },
        }
    }
}

/// The place after one more byte.
pub open spec fn chunk_next(s: ChunkView, b: u8) -> ChunkView {
    match s {
        ChunkView::SizeLine(line) => if b == 10 {
            after_size_line(line)
        } else {
            ChunkView::SizeLine(line.push(b))
        },
        ChunkView::Data(left) => if left <= 1 {
            ChunkView::AfterData
        } else {
            ChunkView::Data((left - 1) as nat)
        },
        ChunkView::AfterData => if b == 10 {
            ChunkView::SizeLine(Seq::empty())
        } else {
            ChunkView::AfterData
        },
        ChunkView::Done => ChunkView::Done,
        ChunkView::BadSize(line) => ChunkView::BadSize(line),
    }
}

/// The place after a stretch of bytes, and the payload among them.
pub open spec fn chunk_run(s: ChunkView, data: Seq<u8>) -> (ChunkView, Seq<u8>)
    decreases data.len(),
{
    if data.len() == 0 {
        (s, Seq::empty())
    } else {
        let (t, out) = chunk_run(s, data.drop_last());
        (
            chunk_next(t, data.last()),
            if t is Data {
                out.push(data.last())
            } else {
                out
            },
        )
    }
}

/// Why a chunked body fails.
#[derive(Clone, Copy, Debug, PartialEq, Eq, Structural)]
pub enum ChunkFault {
    /// The connection ended in front of the last chunk, in a line.
    EndInHeader,
    /// The connection ended in the data of a chunk.
    EndInData,
    /// A size line holds no size.
    BadSize,
}

/// What the end of the connection means: the body is whole only behind its
/// last chunk.
pub open spec fn chunk_end(s: ChunkView) -> Result<(), ChunkFault> {
    match s {
        ChunkView::SizeLine(_) => Err(ChunkFault::EndInHeader),
        ChunkView::Data(_) => Err(ChunkFault::EndInData),
        ChunkView::AfterData => Err(ChunkFault::EndInHeader),
        ChunkView::Done => Ok(()),
        ChunkView::BadSize(_) => Err(ChunkFault::BadSize),
    }
}

/// The message of a chunked body that fails at its place.
pub open spec fn chunk_fault_text(s: ChunkView) -> Seq<char> {
    match s {
        ChunkView::SizeLine(_) | ChunkView::AfterData => "unexpected EOF in chunk header"@,
        ChunkView::Data(_) => "unexpected EOF inside chunk data"@,
        ChunkView::Done => Seq::empty(),
        ChunkView::BadSize(line) => "invalid chunk size: "@ + size_text(line),
    }
}

/// Where a chunked body stands.
#[derive(Clone, Copy, Debug, PartialEq, Eq, Structural)]
pub enum ChunkStage {
    SizeLine,
    Data,
    AfterData,
    Done,
    BadSize,
}

/// Strips the framing of a chunked body, wherever the pieces of it end.
pub struct ChunkedReader {
    stage: ChunkStage,
    line: Vec<u8>,
    remaining: usize,
}

impl View for ChunkedReader {
    type V = ChunkView;

    closed spec fn view(&self) -> ChunkView {
        match self.stage {
            ChunkStage::SizeLine => ChunkView::SizeLine(self.line@),
            ChunkStage::Data => ChunkView::Data(self.remaining as nat),
            ChunkStage::AfterData => ChunkView::AfterData,
            ChunkStage::Done => ChunkView::Done,
            ChunkStage::BadSize => ChunkView::BadSize(self.line@),
        }
    }
}

fn to_latin1(data: &[u8], from: usize, to: usize) -> (s: String)
    requires
        from <= to <= data@.len(),
    ensures
        s@ == latin1(data@.subrange(from as int, to as int)),
{
    let mut s = String::new();
    let mut i: usize = from;
    while i < to
        invariant
            from <= i <= to <= data@.len(),
            s@ == latin1(data@.subrange(from as int, i as int)),
        decreases to - i,
    {
        s.push(data[i] as char);
        i = i + 1;
        assert(s@ =~= latin1(data@.subrange(from as int, i as int)));
    }
    s
}

impl ChunkedReader {
    /// A data stage has bytes left.
    pub closed spec fn wf(&self) -> bool {
        self.stage == ChunkStage::Data ==> self.remaining > 0
    }

    /// The start of a chunked body.
    pub fn new() -> (r: ChunkedReader)
        ensures
            r.wf(),
            r@ == ChunkView::SizeLine(Seq::empty()),
    {
        ChunkedReader { stage: ChunkStage::SizeLine, line: Vec::new(), remaining: 0 }
    }

    /// Where the body stands: more is expected, it is over, or a size line
    /// was no size.
    pub fn stage(&self) -> (s: ChunkStage)
        ensures
            s == (match self@ {
                ChunkView::SizeLine(_) => ChunkStage::SizeLine,
                ChunkView::Data(_) => ChunkStage::Data,
                ChunkView::AfterData => ChunkStage::AfterData,
                ChunkView::Done => ChunkStage::Done,
                ChunkView::BadSize(_) => ChunkStage::BadSize,
            }),
    {
        self.stage
    }

    /// The connection ended, or the body is not read further: an error unless
    /// the last chunk was read.
    pub fn on_end(&self) -> (r: Result<(), ChunkFault>)
        ensures
            r == chunk_end(self@),
    {
        match self.stage {
            ChunkStage::SizeLine => Err(ChunkFault::EndInHeader),
            ChunkStage::Data => Err(ChunkFault::EndInData),
            ChunkStage::AfterData => Err(ChunkFault::EndInHeader),
            ChunkStage::Done => Ok(()),
            ChunkStage::BadSize => Err(ChunkFault::BadSize),
        }
    }

    /// The message of the error that ends the body here; empty where it is
    /// whole.
    pub fn fault_message(&self) -> (s: String)
        ensures
            s@ == chunk_fault_text(self@),
    {
        match self.stage {
            ChunkStage::SizeLine | ChunkStage::AfterData => {
                owned("unexpected EOF in chunk header")
            },
            ChunkStage::Data => owned("unexpected EOF inside chunk data"),
            ChunkStage::Done => String::new(),
            ChunkStage::BadSize => {
                let mut s = owned("invalid chunk size: ");
                let hex = self.size_field();
                s.append(hex.as_str());
                s
            },
        }
    }

    /// The text of the line in front of an extension.
    fn size_field(&self) -> (hex: String)
        ensures
            hex@ == size_text(self.line@),
    {
        let ghost line = self.line@;
        let mut end: usize = self.line.len();
        proof {
            assert(line.take(line.len() as int) =~= line);
        }
        while end > 0 && (self.line[end - 1] == 13 || self.line[end - 1] == 10)
            invariant
                end <= line.len(),
                line == self.line@,
                without_line_end(line) == without_line_end(line.take(end as int)),
            decreases end,
        {
            proof {
                assert(line.take(end as int).drop_last() =~= line.take(end as int - 1));
            }
            end = end - 1;
        }
        let text = to_latin1(self.line.as_slice(), 0, end);
        proof {
            assert(line.subrange(0, end as int) =~= line.take(end as int));
            assert(text@ == latin1(without_line_end(line)));
        }
        let front = match split_once(text.as_str(), ';') {
            Some((a, _)) => a,
            None => text.as_str(),
        };
        owned(trim(front))
    }

    fn close_line(&mut self)
        requires
            old(self).wf(),
            old(self)@ is SizeLine,
        ensures
            final(self).wf(),
            final(self)@ == after_size_line(old(self)@->SizeLine_0),
    {
        let field = self.size_field();
        let hex = field.as_str();
        if hex.is_empty() {
            self.line.clear();
        } else {
            match parse_unsigned(hex, 16, usize::MAX as u64) {
                None => {
                    self.stage = ChunkStage::BadSize;
                },
                Some(n) => {
                    if n == 0 {
                        self.stage = ChunkStage::Done;
                    } else {
                        self.remaining = n as usize;
                        self.stage = ChunkStage::Data;
                    }
                },
            }
        }
    }

    /// Takes the next piece of the body and appends its payload to `out`.
    pub fn read(&mut self, data: &[u8], out: &mut Vec<u8>)
        requires
            old(self).wf(),
        ensures
            final(self).wf(),
            final(self)@ == chunk_run(old(self)@, data@).0,
            final(out)@ == old(out)@ + chunk_run(old(self)@, data@).1,
    {
        let mut i: usize = 0;
        proof {
            assert(data@.take(0) =~= Seq::<u8>::empty());
            assert(out@ =~= old(out)@ + chunk_run(old(self)@, data@.take(0)).1);
        }
        while i < data.len()
            invariant
                i <= data@.len(),
                self.wf(),
                self@ == chunk_run(old(self)@, data@.take(i as int)).0,
                out@ == old(out)@ + chunk_run(old(self)@, data@.take(i as int)).1,
            decreases data@.len() - i,
        {
            let b: u8 = data[i];
            let ghost before = self@;
            let ghost out_before = out@;
            proof {
                assert(data@.take(i as int + 1).drop_last() =~= data@.take(i as int));
                assert(data@.take(i as int + 1).last() == b);
            }
            match self.stage {
                ChunkStage::SizeLine => {
                    if b == 10 {
                        self.close_line();
                    } else {
                        self.line.push(b);
                    }
                },
                ChunkStage::Data => {
                    out.push(b);
                    self.remaining = self.remaining - 1;
                    if self.remaining == 0 {
                        self.stage = ChunkStage::AfterData;
                    }
                },
                ChunkStage::AfterData => {
                    if b == 10 {
                        self.stage = ChunkStage::SizeLine;
                        self.line.clear();
                    }
                },
                ChunkStage::Done => {},
                ChunkStage::BadSize => {},
            }
            proof {
                assert(self@ == chunk_next(before, b));
                assert(out@ =~= old(out)@ + chunk_run(old(self)@, data@.take(i as int + 1)).1);
            }
            i = i + 1;
        }
        proof {
            assert(data@.take(data@.len() as int) =~= data@);
        }
    }
}

// ---------------------------------------------------------------------------
// Decoding
// ---------------------------------------------------------------------------

/// What decoding a DJ's stream does next.
#[derive(Clone, Copy, Debug, PartialEq, Eq, Structural)]
pub enum LiveAction {
    /// Look at the first page to tell Opus from anything else.
    Sniff,
    /// Decode an Opus stream to its end.
    DecodeOpus,
    /// Probe the container.
    Probe,
    /// Find the default track.
    FindTrack,
    /// Create the decoder of the track.
    MakeDecoder,
    /// Read the next packet.
    NextPacket,
    /// Decode the packet.
    Decode,
    /// Convert the decoded samples and push them to the mixer.
    Push,
    /// Flush the resampler.
    Flush,
    /// Push the flushed samples.
    PushTail,
    /// Send the deferred answer.
    Answer,
    /// Nothing: the stream is over.
    Stop,
}

/// What came of the last action.
#[derive(Clone, Copy, Debug, PartialEq, Eq, Structural)]
pub enum LiveEvent {
    /// It worked, and there is nothing more to tell.
    Done,
    /// It failed.
    Failed,
    /// The stream is Opus.
    Opus,
    /// A packet of this track was read.
    Packet(u32),
    /// The stream ended.
    StreamEnd,
    /// This many frames or samples came out.
    Samples(usize),
}

/// The course of decoding.
pub struct LiveCourse {
    /// What is being done.
    pub action: LiveAction,
    /// The track that counts.
    pub track: u32,
    /// The answer is owed at the end.
    pub answer_at_end: bool,
    /// The answer was sent at the end.
    pub answered: bool,
}

/// The course with the next action.
pub open spec fn going(c: LiveCourse, action: LiveAction) -> LiveCourse {
    LiveCourse { action, ..c }
}

/// The course at the end: an owed answer comes first.
pub open spec fn ending(c: LiveCourse) -> LiveCourse {
    if c.answer_at_end {
        going(c, LiveAction::Answer)
    } else {
        going(c, LiveAction::Stop)
    }
}

/// The course after an event. A packet that cannot be read or decoded, or
/// that belongs to another track, is skipped; everything else that fails ends
/// the stream.
pub open spec fn course_after(c: LiveCourse, e: LiveEvent) -> LiveCourse {
    match c.action {
        LiveAction::Sniff => match e {
            LiveEvent::Failed => ending(c),
            LiveEvent::Opus => going(c, LiveAction::DecodeOpus),
            _ => going(c, LiveAction::Probe),
        },
        LiveAction::DecodeOpus => ending(c),
        LiveAction::Probe => if e == LiveEvent::Failed {
            ending(c)
        } else {
            going(c, LiveAction::FindTrack)
        },
        LiveAction::FindTrack => match e {
            LiveEvent::Packet(id) => LiveCourse { action: LiveAction::MakeDecoder, track: id, ..c },
            _ => ending(c),
        },
        LiveAction::MakeDecoder => if e == LiveEvent::Failed {
            ending(c)
        } else {
            going(c, LiveAction::NextPacket)
        },
        LiveAction::NextPacket => match e {
            LiveEvent::StreamEnd => going(c, LiveAction::Flush),
            LiveEvent::Packet(id) => if id == c.track {
                going(c, LiveAction::Decode)
            } else {
                going(c, LiveAction::NextPacket)
            },
            _ => going(c, LiveAction::NextPacket),
        },
        LiveAction::Decode => match e {
            LiveEvent::Samples(n) => if n == 0 {
                going(c, LiveAction::NextPacket)
            } else {
                going(c, LiveAction::Push)
            },
            _ => going(c, LiveAction::NextPacket),
        },
        LiveAction::Push => going(c, LiveAction::NextPacket),
        LiveAction::Flush => match e {
            LiveEvent::Samples(n) => if n == 0 {
                ending(c)
            } else {
                going(c, LiveAction::PushTail)
            },
            _ => ending(c),
        },
        LiveAction::PushTail => ending(c),
        LiveAction::Answer => LiveCourse { action: LiveAction::Stop, answered: true, ..c },
        LiveAction::Stop => c,
    }
}

/// Decides, step by step, how a DJ's stream is decoded. The caller performs
/// the action and reports what came of it.
pub struct LiveDecode {
    action: LiveAction,
    track: u32,
    answer_at_end: bool,
    answered: bool,
}

impl View for LiveDecode {
    type V = LiveCourse;

    closed spec fn view(&self) -> LiveCourse {
        LiveCourse {
            action: self.action,
            track: self.track,
            answer_at_end: self.answer_at_end,
            answered: self.answered,
        }
    }
}

impl LiveDecode {
    /// The course at the start: the stream is sniffed, unless its connection
    /// could not be shared with the reader; then nothing is done.
    pub fn new(connected: bool, answer_at_end: bool) -> (d: LiveDecode)
        ensures
            d@ == (LiveCourse {
                action: if connected {
                    LiveAction::Sniff
                } else {
                    LiveAction::Stop
                },
                track: 0,
                answer_at_end,
                answered: false,
            }),
    {
        LiveDecode {
            action: if connected { LiveAction::Sniff } else { LiveAction::Stop },
            track: 0,
            answer_at_end,
            answered: false,
        }
    }

    /// The action to perform now.
    pub fn action(&self) -> (a: LiveAction)
        ensures
            a == self@.action,
    {
        self.action
    }

    fn finish(&mut self)
        ensures
            final(self)@ == ending(old(self)@),
    {
        if self.answer_at_end {
            self.action = LiveAction::Answer;
        } else {
            self.action = LiveAction::Stop;
        }
    }

    /// Takes what came of the action; says what to do next.
    pub fn on_event(&mut self, e: LiveEvent) -> (a: LiveAction)
        ensures
            final(self)@ == course_after(old(self)@, e),
            a == final(self)@.action,
    {
        match self.action {
            LiveAction::Sniff => match e {
                LiveEvent::Failed => self.finish(),
                LiveEvent::Opus => {
                    self.action = LiveAction::DecodeOpus;
                },
                _ => {
                    self.action = LiveAction::Probe;
                },
            },
            LiveAction::DecodeOpus => self.finish(),
            LiveAction::Probe => {
                if e == LiveEvent::Failed {
                    self.finish();
                } else {
                    self.action = LiveAction::FindTrack;
                }
            },
            LiveAction::FindTrack => match e {
                LiveEvent::Packet(id) => {
                    self.track = id;
                    self.action = LiveAction::MakeDecoder;
                },
                _ => self.finish(),
            },
            LiveAction::MakeDecoder => {
                if e == LiveEvent::Failed {
                    self.finish();
                } else {
                    self.action = LiveAction::NextPacket;
                }
            },
            LiveAction::NextPacket => match e {
                LiveEvent::StreamEnd => {
                    self.action = LiveAction::Flush;
                },
                LiveEvent::Packet(id) => {
                    if id == self.track {
                        self.action = LiveAction::Decode;
                    }
                },
                _ => {},
            },
            LiveAction::Decode => match e {
                LiveEvent::Samples(n) => {
                    if n == 0 {
                        self.action = LiveAction::NextPacket;
                    } else {
                        self.action = LiveAction::Push;
                    }
                },
                _ => {
                    self.action = LiveAction::NextPacket;
                },
            },
            LiveAction::Push => {
                self.action = LiveAction::NextPacket;
            },
            LiveAction::Flush => match e {
                LiveEvent::Samples(n) => {
                    if n == 0 {
                        self.finish();
                    } else {
                        self.action = LiveAction::PushTail;
                    }
                },
                _ => self.finish(),
            },
            LiveAction::PushTail => self.finish(),
            LiveAction::Answer => {
                self.answered = true;
                self.action = LiveAction::Stop;
            },
            LiveAction::Stop => {},
        }
        self.action
    }
}

// ---------------------------------------------------------------------------
// Laws
// ---------------------------------------------------------------------------

/// A DJ is let in exactly when the request is well-formed, for the configured
/// mount, carries an accepted password, and no other DJ is on air.
pub proof fn law_admission(request: Result<SourceView, u16>, config: LiveConfig, occupied: bool)
    ensures
        admission(request, config, occupied) is Accept <==> (request matches Ok(r) && r.path
            == config.mount@ && authorized(config, r) && !occupied),
{
}

/// Every other request is refused for its reason, the first that holds: a
/// request that cannot be read with the code it failed with, another mount
/// with 404, a password that is none of the configured ones, or none at all,
/// with 401, and a second DJ with 403.
pub proof fn law_refusals(r: SourceView, config: LiveConfig, occupied: bool, code: u16)
    ensures
        admission(Err(code), config, occupied) == Admission::Refuse(code),
        r.path != config.mount@ ==> admission(Ok(r), config, occupied) == Admission::Refuse(404),
        r.path == config.mount@ ==> {
            &&& r.authorization is None ==> admission(Ok(r), config, occupied) == Admission::Refuse(
                401,
            )
            &&& r.authorization matches Some(c) ==> match password_of(c) {
                None => admission(Ok(r), config, occupied) == Admission::Refuse(401),
                Some(p) => {
                    let known = p == config.password@ || exists|i: int|
                        0 <= i < config.extra_passwords@.len()
                            && (#[trigger] config.extra_passwords@[i])@ == p;
                    &&& !known ==> admission(Ok(r), config, occupied) == Admission::Refuse(401)
                    &&& known && occupied ==> admission(Ok(r), config, occupied)
                        == Admission::Refuse(403)
                    &&& known && !occupied ==> admission(Ok(r), config, occupied) is Accept
                },
            }
        },
{
    match r.authorization {
        Some(c) => match password_of(c) {
            Some(p) => {
                let t = texts(config.extra_passwords@);
                if t.contains(p) {
                    let i = choose|i: int| 0 <= i < t.len() && t[i] == p;
                    assert(config.extra_passwords@[i]@ == p);
                }
                if exists|i: int|
                    0 <= i < config.extra_passwords@.len() && (#[trigger] config.extra_passwords@[i])@
                        == p {
                    let i = choose|i: int|
                        0 <= i < config.extra_passwords@.len()
                            && (#[trigger] config.extra_passwords@[i])@ == p;
                    assert(t[i] == p);
                }
            },
            None => {},
        },
        None => {},
    }
}

/// The headers of a DJ's request are read, whatever the case of their names
/// and the white space around them; any other one changes nothing.
pub proof fn law_source_headers(
    r: SourceView,
    key: Seq<char>,
    gap: Seq<char>,
    value: Seq<char>,
    end: Seq<char>,
    n: u64,
)
    requires
        key.len() > 0,
        !crate::text::is_space(key[0]) && !crate::text::is_space(key.last()),
        forall|i: int| 0 <= i < key.len() ==> #[trigger] key[i] != ':',
        crate::text::all_space(gap) && crate::text::all_space(end),
        value.len() > 0,
        !crate::text::is_space(value[0]) && !crate::text::is_space(value.last()),
    ensures
        ({
            let t = source_with(r, key + seq![':'] + gap + value + end);
            &&& lowered(key) == "authorization"@ ==> t == (SourceView {
                authorization: Some(value),
                ..r
            })
            &&& lowered(key) == "content-type"@ ==> t == (SourceView {
                content_type: Some(value),
                ..r
            })
            &&& lowered(key) == "content-length"@ && value == dec(n as nat) ==> t == (SourceView {
                content_length: Some(n),
                ..r
            })
            &&& lowered(key) == "transfer-encoding"@ && lowered(value) == "chunked"@ ==> t == (
            SourceView { chunked: true, ..r })
            &&& lowered(key) != "authorization"@ && lowered(key) != "content-type"@ && lowered(key)
                != "content-length"@ && lowered(key) != "transfer-encoding"@ ==> t == r
        }),
{
    let rest = gap + value + end;
    assert(key + seq![':'] + gap + value + end =~= key + seq![':'] + rest);
    crate::text::lemma_split_first_at(key, ':', rest);
    crate::text::law_trim_takes_off_white_space(gap, value, end);
    let e = Seq::<char>::empty();
    crate::text::law_trim_takes_off_white_space(e, key, e);
    assert(e + key + e =~= key);
    crate::text::law_dec_reads_back(n as nat, u64::MAX as nat);
    reveal_strlit("authorization");
    reveal_strlit("content-type");
    reveal_strlit("content-length");
    reveal_strlit("transfer-encoding");
    assert("authorization"@.len() == 13 && "content-type"@.len() == 12 && "content-length"@.len()
        == 14 && "transfer-encoding"@.len() == 17);
    let v = lowered(value);
    if v == "chunked"@ {
        assert(v.subrange(0, 0int + "chunked"@.len()) =~= "chunked"@);
        assert(contains_text(v, "chunked"@));
    }
}

/// A request puts to the path in front of its query; its headers are those of
/// all its lines. Another method is refused with 405, and nothing at all with
/// 400.
pub proof fn law_source_requests(
    method: Seq<char>,
    path: Seq<char>,
    query: Seq<char>,
    headers: Seq<Seq<char>>,
)
    requires
        crate::text::is_word(method),
        crate::text::is_word(path),
        crate::text::is_word(path + seq!['?'] + query),
        forall|i: int| 0 <= i < path.len() ==> #[trigger] path[i] != '?',
        forall|i: int, k: int|
            0 <= i < headers.len() && 0 <= k < headers[i].len() ==> #[trigger] headers[i][k]
                != '\n',
    ensures
        ({
            let line = method + seq![' '] + path + seq!['?'] + query;
            let plain = method + seq![' '] + path;
            let text = crate::text::joined_by(seq![line] + headers, '\n');
            let bare = crate::text::joined_by(seq![plain] + headers, '\n');
            &&& lowered(method) != lowered("PUT"@) ==> source_request(text) == Err::<
                SourceView,
                u16,
            >(405)
            &&& lowered(method) == lowered("PUT"@) ==> {
                &&& source_request(text) matches Ok(r) && r == headers_applied(path, headers)
                &&& source_request(bare) matches Ok(r) && r == headers_applied(path, headers)
            }
        }),
        source_request(Seq::empty()) == Err::<SourceView, u16>(400),
{
    lemma_source_request(method, path, path + seq!['?'] + query, headers);
    lemma_source_request(method, path, path, headers);
    assert(method + seq![' '] + path + seq!['?'] + query =~= method + seq![' '] + (path + seq!['?']
        + query));
    lemma_first_part(path, query);
    crate::text::lemma_split_whole(path, '?');
}

proof fn lemma_first_part(a: Seq<char>, b: Seq<char>)
    requires
        forall|i: int| 0 <= i < a.len() ==> #[trigger] a[i] != '?',
    ensures
        split_all(a + seq!['?'] + b, '?')[0] == a,
{
    let s = a + seq!['?'] + b;
    crate::text::lemma_split_first_at(a, '?', b);
    assert(split_first(s, '?') == Some((a, b)));
    let i = crate::text::find_from(s, '?', 0);
    crate::text::lemma_find_from(s, '?', 0);
    assert(split_all(s, '?')[0] == s.take(i));
}

proof fn lemma_source_request(
    method: Seq<char>,
    path: Seq<char>,
    target: Seq<char>,
    headers: Seq<Seq<char>>,
)
    requires
        crate::text::is_word(method),
        crate::text::is_word(target),
        forall|i: int, k: int|
            0 <= i < headers.len() && 0 <= k < headers[i].len() ==> #[trigger] headers[i][k]
                != '\n',
    ensures
        ({
            let line = method + seq![' '] + target;
            let text = crate::text::joined_by(seq![line] + headers, '\n');
            &&& lowered(method) != lowered("PUT"@) ==> source_request(text) == Err::<
                SourceView,
                u16,
            >(405)
            &&& lowered(method) == lowered("PUT"@) && split_all(target, '?')[0] == path ==> (
            source_request(text) matches Ok(r) && r == headers_applied(path, headers))
        }),
{
    let line = method + seq![' '] + target;
    let all = seq![line] + headers;
    let text = crate::text::joined_by(all, '\n');
    assert(crate::text::is_space('\n'));
    assert forall|i: int, k: int| 0 <= i < all.len() && 0 <= k < all[i].len() implies
        #[trigger] all[i][k] != '\n' by {
        if i == 0 {
            if k < method.len() {
                assert(!crate::text::is_space(method[k]));
            } else if k > method.len() {
                assert(!crate::text::is_space(target[k - method.len() - 1]));
            }
        } else {
            assert(headers[i - 1][k] != '\n');
        }
    }
    crate::text::law_split_reads_back(all, '\n');
    let e = Seq::<char>::empty();
    let sp = seq![' '];
    assert(crate::text::all_space(e) && crate::text::all_space(sp));
    crate::text::law_words_read_back(seq![e, sp], seq![method, target]);
    reveal_with_fuel(crate::text::spaced, 3);
    let g = seq![e, sp];
    let w = seq![method, target];
    assert(g.skip(1) =~= seq![sp] && w.skip(1) =~= seq![target]);
    assert(seq![sp].skip(1) =~= Seq::<Seq<char>>::empty() && seq![target].skip(1) =~= Seq::<
        Seq<char>,
    >::empty());
    assert(crate::text::spaced(g, w) =~= line);
    assert(text.len() > 0) by {
        if text.len() == 0 {
            crate::text::lemma_split_whole(text, '\n');
            assert(split_all(text, '\n')[0] == text);
            assert(all[0] == line);
        }
    }
    assert(all.skip(1) =~= headers);
    lemma_headers_applied(path, all, headers);
}

/// What the headers of a request say, one after the other.
pub open spec fn headers_applied(path: Seq<char>, headers: Seq<Seq<char>>) -> SourceView
    decreases headers.len(),
{
    if headers.len() == 0 {
        SourceView {
            path,
            authorization: None,
            content_type: None,
            content_length: None,
            chunked: false,
        }
    } else {
        source_with(headers_applied(path, headers.drop_last()), headers.last())
    }
}

proof fn lemma_headers_applied(path: Seq<char>, all: Seq<Seq<char>>, headers: Seq<Seq<char>>)
    requires
        all.len() == headers.len() + 1,
        all.skip(1) == headers,
    ensures
        source_after(path, all, all.len()) == headers_applied(path, headers),
    decreases headers.len(),
{
    lemma_headers_prefix(path, all, headers.len());
    assert(headers.take(headers.len() as int) =~= headers);
}

proof fn lemma_headers_prefix(path: Seq<char>, all: Seq<Seq<char>>, n: nat)
    requires
        n + 1 <= all.len(),
    ensures
        source_after(path, all, n + 1) == headers_applied(path, all.skip(1).take(n as int)),
    decreases n,
{
    let h = all.skip(1).take(n as int);
    if n > 0 {
        lemma_headers_prefix(path, all, (n - 1) as nat);
        assert(h.drop_last() =~= all.skip(1).take(n - 1));
        assert(h.last() == all[n as int]);
    }
}

/// The head of a request ends with the first blank line, and is refused once
/// it is longer than allowed.
pub proof fn law_heads_end_with_a_blank_line(buf: Seq<u8>)
    ensures
        buf.len() <= 16_384 - 4 ==> head_so_far(buf + seq![13u8, 10, 13, 10])
            == HeaderProgress::Complete,
        buf.len() > 16_384 ==> head_so_far(buf) == HeaderProgress::TooLarge,
        buf.len() <= 16_384 && (buf.len() < 4 || buf[buf.len() - 1] != 10 || buf[buf.len() - 2] != 13
            || buf[buf.len() - 3] != 10 || buf[buf.len() - 4] != 13) ==> head_so_far(buf)
            == HeaderProgress::More,
{
    let b = buf + seq![13u8, 10, 13, 10];
    assert(b.skip(b.len() - 4) =~= seq![13u8, 10, 13, 10]);
    if buf.len() >= 4 {
        let t = buf.skip(buf.len() - 4);
        assert(t[0] == buf[buf.len() - 4] && t[1] == buf[buf.len() - 3] && t[2] == buf[buf.len()
            - 2] && t[3] == buf[buf.len() - 1]);
    }
}

/// An answer starts with its code and the words for it, and has no body.
pub proof fn law_answers_say_their_code(code: u16)
    ensures
        has_prefix(response_of(code), "HTTP/1.0 "@ + dec(code as nat) + " "@),
        crate::text::has_suffix(response_of(code), "Content-Length: 0\r\n\r\n"@),
        reason_phrase(200) == "OK"@ && reason_phrase(401) == "Unauthorized"@ && reason_phrase(403)
            == "Forbidden"@ && reason_phrase(404) == "Not Found"@ && reason_phrase(405)
            == "Method Not Allowed"@ && reason_phrase(400) == "Bad Request"@,
{
    reveal_strlit("\r\nServer: Crabsoup Harbor\r\nContent-Length: 0\r\n\r\n");
    reveal_strlit("Content-Length: 0\r\n\r\n");
    let r = response_of(code);
    let p = "HTTP/1.0 "@ + dec(code as nat) + " "@;
    assert(r.take(p.len() as int) =~= p);
    let e = "Content-Length: 0\r\n\r\n"@;
    assert(r.skip(r.len() - e.len()) =~= e);
}

/// The type of an upload tells its container: MP3, Ogg or AAC, in this order
/// of preference; any other type, or none, tells nothing.
pub proof fn law_content_types(t: Seq<char>)
    ensures
        contains_text(lowered(t), "mpeg"@) || contains_text(lowered(t), "mp3"@) ==> hint_of(Some(t))
            == Some("mp3"@),
        !contains_text(lowered(t), "mpeg"@) && !contains_text(lowered(t), "mp3"@) ==> {
            &&& contains_text(lowered(t), "ogg"@) || contains_text(lowered(t), "opus"@) ==> hint_of(
                Some(t),
            ) == Some("ogg"@)
            &&& !contains_text(lowered(t), "ogg"@) && !contains_text(lowered(t), "opus"@) ==> {
                &&& contains_text(lowered(t), "aac"@) ==> hint_of(Some(t)) == Some("aac"@)
                &&& !contains_text(lowered(t), "aac"@) ==> hint_of(Some(t)) is None
            }
        },
        hint_of(None) is None,
{
    reveal_strlit("mpeg");
    reveal_strlit("mp3");
    reveal_strlit("ogg");
    reveal_strlit("opus");
    reveal_strlit("aac");
}

/// A stream is decoded from its first packet to its last: whatever was decoded
/// is pushed, and only packets of its own track are decoded; what cannot be
/// read or decoded is skipped, and the stream goes on. At its end what the
/// resampler holds is pushed too. Nothing but the end of the stream ends a
/// stream that was opened.
pub proof fn law_every_sample_is_pushed(c: LiveCourse, id: u32, n: usize, e: LiveEvent)
    requires
        n > 0,
    ensures
        ({
            let next = going(c, LiveAction::NextPacket);
            &&& course_after(next, LiveEvent::Packet(c.track)).action == LiveAction::Decode
            &&& id != c.track ==> course_after(next, LiveEvent::Packet(id)) == next
            &&& course_after(next, LiveEvent::Failed) == next
            &&& course_after(next, LiveEvent::StreamEnd).action == LiveAction::Flush
            &&& e != LiveEvent::StreamEnd ==> {
                let a = course_after(next, e).action;
                a == LiveAction::NextPacket || a == LiveAction::Decode
            }
        }),
        course_after(going(c, LiveAction::Decode), LiveEvent::Samples(n)).action
            == LiveAction::Push,
        course_after(going(c, LiveAction::Decode), LiveEvent::Failed).action
            == LiveAction::NextPacket,
        course_after(going(c, LiveAction::Decode), LiveEvent::Samples(0)).action
            == LiveAction::NextPacket,
        course_after(going(c, LiveAction::Push), e).action == LiveAction::NextPacket,
        course_after(going(c, LiveAction::Flush), LiveEvent::Samples(n)).action
            == LiveAction::PushTail,
        course_after(c, e).track != c.track ==> c.action == LiveAction::FindTrack,
{
}

/// A stream is opened step by step: sniffed, decoded as Opus if it is that,
/// else probed, its track found and its decoder made; a step that fails ends
/// it, with the answer that is owed.
pub proof fn law_streams_are_opened(c: LiveCourse, id: u32)
    ensures
        ({
            let end = if c.answer_at_end {
                LiveAction::Answer
            } else {
                LiveAction::Stop
            };
            let sniff = going(c, LiveAction::Sniff);
            let probe = course_after(sniff, LiveEvent::Done);
            let find = course_after(probe, LiveEvent::Done);
            let make = course_after(find, LiveEvent::Packet(id));
            let read = course_after(make, LiveEvent::Done);
            let opus = course_after(sniff, LiveEvent::Opus);
            &&& probe.action == LiveAction::Probe
            &&& find.action == LiveAction::FindTrack
            &&& make.action == LiveAction::MakeDecoder && make.track == id
            &&& read.action == LiveAction::NextPacket && read.track == id
            &&& opus.action == LiveAction::DecodeOpus
            &&& course_after(opus, LiveEvent::Done).action == end
            &&& course_after(sniff, LiveEvent::Failed).action == end
            &&& course_after(probe, LiveEvent::Failed).action == end
            &&& course_after(find, LiveEvent::Failed).action == end
            &&& course_after(make, LiveEvent::Failed).action == end
            &&& course_after(going(c, LiveAction::Flush), LiveEvent::Samples(0)).action == end
            &&& course_after(going(c, LiveAction::PushTail), LiveEvent::Done).action == end
            &&& course_after(going(c, LiveAction::Answer), LiveEvent::Done).action
                == LiveAction::Stop
        }),
{
}

/// A bounded upload is answered at the end, and a streaming source at once.
pub proof fn law_answer_time(request: Result<SourceView, u16>, config: LiveConfig)
    ensures
        admission(request, config, false) matches Admission::Accept { answer_at_end } ==> (request
            matches Ok(r) && answer_at_end == r.content_length is Some),
{
}

/// The course after a series of events.
pub open spec fn course_run(c: LiveCourse, events: Seq<LiveEvent>) -> LiveCourse
    decreases events.len(),
{
    if events.len() == 0 {
        c
    } else {
        course_after(course_run(c, events.drop_last()), events.last())
    }
}

/// Whatever happens to a stream, once it is over its deferred answer was sent
/// exactly if one was owed; before that none was sent.
pub proof fn law_deferred_answer(answer_at_end: bool, events: Seq<LiveEvent>)
    ensures
        ({
            let start = LiveCourse {
                action: LiveAction::Sniff,
                track: 0,
                answer_at_end,
                answered: false,
            };
            let c = course_run(start, events);
            &&& c.answer_at_end == answer_at_end
            &&& c.action == LiveAction::Stop ==> c.answered == answer_at_end
            &&& c.action != LiveAction::Stop ==> !c.answered
            &&& c.action == LiveAction::Answer ==> answer_at_end
        }),
    decreases events.len(),
{
    if events.len() > 0 {
        law_deferred_answer(answer_at_end, events.drop_last());
    }
}

/// One chunk of a body: its size line without the line feed, and its data.
pub struct ChunkSpec {
    pub line: Seq<u8>,
    pub data: Seq<u8>,
}

/// The size line announces the data.
pub open spec fn valid_chunk(c: ChunkSpec) -> bool {
    &&& forall|i: int| 0 <= i < c.line.len() ==> #[trigger] c.line[i] != 10
    &&& c.data.len() > 0
    &&& after_size_line(c.line) == ChunkView::Data(c.data.len())
}

/// A chunk on the wire.
pub open spec fn framed(c: ChunkSpec) -> Seq<u8> {
    c.line + seq![10u8] + c.data + seq![13u8, 10]
}

/// The chunks on the wire.
pub open spec fn framed_all(chunks: Seq<ChunkSpec>) -> Seq<u8>
    decreases chunks.len(),
{
    if chunks.len() == 0 {
        Seq::empty()
    } else {
        framed_all(chunks.drop_last()) + framed(chunks.last())
    }
}

/// The data of the chunks.
pub open spec fn payload(chunks: Seq<ChunkSpec>) -> Seq<u8>
    decreases chunks.len(),
{
    if chunks.len() == 0 {
        Seq::empty()
    } else {
        payload(chunks.drop_last()) + chunks.last().data
    }
}

/// Reading two stretches one after the other is reading them at once: it does
/// not matter where the pieces of a body end.
pub proof fn law_pieces_do_not_matter(s: ChunkView, a: Seq<u8>, b: Seq<u8>)
    ensures
        ({
            let (t, x) = chunk_run(s, a);
            let (u, y) = chunk_run(t, b);
            chunk_run(s, a + b) == (u, x + y)
        }),
    decreases b.len(),
{
    let (t, x) = chunk_run(s, a);
    if b.len() == 0 {
        assert(a + b =~= a);
        assert(x + Seq::<u8>::empty() =~= x);
    } else {
        law_pieces_do_not_matter(s, a, b.drop_last());
        assert((a + b).drop_last() =~= a + b.drop_last());
        let (v, z) = chunk_run(t, b.drop_last());
        assert(x + z.push(b.last()) =~= (x + z).push(b.last()));
    }
}

proof fn lemma_line_run(line: Seq<u8>)
    requires
        forall|i: int| 0 <= i < line.len() ==> #[trigger] line[i] != 10,
    ensures
        chunk_run(ChunkView::SizeLine(Seq::empty()), line) == (
            ChunkView::SizeLine(line),
            Seq::<u8>::empty(),
        ),
    decreases line.len(),
{
    if line.len() > 0 {
        lemma_line_run(line.drop_last());
        assert(line.drop_last().push(line.last()) =~= line);
    } else {
        assert(line =~= Seq::<u8>::empty());
    }
}

proof fn lemma_data_run(data: Seq<u8>, left: nat)
    requires
        data.len() <= left,
        left > 0,
    ensures
        chunk_run(ChunkView::Data(left), data) == (
            if data.len() == left {
                ChunkView::AfterData
            } else {
                ChunkView::Data((left - data.len()) as nat)
            },
            data,
        ),
    decreases data.len(),
{
    if data.len() > 0 {
        lemma_data_run(data.drop_last(), left);
        assert(data.drop_last().push(data.last()) =~= data);
    } else {
        assert(data =~= Seq::<u8>::empty());
    }
}

proof fn lemma_two_steps(s: ChunkView, a: u8, b: u8)
    requires
        !(s is Data),
        !(chunk_next(s, a) is Data),
    ensures
        chunk_run(s, seq![a, b]) == (chunk_next(chunk_next(s, a), b), Seq::<u8>::empty()),
{
    let two = seq![a, b];
    assert(two.drop_last() =~= seq![a]);
    assert(seq![a].drop_last() =~= Seq::<u8>::empty());
    reveal_with_fuel(chunk_run, 3);
}

proof fn lemma_one_step(s: ChunkView, a: u8)
    requires
        !(s is Data),
    ensures
        chunk_run(s, seq![a]) == (chunk_next(s, a), Seq::<u8>::empty()),
{
    assert(seq![a].drop_last() =~= Seq::<u8>::empty());
    reveal_with_fuel(chunk_run, 2);
}

proof fn lemma_framed_run(c: ChunkSpec)
    requires
        valid_chunk(c),
    ensures
        chunk_run(ChunkView::SizeLine(Seq::empty()), framed(c)) == (
            ChunkView::SizeLine(Seq::empty()),
            c.data,
        ),
{
    let s0 = ChunkView::SizeLine(Seq::empty());
    lemma_line_run(c.line);
    lemma_one_step(ChunkView::SizeLine(c.line), 10);
    law_pieces_do_not_matter(s0, c.line, seq![10u8]);
    let head = c.line + seq![10u8];
    assert(chunk_run(s0, head) == (ChunkView::Data(c.data.len()), Seq::<u8>::empty())) by {
        assert(Seq::<u8>::empty() + Seq::<u8>::empty() =~= Seq::<u8>::empty());
    }
    lemma_data_run(c.data, c.data.len());
    law_pieces_do_not_matter(s0, head, c.data);
    let mid = head + c.data;
    assert(chunk_run(s0, mid) == (ChunkView::AfterData, c.data)) by {
        assert(Seq::<u8>::empty() + c.data =~= c.data);
    }
    lemma_two_steps(ChunkView::AfterData, 13, 10);
    law_pieces_do_not_matter(s0, mid, seq![13u8, 10]);
    assert(framed(c) =~= mid + seq![13u8, 10]);
    assert(c.data + Seq::<u8>::empty() =~= c.data);
}

/// Stripping the framing of a chunked body gives the data of its chunks, in
/// order, and the body ends at the first chunk of size zero.
pub proof fn law_chunks_read_back(chunks: Seq<ChunkSpec>, last: Seq<u8>)
    requires
        forall|i: int| 0 <= i < chunks.len() ==> valid_chunk(#[trigger] chunks[i]),
        forall|i: int| 0 <= i < last.len() ==> #[trigger] last[i] != 10,
        after_size_line(last) == ChunkView::Done,
    ensures
        chunk_run(ChunkView::SizeLine(Seq::empty()), framed_all(chunks) + last + seq![10u8]) == (
            ChunkView::Done,
            payload(chunks),
        ),
{
    let s0 = ChunkView::SizeLine(Seq::empty());
    lemma_framed_all(chunks);
    lemma_line_run(last);
    lemma_one_step(ChunkView::SizeLine(last), 10);
    law_pieces_do_not_matter(s0, framed_all(chunks), last);
    law_pieces_do_not_matter(s0, framed_all(chunks) + last, seq![10u8]);
    assert(payload(chunks) + Seq::<u8>::empty() =~= payload(chunks));
}

/// A body is whole only behind its last chunk: wherever the connection ends
/// before that, it is an error.
pub proof fn law_truncated_bodies_fail(chunks: Seq<ChunkSpec>, last: Seq<u8>, n: int)
    requires
        forall|i: int| 0 <= i < chunks.len() ==> valid_chunk(#[trigger] chunks[i]),
        forall|i: int| 0 <= i < last.len() ==> #[trigger] last[i] != 10,
        after_size_line(last) == ChunkView::Done,
    ensures
        ({
            let start = ChunkView::SizeLine(Seq::empty());
            let wire = framed_all(chunks) + last + seq![10u8];
            &&& chunk_end(chunk_run(start, wire).0) is Ok
            &&& 0 <= n < wire.len() ==> chunk_end(chunk_run(start, wire.take(n)).0) is Err
        }),
{
    let s0 = ChunkView::SizeLine(Seq::empty());
    law_chunks_read_back(chunks, last);
    let part = framed_all(chunks) + last;
    let wire = part + seq![10u8];
    if 0 <= n < wire.len() {
        lemma_framed_all(chunks);
        lemma_line_run(last);
        law_pieces_do_not_matter(s0, framed_all(chunks), last);
        assert(wire.take(n) =~= part.take(n));
        assert(part =~= part.take(n) + part.skip(n));
        law_pieces_do_not_matter(s0, part.take(n), part.skip(n));
        lemma_done_stays(part.skip(n));
    }
}

proof fn lemma_done_stays(data: Seq<u8>)
    ensures
        chunk_run(ChunkView::Done, data).0 is Done,
    decreases data.len(),
{
    if data.len() > 0 {
        lemma_done_stays(data.drop_last());
    }
}

proof fn lemma_framed_all(chunks: Seq<ChunkSpec>)
    requires
        forall|i: int| 0 <= i < chunks.len() ==> valid_chunk(#[trigger] chunks[i]),
    ensures
        chunk_run(ChunkView::SizeLine(Seq::empty()), framed_all(chunks)) == (
            ChunkView::SizeLine(Seq::empty()),
            payload(chunks),
        ),
    decreases chunks.len(),
{
    let s0 = ChunkView::SizeLine(Seq::empty());
    if chunks.len() > 0 {
        lemma_framed_all(chunks.drop_last());
        lemma_framed_run(chunks.last());
        law_pieces_do_not_matter(s0, framed_all(chunks.drop_last()), framed(chunks.last()));
    }
}

} // verus!
