//! The source protocols of Icecast and SHOUTcast: requests, response heads,
//! and what the answers mean.

use vstd::prelude::*;
use crate::auth::{basic_auth, basic_token, MAX_CREDENTIAL};
use crate::config::{OutputConfig, OutputFormat, OutputProtocol};
use crate::control::{lossy_text, text_of_bytes};
use crate::text::{contains, contains_text, dec, has_prefix, lowered, owned, parse_unsigned, parsed};
use crate::text::{push_dec, same_ignoring_case, split, split_all, split_first, split_once, str_views};
use crate::text::{string_of, strip_prefix, to_chars, trim, trimmed};

verus! {

/// Seconds that a read or a write may take.
pub const IO_TIMEOUT_SECS: u64 = 30;

/// Seconds that the head of a SHOUTcast answer may take.
pub const HEAD_TIMEOUT_SECS: u64 = 3;

/// Largest head of an answer.
pub const MAX_RESPONSE_HEAD: usize = 65_536;

// ---------------------------------------------------------------------------
// Percent-encoding
// ---------------------------------------------------------------------------

/// An unreserved character of RFC 3986.
pub open spec fn is_unreserved(b: u8) -> bool {
    ||| 48 <= b <= 57
    ||| 65 <= b <= 90
    ||| 97 <= b <= 122
    ||| b == 45
    ||| b == 46
    ||| b == 95
    ||| b == 126
}

/// The upper-case character of a hexadecimal digit.
pub open spec fn upper_hex(d: int) -> char {
    if d < 10 {
        (d + 48) as u8 as char
    } else {
        (d + 55) as u8 as char
    }
}

/// A byte in a query: itself where it is unreserved, else `%` and two digits.
pub open spec fn percent_of(b: u8) -> Seq<char> {
    if is_unreserved(b) {
        seq![b as char]
    } else {
        seq!['%', upper_hex(b as int / 16), upper_hex(b as int % 16)]
    }
}

/// The bytes in a query.
pub open spec fn percent_encoded(data: Seq<u8>) -> Seq<char>
    decreases data.len(),
{
    if data.len() == 0 {
        Seq::empty()
    } else {
        percent_of(data[0]) + percent_encoded(data.skip(1))
    }
}

fn upper_hex_char(d: u8) -> (c: char)
    requires
        d < 16,
    ensures
        c == upper_hex(d as int),
{
    if d < 10 {
        (d + 48) as char
    } else {
        (d + 55) as char
    }
}

/// The bytes in a query: unreserved characters pass, everything else becomes
/// `%` and two upper-case digits.
pub fn percent_encode(input: &[u8]) -> (out: String)
    ensures
        out@ == percent_encoded(input@),
{
    let mut out = String::new();
    let mut i: usize = 0;
    proof {
        assert(input@.skip(0) =~= input@);
        assert(out@ + percent_encoded(input@) =~= percent_encoded(input@));
    }
    while i < input.len()
        invariant
            i <= input@.len(),
            out@ + percent_encoded(input@.skip(i as int)) == percent_encoded(input@),
        decreases input@.len() - i,
    {
        let b: u8 = input[i];
        let ghost before = out@;
        let ghost rest = percent_encoded(input@.skip(i as int + 1));
        proof {
            assert(input@.skip(i as int).skip(1) =~= input@.skip(i as int + 1));
        }
        if (48 <= b && b <= 57) || (65 <= b && b <= 90) || (97 <= b && b <= 122) || b == 45 || b
            == 46 || b == 95 || b == 126 {
            out.push(b as char);
        } else {
            out.push('%');
            out.push(upper_hex_char(b / 16));
            out.push(upper_hex_char(b % 16));
        }
        proof {
            assert(out@ =~= before + percent_of(b));
            assert(out@ + rest =~= before + (percent_of(b) + rest));
        }
        i = i + 1;
    }
    proof {
        assert(input@.skip(i as int) =~= Seq::<u8>::empty());
        assert(out@ + percent_encoded(input@.skip(i as int)) =~= out@);
    }
    out
}

// ---------------------------------------------------------------------------
// Requests
// ---------------------------------------------------------------------------

/// The content type of a format.
pub open spec fn content_type_of(format: OutputFormat) -> Seq<char> {
    match format {
        OutputFormat::Mp3 => "audio/mpeg"@,
        OutputFormat::Opus => "audio/ogg"@,
        OutputFormat::Aac => "audio/aac"@,
    }
}

fn content_type(format: OutputFormat) -> (s: &'static str)
    ensures
        s@ == content_type_of(format),
{
    match format {
        OutputFormat::Mp3 => "audio/mpeg",
        OutputFormat::Opus => "audio/ogg",
        OutputFormat::Aac => "audio/aac",
    }
}

/// The credentials fit into a header.
pub open spec fn sound_credentials(config: OutputConfig) -> bool {
    vstd::utf8::encode_utf8(config.source_user@ + ":"@ + config.source_password@).len()
        <= MAX_CREDENTIAL
}

/// The request that opens a mount.
pub open spec fn source_request_text(config: OutputConfig, sample_rate: u32, channels: u16) -> Seq<
    char,
> {
    "SOURCE "@ + config.mount@ + " HTTP/1.0\r\nAuthorization: Basic "@ + basic_token(
        config.source_user@,
        config.source_password@,
    ) + "\r\nUser-Agent: Crabsoup/0.1\r\nContent-Type: "@ + content_type_of(config.format)
        + "\r\nice-name: "@ + config.name@ + "\r\nice-description: "@ + config.description@
        + "\r\nice-genre: "@ + config.genre@ + "\r\nice-audio-info: samplerate="@ + dec(
        sample_rate as nat,
    ) + ";channels="@ + dec(channels as nat) + ";bitrate="@ + dec((config.bitrate / 1000) as nat)
        + "\r\nice-public: 0\r\n\r\n"@
}

/// The request that opens a mount: one authenticated `SOURCE` request.
pub fn source_request(config: &OutputConfig, sample_rate: u32, channels: u16) -> (s: String)
    requires
        sound_credentials(*config),
    ensures
        s@ == source_request_text(*config, sample_rate, channels),
{
    let token = basic_auth(config.source_user.as_str(), config.source_password.as_str());
    let mut s = owned("SOURCE ");
    s.append(config.mount.as_str());
    s.append(" HTTP/1.0\r\nAuthorization: Basic ");
    s.append(token.as_str());
    s.append("\r\nUser-Agent: Crabsoup/0.1\r\nContent-Type: ");
    s.append(content_type(config.format));
    s.append("\r\nice-name: ");
    s.append(config.name.as_str());
    s.append("\r\nice-description: ");
    s.append(config.description.as_str());
    s.append("\r\nice-genre: ");
    s.append(config.genre.as_str());
    s.append("\r\nice-audio-info: samplerate=");
    push_dec(&mut s, sample_rate as u64);
    s.append(";channels=");
    push_dec(&mut s, channels as u64);
    s.append(";bitrate=");
    push_dec(&mut s, (config.bitrate / 1000) as u64);
    s.append("\r\nice-public: 0\r\n\r\n");
    s
}

/// The stream number of a SHOUTcast v2 mount `/stream/N`; none for the
/// default stream.
pub open spec fn stream_id(mount: Seq<char>) -> Option<int> {
    if has_prefix(mount, "/stream/"@) {
        parsed(mount.skip("/stream/"@.len() as int), 10, u32::MAX as int)
    } else {
        None
    }
}

/// The stream number of a SHOUTcast v2 mount `/stream/N`; none for the
/// default stream.
pub fn stream_id_from_mount(mount: &str) -> (r: Option<u32>)
    ensures
        match r {
            Some(n) => stream_id(mount@) == Some(n as int),
            None => stream_id(mount@) is None,
        },
{
    match strip_prefix(mount, "/stream/") {
        None => None,
        Some(rest) => match parse_unsigned(rest, 10, u32::MAX as u64) {
            None => None,
            Some(n) => Some(n as u32),
        },
    }
}

/// The version of SHOUTcast carries the format: MP3 always, AAC from the
/// second version on.
pub open spec fn shoutcast_carries(format: OutputFormat, v1: bool) -> bool {
    format == OutputFormat::Mp3 || (!v1 && format == OutputFormat::Aac)
}

/// The name of a format in messages.
pub open spec fn format_debug(format: OutputFormat) -> Seq<char> {
    match format {
        OutputFormat::Mp3 => "Mp3"@,
        OutputFormat::Opus => "Opus"@,
        OutputFormat::Aac => "Aac"@,
    }
}

/// Why a format is refused.
pub open spec fn format_refusal(format: OutputFormat, v1: bool) -> Seq<char> {
    (if v1 {
        "SHOUTcast v1 only supports MP3; set format = \"mp3\""@
    } else {
        "SHOUTcast v2 supports MP3 or AAC; set format = \"mp3\" or \"aac\""@
    }) + " (got "@ + format_debug(format) + ")"@
}

/// Refuses a format that the version of SHOUTcast cannot carry.
pub fn require_shoutcast_format(config: &OutputConfig, v1: bool) -> (r: Result<(), String>)
    ensures
        match r {
            Ok(_) => shoutcast_carries(config.format, v1),
            Err(e) => !shoutcast_carries(config.format, v1) && e@ == format_refusal(
                config.format,
                v1,
            ),
        },
{
    if config.format == OutputFormat::Mp3 || (!v1 && config.format == OutputFormat::Aac) {
        return Ok(());
    }
    let mut s = if v1 {
        owned("SHOUTcast v1 only supports MP3; set format = \"mp3\"")
    } else {
        owned("SHOUTcast v2 supports MP3 or AAC; set format = \"mp3\" or \"aac\"")
    };
    s.append(" (got ");
    match config.format {
        OutputFormat::Mp3 => s.append("Mp3"),
        OutputFormat::Opus => s.append("Opus"),
        OutputFormat::Aac => s.append("Aac"),
    }
    s.append(")");
    Err(s)
}

/// The password line of the ICY handshake: on a v2 server a stream other than
/// the default one is chosen behind the password.
pub open spec fn icy_password(config: OutputConfig, v2: bool) -> Seq<char> {
    match stream_id(config.mount@) {
        Some(n) => if v2 {
            config.source_password@ + ":#"@ + dec(n as nat)
        } else {
            config.source_password@
        },
        None => config.source_password@,
    }
}

/// The ICY handshake: the password as the first line, then `icy-*` headers.
pub open spec fn icy_request_text(config: OutputConfig, sample_rate: u32, v2: bool) -> Seq<char> {
    icy_password(config, v2) + "\nicy-name: "@ + config.name@ + "\nicy-pub: 0\nicy-genre: "@
        + config.genre@ + "\nicy-br: "@ + dec((config.bitrate / 1000) as nat) + "\nicy-sr: "@ + dec(
        sample_rate as nat,
    ) + "\n\n"@
}

/// The ICY handshake: the password as the first line, then `icy-*` headers.
pub fn icy_request(config: &OutputConfig, sample_rate: u32, v2: bool) -> (s: String)
    ensures
        s@ == icy_request_text(*config, sample_rate, v2),
{
    let mut s = owned(config.source_password.as_str());
    if v2 {
        match stream_id_from_mount(config.mount.as_str()) {
            Some(n) => {
                s.append(":#");
                push_dec(&mut s, n as u64);
            },
            None => {},
        }
    }
    s.append("\nicy-name: ");
    s.append(config.name.as_str());
    s.append("\nicy-pub: 0\nicy-genre: ");
    s.append(config.genre.as_str());
    s.append("\nicy-br: ");
    push_dec(&mut s, (config.bitrate / 1000) as u64);
    s.append("\nicy-sr: ");
    push_dec(&mut s, sample_rate as u64);
    s.append("\n\n");
    s
}

/// What is sent to open a source connection, or why none is opened.
pub open spec fn opening(config: OutputConfig, sample_rate: u32, channels: u16) -> Result<
    Seq<char>,
    Seq<char>,
> {
    match config.protocol {
        OutputProtocol::Icecast => Ok(source_request_text(config, sample_rate, channels)),
        OutputProtocol::ShoutcastV1 => if shoutcast_carries(config.format, true) {
            Ok(icy_request_text(config, sample_rate, false))
        } else {
            Err(format_refusal(config.format, true))
        },
        OutputProtocol::ShoutcastV2 => if shoutcast_carries(config.format, false) {
            Ok(icy_request_text(config, sample_rate, true))
        } else {
            Err(format_refusal(config.format, false))
        },
    }
}

/// What is sent to open a source connection with the configured protocol. A
/// format that the protocol cannot carry is refused before any connection.
pub fn connect_request(config: &OutputConfig, sample_rate: u32, channels: u16) -> (r: Result<
    String,
    String,
>)
    requires
        config.protocol == OutputProtocol::Icecast ==> sound_credentials(*config),
    ensures
        match r {
            Ok(s) => opening(*config, sample_rate, channels) == Ok::<Seq<char>, Seq<char>>(s@),
            Err(e) => opening(*config, sample_rate, channels) == Err::<Seq<char>, Seq<char>>(e@),
        },
{
    match config.protocol {
        OutputProtocol::Icecast => Ok(source_request(config, sample_rate, channels)),
        OutputProtocol::ShoutcastV1 => match require_shoutcast_format(config, true) {
            Ok(_) => Ok(icy_request(config, sample_rate, false)),
            Err(e) => Err(e),
        },
        OutputProtocol::ShoutcastV2 => match require_shoutcast_format(config, false) {
            Ok(_) => Ok(icy_request(config, sample_rate, true)),
            Err(e) => Err(e),
        },
    }
}

/// The request that sets the title of an Icecast mount.
pub open spec fn title_request_text(config: OutputConfig, title: Seq<char>) -> Seq<char> {
    "GET /admin/metadata?mode=updinfo&charset=UTF-8&mount="@ + percent_encoded(
        vstd::utf8::encode_utf8(config.mount@),
    ) + "&song="@ + percent_encoded(vstd::utf8::encode_utf8(title)) + " HTTP/1.1\r\nHost: "@
        + config.host@ + ":"@ + dec(config.port as nat)
        + "\r\nUser-Agent: Crabsoup/0.1\r\nAuthorization: Basic "@ + basic_token(
        config.source_user@,
        config.source_password@,
    ) + "\r\n\r\n"@
}

/// The request that sets the title of an Icecast mount.
pub fn title_request(config: &OutputConfig, title: &str) -> (s: String)
    requires
        sound_credentials(*config),
    ensures
        s@ == title_request_text(*config, title@),
{
    let mount = percent_encode(config.mount.as_str().as_bytes());
    let song = percent_encode(title.as_bytes());
    let token = basic_auth(config.source_user.as_str(), config.source_password.as_str());
    let mut s = owned("GET /admin/metadata?mode=updinfo&charset=UTF-8&mount=");
    s.append(mount.as_str());
    s.append("&song=");
    s.append(song.as_str());
    s.append(" HTTP/1.1\r\nHost: ");
    s.append(config.host.as_str());
    s.append(":");
    push_dec(&mut s, config.port as u64);
    s.append("\r\nUser-Agent: Crabsoup/0.1\r\nAuthorization: Basic ");
    s.append(token.as_str());
    s.append("\r\n\r\n");
    s
}

/// The request that sets the title of a SHOUTcast stream; the password stands
/// in the query.
pub open spec fn icy_title_request_text(config: OutputConfig, title: Seq<char>) -> Seq<char> {
    "GET /admin.cgi?mode=updinfo&pass="@ + percent_encoded(
        vstd::utf8::encode_utf8(config.source_password@),
    ) + "&song="@ + percent_encoded(vstd::utf8::encode_utf8(title)) + " HTTP/1.1\r\nHost: "@
        + config.host@ + ":"@ + dec(config.port as nat)
        + "\r\nUser-Agent: Crabsoup/0.1\r\n\r\n"@
}

/// The request that sets the title of a SHOUTcast stream.
pub fn icy_title_request(config: &OutputConfig, title: &str) -> (s: String)
    ensures
        s@ == icy_title_request_text(*config, title@),
{
    let pass = percent_encode(config.source_password.as_str().as_bytes());
    let song = percent_encode(title.as_bytes());
    let mut s = owned("GET /admin.cgi?mode=updinfo&pass=");
    s.append(pass.as_str());
    s.append("&song=");
    s.append(song.as_str());
    s.append(" HTTP/1.1\r\nHost: ");
    s.append(config.host.as_str());
    s.append(":");
    push_dec(&mut s, config.port as u64);
    s.append("\r\nUser-Agent: Crabsoup/0.1\r\n\r\n");
    s
}

// ---------------------------------------------------------------------------
// Answers
// ---------------------------------------------------------------------------

/// The bytes end with `tail`.
pub open spec fn ends_in(buf: Seq<u8>, tail: Seq<u8>) -> bool {
    tail.len() <= buf.len() && buf.skip(buf.len() - tail.len()) == tail
}

fn ends_in_bytes(buf: &[u8], tail: &[u8]) -> (r: bool)
    ensures
        r == ends_in(buf@, tail@),
{
    let n: usize = buf.len();
    let m: usize = tail.len();
    if n < m {
        return false;
    }
    let ghost end = buf@.skip(n - m);
    let mut i: usize = 0;
    while i < m
        invariant
            m <= n,
            n == buf@.len(),
            m == tail@.len(),
            i <= m,
            end == buf@.skip(n - m),
            forall|k: int| 0 <= k < i ==> end[k] == tail@[k],
        decreases m - i,
    {
        if buf[n - m + i] != tail[i] {
            assert(end[i as int] == buf@[n - m + i]);
            return false;
        }
        assert(end[i as int] == buf@[n - m + i]);
        i = i + 1;
    }
    assert(end =~= tail@);
    true
}

/// The head of an answer is complete, or as large as it may be.
pub open spec fn head_is_over(buf: Seq<u8>) -> bool {
    ends_in(buf, seq![13u8, 10, 13, 10]) || buf.len() >= MAX_RESPONSE_HEAD
}

/// Whether no more of the head of an answer is read.
pub fn head_over(buf: &[u8]) -> (r: bool)
    ensures
        r == head_is_over(buf@),
{
    let crlf: Vec<u8> = vec![13u8, 10, 13, 10];
    assert(crlf@ =~= seq![13u8, 10, 13, 10]);
    ends_in_bytes(buf, crlf.as_slice()) || buf.len() >= MAX_RESPONSE_HEAD
}

/// The head of a SHOUTcast answer is complete, or as large as it may be.
pub open spec fn icy_head_is_over(buf: Seq<u8>) -> bool {
    head_is_over(buf) || ends_in(buf, seq![10u8, 10])
}

/// Whether no more of the head of a SHOUTcast answer is read: a blank line
/// of either kind ends it.
pub fn icy_head_over(buf: &[u8]) -> (r: bool)
    ensures
        r == icy_head_is_over(buf@),
{
    let lf: Vec<u8> = vec![10u8, 10];
    assert(lf@ =~= seq![10u8, 10]);
    head_over(buf) || ends_in_bytes(buf, lf.as_slice())
}

/// The first line of a text, without its end.
pub open spec fn first_line_of(text: Seq<char>) -> Seq<char> {
    match split_first(text, '\n') {
        None => text,
        Some((line, _)) => if line.len() > 0 && line.last() == '\r' {
            line.drop_last()
        } else {
            line
        },
    }
}

fn first_line(text: &str) -> (s: String)
    ensures
        s@ == first_line_of(text@),
{
    match split_once(text, '\n') {
        None => owned(text),
        Some((line, _)) => {
            let chars = to_chars(line);
            let n: usize = chars.len();
            if n > 0 && chars[n - 1] == '\r' {
                proof {
                    assert(chars@.subrange(0, n as int - 1) =~= line@.drop_last());
                }
                string_of(chars.as_slice(), 0, n - 1)
            } else {
                owned(line)
            }
        },
    }
}

/// The head of an answer.
pub struct AnswerView {
    pub status: u16,
    pub message: Seq<char>,
    pub bodies: Seq<usize>,
}

/// The head of an answer: its status code, 0 where there is none; its reason
/// phrase; and the lengths of the bodies that its headers announce, in order.
#[derive(Clone, Debug)]
pub struct Answer {
    pub status: u16,
    pub message: String,
    pub bodies: Vec<usize>,
}

impl View for Answer {
    type V = AnswerView;

    open spec fn view(&self) -> AnswerView {
        AnswerView { status: self.status, message: self.message@, bodies: self.bodies@ }
    }
}

/// The status code and the reason phrase of a status line: the second and
/// third of the parts that single spaces divide it into.
pub open spec fn status_parts(line: Seq<char>) -> (u16, Seq<char>) {
    match split_first(line, ' ') {
        None => (0, trimmed(Seq::empty())),
        Some((_, rest)) => {
            let (code, message) = match split_first(rest, ' ') {
                None => (rest, Seq::empty()),
                Some((code, message)) => (code, message),
            };
            (
                match parsed(code, 10, u16::MAX as int) {
                    Some(n) => n as u16,
                    None => 0,
                },
                trimmed(message),
            )
        },
    }
}

/// The length of the body that a header line announces; an empty body is not
/// announced.
pub open spec fn announced_body(line: Seq<char>) -> Option<usize> {
    match split_first(line, ':') {
        None => None,
        Some((k, v)) => if lowered(trimmed(k)) == lowered("content-length"@) {
            match parsed(trimmed(v), 10, usize::MAX as int) {
                Some(n) => if n > 0 {
                    Some(n as usize)
                } else {
                    None
                },
                None => None,
            }
        } else {
            None
        },
    }
}

/// The lengths of the bodies that header lines announce.
pub open spec fn announced_bodies(lines: Seq<Seq<char>>) -> Seq<usize>
    decreases lines.len(),
{
    if lines.len() == 0 {
        Seq::empty()
    } else {
        let before = announced_bodies(lines.drop_last());
        match announced_body(lines.last()) {
            Some(n) => before.push(n),
            None => before,
        }
    }
}

/// The head of an answer, understood.
pub open spec fn answer_of(text: Seq<char>) -> AnswerView {
    let (status, message) = status_parts(first_line_of(text));
    AnswerView { status, message, bodies: announced_bodies(split_all(text, '\n').skip(1)) }
}

fn body_of_line(line: &str) -> (r: Option<usize>)
    ensures
        r == announced_body(line@),
{
    match split_once(line, ':') {
        None => None,
        Some((k, v)) => {
            if !same_ignoring_case(trim(k), "content-length") {
                return None;
            }
            match parse_unsigned(trim(v), 10, usize::MAX as u64) {
                Some(n) => if n > 0 {
                    Some(n as usize)
                } else {
                    None
                },
                None => None,
            }
        },
    }
}

/// Understands the head of an answer, given as text.
pub fn parse_answer_text(text: &str) -> (a: Answer)
    ensures
        a@ == answer_of(text@),
{
    let line = first_line(text);
    let mut status: u16 = 0;
    let mut message = owned(trim(""));
    proof {
        reveal_strlit("");
        assert(""@ =~= Seq::<char>::empty());
    }
    match split_once(line.as_str(), ' ') {
        None => {},
        Some((_, rest)) => {
            let (code, reason) = match split_once(rest, ' ') {
                None => (rest, ""),
                Some((code, reason)) => (code, reason),
            };
            match parse_unsigned(code, 10, u16::MAX as u64) {
                Some(n) => {
                    status = n as u16;
                },
                None => {},
            }
            message = owned(trim(reason));
        },
    }
    assert((status, message@) == status_parts(first_line_of(text@)));
    let lines = split(text, '\n');
    let ghost all = str_views(lines@);
    let ghost tail = all.skip(1);
    proof {
        crate::text::lemma_split_nonempty(text@, '\n');
        assert(all.len() == lines@.len());
    }
    let mut bodies: Vec<usize> = Vec::new();
    let mut i: usize = 1;
    proof {
        assert(tail.take(0) =~= Seq::<Seq<char>>::empty());
    }
    while i < lines.len()
        invariant
            1 <= i <= lines@.len(),
            all == str_views(lines@),
            tail == all.skip(1),
            bodies@ == announced_bodies(tail.take(i - 1)),
        decreases lines@.len() - i,
    {
        proof {
            assert(tail.take(i as int).drop_last() =~= tail.take(i - 1));
            assert(tail.take(i as int).last() == lines@[i as int]@);
        }
        match body_of_line(lines[i]) {
            Some(n) => bodies.push(n),
            None => {},
        }
        i = i + 1;
    }
    proof {
        assert(tail.take(i - 1) =~= tail);
    }
    Answer { status, message, bodies }
}

/// Understands the head of an answer.
pub fn parse_answer(head: &[u8]) -> (a: Answer)
    ensures
        a@ == answer_of(lossy_text(head@)),
{
    let text = text_of_bytes(head);
    parse_answer_text(text.as_str())
}

/// The status code means success.
pub open spec fn succeeded(status: u16) -> bool {
    200 <= status < 300
}

/// Why a mount was refused.
pub open spec fn source_refusal(mount: Seq<char>, status: u16, message: Seq<char>) -> Seq<char> {
    "Icecast rejected source on "@ + mount + ": HTTP "@ + dec(status as nat) + " "@ + message
}

/// What an answer to a source request complains of.
pub open spec fn source_fault(mount: Seq<char>, answer: AnswerView) -> Option<Seq<char>> {
    if succeeded(answer.status) {
        None
    } else {
        Some(source_refusal(mount, answer.status, answer.message))
    }
}

/// Whether the mount is open, by the answer to a source request.
pub fn source_verdict(config: &OutputConfig, answer: &Answer) -> (r: Result<(), String>)
    ensures
        match r {
            Ok(_) => source_fault(config.mount@, answer@) is None,
            Err(e) => source_fault(config.mount@, answer@) == Some(e@),
        },
{
    if 200 <= answer.status && answer.status < 300 {
        return Ok(());
    }
    let mut s = owned("Icecast rejected source on ");
    s.append(config.mount.as_str());
    s.append(": HTTP ");
    push_dec(&mut s, answer.status as u64);
    s.append(" ");
    s.append(answer.message.as_str());
    Err(s)
}

/// What a SHOUTcast answer complains of, unless its first line says OK.
pub open spec fn icy_fault(text: Seq<char>) -> Option<Seq<char>> {
    if contains_text(first_line_of(text), "OK"@) {
        None
    } else {
        Some("SHOUTcast rejected the source: "@ + first_line_of(text))
    }
}

/// Whether the stream is open, by the text of a SHOUTcast answer: its first
/// line says OK.
pub fn icy_text_verdict(text: &str) -> (r: Result<(), String>)
    ensures
        match r {
            Ok(_) => icy_fault(text@) is None,
            Err(e) => icy_fault(text@) == Some(e@),
        },
{
    let line = first_line(text);
    if contains(line.as_str(), "OK") {
        return Ok(());
    }
    let mut s = owned("SHOUTcast rejected the source: ");
    s.append(line.as_str());
    Err(s)
}

/// Whether the stream is open, by the head of a SHOUTcast answer.
pub fn icy_verdict(head: &[u8]) -> (r: Result<(), String>)
    ensures
        match r {
            Ok(_) => icy_fault(lossy_text(head@)) is None,
            Err(e) => icy_fault(lossy_text(head@)) == Some(e@),
        },
{
    let text = text_of_bytes(head);
    icy_text_verdict(text.as_str())
}

/// What came of an update of an Icecast title: the server answers with
/// success even where it refuses, so the body decides.
pub open spec fn title_fault(status: u16, body: Seq<char>) -> Option<Seq<char>> {
    if !succeeded(status) {
        Some("Icecast metadata update failed: HTTP "@ + dec(status as nat))
    } else if contains_text(body, "will not accept"@) {
        Some("Icecast refused the title update: "@ + trimmed(body))
    } else {
        None
    }
}

/// What came of an update of an Icecast title, by the text of the answer.
pub fn title_text_verdict(status: u16, body: &str) -> (r: Result<(), String>)
    ensures
        match r {
            Ok(_) => title_fault(status, body@) is None,
            Err(e) => title_fault(status, body@) == Some(e@),
        },
{
    if !(200 <= status && status < 300) {
        let mut s = owned("Icecast metadata update failed: HTTP ");
        push_dec(&mut s, status as u64);
        return Err(s);
    }
    if contains(body, "will not accept") {
        let mut s = owned("Icecast refused the title update: ");
        s.append(trim(body));
        return Err(s);
    }
    Ok(())
}

/// What came of an update of an Icecast title.
pub fn title_verdict(status: u16, body: &[u8]) -> (r: Result<(), String>)
    ensures
        match r {
            Ok(_) => title_fault(status, lossy_text(body@)) is None,
            Err(e) => title_fault(status, lossy_text(body@)) == Some(e@),
        },
{
    let text = text_of_bytes(body);
    title_text_verdict(status, text.as_str())
}

/// What the answer to an update of a SHOUTcast title complains of.
pub open spec fn icy_title_fault(answer: AnswerView) -> Option<Seq<char>> {
    if succeeded(answer.status) {
        None
    } else {
        Some(
            "SHOUTcast metadata update failed: HTTP "@ + dec(answer.status as nat) + " "@
                + answer.message,
        )
    }
}

/// What came of an update of a SHOUTcast title.
pub fn icy_title_verdict(answer: &Answer) -> (r: Result<(), String>)
    ensures
        match r {
            Ok(_) => icy_title_fault(answer@) is None,
            Err(e) => icy_title_fault(answer@) == Some(e@),
        },
{
    if 200 <= answer.status && answer.status < 300 {
        return Ok(());
    }
    let mut s = owned("SHOUTcast metadata update failed: HTTP ");
    push_dec(&mut s, answer.status as u64);
    s.append(" ");
    s.append(answer.message.as_str());
    Err(s)
}

// ---------------------------------------------------------------------------
// Laws
// ---------------------------------------------------------------------------

/// The value of an upper-case hexadecimal digit.
pub open spec fn upper_hex_value(c: char) -> int {
    if c <= '9' {
        c as int - 48
    } else {
        c as int - 55
    }
}

/// The bytes that a query stands for.
pub open spec fn percent_decoded(s: Seq<char>) -> Seq<u8>
    decreases s.len(),
{
    if s.len() == 0 {
        Seq::empty()
    } else if s[0] == '%' && s.len() >= 3 {
        seq![(upper_hex_value(s[1]) * 16 + upper_hex_value(s[2])) as u8] + percent_decoded(
            s.skip(3),
        )
    } else {
        seq![s[0] as u8] + percent_decoded(s.skip(1))
    }
}

/// Percent-encoding loses nothing: decoding gives the bytes back.
pub proof fn law_percent_reads_back(data: Seq<u8>)
    ensures
        percent_decoded(percent_encoded(data)) == data,
    decreases data.len(),
{
    if data.len() == 0 {
        assert(data =~= Seq::<u8>::empty());
    } else {
        let b = data[0];
        let rest = percent_encoded(data.skip(1));
        let all = percent_encoded(data);
        law_percent_reads_back(data.skip(1));
        assert(seq![b] + data.skip(1) =~= data);
        if is_unreserved(b) {
            assert(all[0] == b as char);
            assert(all.skip(1) =~= rest);
        } else {
            assert(all[0] == '%');
            assert(all[1] == upper_hex(b as int / 16));
            assert(all[2] == upper_hex(b as int % 16));
            assert(all.skip(3) =~= rest);
        }
    }
}

/// A character that may stand in a query without ending it or a parameter.
pub open spec fn is_query_char(c: char) -> bool {
    c == '%' || (c as u32 <= 127 && is_unreserved(c as u8))
}

/// What is percent-encoded holds no character that would end a parameter, the
/// query or the request line.
pub proof fn law_percent_is_confined(data: Seq<u8>)
    ensures
        forall|i: int|
            0 <= i < percent_encoded(data).len() ==> is_query_char(
                #[trigger] percent_encoded(data)[i],
            ),
    decreases data.len(),
{
    if data.len() > 0 {
        law_percent_is_confined(data.skip(1));
        let b = data[0];
        let head = percent_of(b);
        let rest = percent_encoded(data.skip(1));
        assert forall|i: int| 0 <= i < percent_encoded(data).len() implies is_query_char(
            #[trigger] percent_encoded(data)[i],
        ) by {
            if i < head.len() {
                assert(percent_encoded(data)[i] == head[i]);
            } else {
                assert(percent_encoded(data)[i] == rest[i - head.len()]);
            }
        }
    }
}

/// No format is sent that the protocol cannot carry, and every format that it
/// carries is sent.
pub proof fn law_formats(config: OutputConfig, sample_rate: u32, channels: u16)
    ensures
        opening(config, sample_rate, channels) is Ok <==> match config.protocol {
            OutputProtocol::Icecast => true,
            OutputProtocol::ShoutcastV1 => config.format == OutputFormat::Mp3,
            OutputProtocol::ShoutcastV2 => config.format != OutputFormat::Opus,
        },
{
}

/// The lines of a head, each ended by `end`, and the blank line behind them.
pub open spec fn head_text(lines: Seq<Seq<char>>, end: Seq<char>) -> Seq<char>
    decreases lines.len(),
{
    if lines.len() == 0 {
        end
    } else {
        lines[0] + end + head_text(lines.skip(1), end)
    }
}

/// A mount is opened by one request that names it, with the credentials of the
/// source, what it plays and in which form.
#[verifier::rlimit(60)]
pub proof fn law_source_request(config: OutputConfig, sample_rate: u32, channels: u16)
    ensures
        source_request_text(config, sample_rate, channels) == head_text(
            seq![
                "SOURCE "@ + config.mount@ + " HTTP/1.0"@,
                "Authorization: Basic "@ + crate::auth::base64_text(
                    vstd::utf8::encode_utf8(
                        config.source_user@ + ":"@ + config.source_password@,
                    ),
                ),
                "User-Agent: Crabsoup/0.1"@,
                "Content-Type: "@ + (match config.format {
                    OutputFormat::Mp3 => "audio/mpeg"@,
                    OutputFormat::Opus => "audio/ogg"@,
                    OutputFormat::Aac => "audio/aac"@,
                }),
                "ice-name: "@ + config.name@,
                "ice-description: "@ + config.description@,
                "ice-genre: "@ + config.genre@,
                "ice-audio-info: samplerate="@ + dec(sample_rate as nat) + ";channels="@ + dec(
                    channels as nat,
                ) + ";bitrate="@ + dec((config.bitrate / 1000) as nat),
                "ice-public: 0"@,
            ],
            "\r\n"@,
        ),
{
    let token = basic_token(config.source_user@, config.source_password@);
    let kind = content_type_of(config.format);
    let e = "\r\n"@;
    let info = "ice-audio-info: samplerate="@ + dec(sample_rate as nat) + ";channels="@ + dec(
        channels as nat,
    ) + ";bitrate="@ + dec((config.bitrate / 1000) as nat);
    let lines = seq![
        "SOURCE "@ + config.mount@ + " HTTP/1.0"@,
        "Authorization: Basic "@ + token,
        "User-Agent: Crabsoup/0.1"@,
        "Content-Type: "@ + kind,
        "ice-name: "@ + config.name@,
        "ice-description: "@ + config.description@,
        "ice-genre: "@ + config.genre@,
        info,
        "ice-public: 0"@,
    ];
    lemma_nine_lines(lines, e);
    lemma_source_literals();
    let first = "SOURCE "@ + config.mount@ + " HTTP/1.0"@;
    let p0 = first + e;
    let t0 = "SOURCE "@ + config.mount@ + (" HTTP/1.0"@ + e + "Authorization: Basic "@);
    assert(t0 =~= p0 + "Authorization: Basic "@);
    let p1 = p0 + ("Authorization: Basic "@ + token) + e;
    let ua = "User-Agent: Crabsoup/0.1"@;
    let p2 = p1 + ua + e;
    lemma_two_lines(p0, "Authorization: Basic "@, token, e, ua, "Content-Type: "@);
    lemma_next_line(p2, "Content-Type: "@, kind, e, "ice-name: "@);
    let p3 = p2 + ("Content-Type: "@ + kind) + e;
    lemma_next_line(p3, "ice-name: "@, config.name@, e, "ice-description: "@);
    let p4 = p3 + ("ice-name: "@ + config.name@) + e;
    lemma_next_line(p4, "ice-description: "@, config.description@, e, "ice-genre: "@);
    let p5 = p4 + ("ice-description: "@ + config.description@) + e;
    lemma_next_line(p5, "ice-genre: "@, config.genre@, e, "ice-audio-info: samplerate="@);
    let p6 = p5 + ("ice-genre: "@ + config.genre@) + e;
    let rate = dec(sample_rate as nat);
    let chans = dec(channels as nat);
    let bits = dec((config.bitrate / 1000) as nat);
    let ia = "ice-audio-info: samplerate="@;
    assert(p6 + ia + rate + ";channels="@ + chans + ";bitrate="@ + bits =~= p6 + info);
    let p7 = p6 + info + e;
    let last = "ice-public: 0"@;
    assert(p6 + info + (e + last + e + e) =~= p7 + last + e + e);
    assert(source_request_text(config, sample_rate, channels) == p7 + last + e + e);
    let r8 = last + e + e;
    lemma_regroup(p7, last, e, e);
    lemma_regroup(p6, info, e, r8);
    let r7 = info + e + r8;
    lemma_regroup(p5, lines[6], e, r7);
    let r6 = lines[6] + e + r7;
    lemma_regroup(p4, lines[5], e, r6);
    let r5 = lines[5] + e + r6;
    lemma_regroup(p3, lines[4], e, r5);
    let r4 = lines[4] + e + r5;
    lemma_regroup(p2, lines[3], e, r4);
    let r3 = lines[3] + e + r4;
    lemma_regroup(p1, ua, e, r3);
    let r2 = ua + e + r3;
    lemma_regroup(p0, lines[1], e, r2);
}

/// The end of a line in front of the next one.
proof fn lemma_next_line(p: Seq<char>, a: Seq<char>, x: Seq<char>, e: Seq<char>, b: Seq<char>)
    ensures
        p + a + x + (e + b) == p + (a + x) + e + b,
{
    assert(p + a + x + (e + b) =~= p + (a + x) + e + b);
}

proof fn lemma_two_lines(
    p: Seq<char>,
    a: Seq<char>,
    x: Seq<char>,
    e: Seq<char>,
    u: Seq<char>,
    b: Seq<char>,
)
    ensures
        p + a + x + (e + u + e + b) == p + (a + x) + e + u + e + b,
{
    assert(p + a + x + (e + u + e + b) =~= p + (a + x) + e + u + e + b);
}

proof fn lemma_regroup(p: Seq<char>, l: Seq<char>, e: Seq<char>, r: Seq<char>)
    ensures
        p + l + e + r == p + (l + e + r),
{
    assert(p + l + e + r =~= p + (l + e + r));
}

proof fn lemma_nine_lines(l: Seq<Seq<char>>, e: Seq<char>)
    requires
        l.len() == 9,
    ensures
        head_text(l, e) == l[0] + e + (l[1] + e + (l[2] + e + (l[3] + e + (l[4] + e + (l[5] + e + (
        l[6] + e + (l[7] + e + (l[8] + e + e)))))))),
{
    reveal_with_fuel(head_text, 10);
    assert(l.skip(1).skip(1).skip(1).skip(1).skip(1).skip(1).skip(1).skip(1).skip(1).len() == 0);
}

proof fn lemma_source_literals()
    ensures
        " HTTP/1.0\r\nAuthorization: Basic "@ == " HTTP/1.0"@ + "\r\n"@ + "Authorization: Basic "@,
        "\r\nUser-Agent: Crabsoup/0.1\r\nContent-Type: "@ == "\r\n"@ + "User-Agent: Crabsoup/0.1"@
            + "\r\n"@ + "Content-Type: "@,
        "\r\nice-name: "@ == "\r\n"@ + "ice-name: "@,
        "\r\nice-description: "@ == "\r\n"@ + "ice-description: "@,
        "\r\nice-genre: "@ == "\r\n"@ + "ice-genre: "@,
        "\r\nice-audio-info: samplerate="@ == "\r\n"@ + "ice-audio-info: samplerate="@,
        "\r\nice-public: 0\r\n\r\n"@ == "\r\n"@ + "ice-public: 0"@ + "\r\n"@ + "\r\n"@,
{
    reveal_strlit("\r\n");
    reveal_strlit(" HTTP/1.0");
    reveal_strlit("Authorization: Basic ");
    reveal_strlit(" HTTP/1.0\r\nAuthorization: Basic ");
    assert(" HTTP/1.0\r\nAuthorization: Basic "@ =~= " HTTP/1.0"@ + "\r\n"@
        + "Authorization: Basic "@);
    reveal_strlit("\r\nUser-Agent: Crabsoup/0.1\r\nContent-Type: ");
    reveal_strlit("User-Agent: Crabsoup/0.1");
    reveal_strlit("Content-Type: ");
    assert("\r\nUser-Agent: Crabsoup/0.1\r\nContent-Type: "@ =~= "\r\n"@
        + "User-Agent: Crabsoup/0.1"@ + "\r\n"@ + "Content-Type: "@);
    reveal_strlit("\r\nice-name: ");
    reveal_strlit("ice-name: ");
    assert("\r\nice-name: "@ =~= "\r\n"@ + "ice-name: "@);
    reveal_strlit("\r\nice-description: ");
    reveal_strlit("ice-description: ");
    assert("\r\nice-description: "@ =~= "\r\n"@ + "ice-description: "@);
    reveal_strlit("\r\nice-genre: ");
    reveal_strlit("ice-genre: ");
    assert("\r\nice-genre: "@ =~= "\r\n"@ + "ice-genre: "@);
    reveal_strlit("\r\nice-audio-info: samplerate=");
    reveal_strlit("ice-audio-info: samplerate=");
    assert("\r\nice-audio-info: samplerate="@ =~= "\r\n"@ + "ice-audio-info: samplerate="@);
    reveal_strlit("\r\nice-public: 0\r\n\r\n");
    reveal_strlit("ice-public: 0");
    assert("\r\nice-public: 0\r\n\r\n"@ =~= "\r\n"@ + "ice-public: 0"@ + "\r\n"@ + "\r\n"@);
}

/// A SHOUTcast stream is opened by its password on a line of its own, and what
/// it plays behind it. The second version tells the stream that the mount
/// names behind the password; the first knows one stream only.
#[verifier::rlimit(40)]
pub proof fn law_icy_request(config: OutputConfig, sample_rate: u32, n: u32)
    ensures
        ({
            let rest = seq![
                "icy-name: "@ + config.name@,
                "icy-pub: 0"@,
                "icy-genre: "@ + config.genre@,
                "icy-br: "@ + dec((config.bitrate / 1000) as nat),
                "icy-sr: "@ + dec(sample_rate as nat),
            ];
            let plain = head_text(seq![config.source_password@] + rest, "\n"@);
            &&& icy_request_text(config, sample_rate, false) == plain
            &&& config.mount@ == "/stream/"@ + dec(n as nat) ==> icy_request_text(
                config,
                sample_rate,
                true,
            ) == head_text(seq![config.source_password@ + ":#"@ + dec(n as nat)] + rest, "\n"@)
            &&& !has_prefix(config.mount@, "/stream/"@) ==> icy_request_text(
                config,
                sample_rate,
                true,
            ) == plain
        }),
{
    crate::text::law_dec_reads_back(n as nat, u32::MAX as nat);
    let m = "/stream/"@ + dec(n as nat);
    assert(m.take("/stream/"@.len() as int) =~= "/stream/"@);
    assert(m.skip("/stream/"@.len() as int) =~= dec(n as nat));
    lemma_icy_lines(config, sample_rate, icy_password(config, true));
    lemma_icy_lines(config, sample_rate, icy_password(config, false));
}

proof fn lemma_icy_lines(config: OutputConfig, sample_rate: u32, p: Seq<char>)
    ensures
        p + "\nicy-name: "@ + config.name@ + "\nicy-pub: 0\nicy-genre: "@ + config.genre@
            + "\nicy-br: "@ + dec((config.bitrate / 1000) as nat) + "\nicy-sr: "@ + dec(
            sample_rate as nat,
        ) + "\n\n"@ == head_text(
            seq![p] + seq![
                "icy-name: "@ + config.name@,
                "icy-pub: 0"@,
                "icy-genre: "@ + config.genre@,
                "icy-br: "@ + dec((config.bitrate / 1000) as nat),
                "icy-sr: "@ + dec(sample_rate as nat),
            ],
            "\n"@,
        ),
{
    let e = "\n"@;
    reveal_strlit("\n");
    reveal_strlit("\n\n");
    reveal_strlit("\nicy-name: ");
    reveal_strlit("icy-name: ");
    reveal_strlit("\nicy-pub: 0\nicy-genre: ");
    reveal_strlit("icy-pub: 0");
    reveal_strlit("icy-genre: ");
    reveal_strlit("\nicy-br: ");
    reveal_strlit("icy-br: ");
    reveal_strlit("\nicy-sr: ");
    reveal_strlit("icy-sr: ");
    assert("\nicy-name: "@ =~= e + "icy-name: "@);
    assert("\nicy-pub: 0\nicy-genre: "@ =~= e + "icy-pub: 0"@ + e + "icy-genre: "@);
    assert("\nicy-br: "@ =~= e + "icy-br: "@);
    assert("\nicy-sr: "@ =~= e + "icy-sr: "@);
    assert("\n\n"@ =~= e + e);
    let l = seq![p] + seq![
        "icy-name: "@ + config.name@,
        "icy-pub: 0"@,
        "icy-genre: "@ + config.genre@,
        "icy-br: "@ + dec((config.bitrate / 1000) as nat),
        "icy-sr: "@ + dec(sample_rate as nat),
    ];
    reveal_with_fuel(head_text, 7);
    assert(l.skip(1).skip(1).skip(1).skip(1).skip(1).skip(1).len() == 0);
    assert(head_text(l, e) == l[0] + e + (l[1] + e + (l[2] + e + (l[3] + e + (l[4] + e + (l[5] + e
        + e))))));
    assert(p + (e + "icy-name: "@) + config.name@ + (e + "icy-pub: 0"@ + e + "icy-genre: "@)
        + config.genre@ + (e + "icy-br: "@) + dec((config.bitrate / 1000) as nat) + (e
        + "icy-sr: "@) + dec(sample_rate as nat) + (e + e) =~= l[0] + e + (l[1] + e + (l[2] + e + (
    l[3] + e + (l[4] + e + (l[5] + e + e))))));
}

/// A title is set where its stream is heard: the query of the request names
/// the mount and the title (for SHOUTcast the password and the title), byte
/// for byte and whatever they hold, and the request is authorised.
#[verifier::rlimit(60)]
pub proof fn law_title_requests(config: OutputConfig, title: Seq<char>)
    ensures
        ({
            let mount = percent_encoded(vstd::utf8::encode_utf8(config.mount@));
            let pass = percent_encoded(vstd::utf8::encode_utf8(config.source_password@));
            let song = percent_encoded(vstd::utf8::encode_utf8(title));
            let query = seq![
                "mode=updinfo"@,
                "charset=UTF-8"@,
                "mount="@ + mount,
                "song="@ + song,
            ];
            let icy_query = seq!["mode=updinfo"@, "pass="@ + pass, "song="@ + song];
            let host = "Host: "@ + config.host@ + ":"@ + dec(config.port as nat);
            &&& percent_decoded(mount) == vstd::utf8::encode_utf8(config.mount@)
            &&& percent_decoded(pass) == vstd::utf8::encode_utf8(config.source_password@)
            &&& percent_decoded(song) == vstd::utf8::encode_utf8(title)
            &&& title_request_text(config, title) == head_text(
                seq![
                    "GET /admin/metadata?"@ + crate::text::joined_by(query, '&') + " HTTP/1.1"@,
                    host,
                    "User-Agent: Crabsoup/0.1"@,
                    "Authorization: Basic "@ + crate::auth::base64_text(
                        vstd::utf8::encode_utf8(
                            config.source_user@ + ":"@ + config.source_password@,
                        ),
                    ),
                ],
                "\r\n"@,
            )
            &&& icy_title_request_text(config, title) == head_text(
                seq![
                    "GET /admin.cgi?"@ + crate::text::joined_by(icy_query, '&') + " HTTP/1.1"@,
                    host,
                    "User-Agent: Crabsoup/0.1"@,
                ],
                "\r\n"@,
            )
            &&& split_all(crate::text::joined_by(query, '&'), '&') == query
            &&& split_all(crate::text::joined_by(icy_query, '&'), '&') == icy_query
        }),
{
    let mount = percent_encoded(vstd::utf8::encode_utf8(config.mount@));
    let pass = percent_encoded(vstd::utf8::encode_utf8(config.source_password@));
    let song = percent_encoded(vstd::utf8::encode_utf8(title));
    law_percent_reads_back(vstd::utf8::encode_utf8(config.mount@));
    law_percent_reads_back(vstd::utf8::encode_utf8(config.source_password@));
    law_percent_reads_back(vstd::utf8::encode_utf8(title));
    lemma_parameter("mount="@, vstd::utf8::encode_utf8(config.mount@));
    lemma_parameter("pass="@, vstd::utf8::encode_utf8(config.source_password@));
    lemma_parameter("song="@, vstd::utf8::encode_utf8(title));
    reveal_strlit("mode=updinfo");
    reveal_strlit("charset=UTF-8");
    reveal_strlit("mount=");
    reveal_strlit("song=");
    reveal_strlit("pass=");
    reveal_strlit("&song=");
    let query = seq!["mode=updinfo"@, "charset=UTF-8"@, "mount="@ + mount, "song="@ + song];
    let icy_query = seq!["mode=updinfo"@, "pass="@ + pass, "song="@ + song];
    crate::text::law_split_reads_back(query, '&');
    crate::text::law_split_reads_back(icy_query, '&');
    lemma_join_four(query);
    lemma_join_three(icy_query);
    let amp = seq!['&'];
    assert("&song="@ =~= amp + "song="@);
    lemma_title_literals();
    let e = "\r\n"@;
    let token = basic_token(config.source_user@, config.source_password@);
    let port = dec(config.port as nat);
    lemma_title_lines(
        "GET /admin/metadata?"@,
        crate::text::joined_by(query, '&'),
        config.host@,
        port,
        "Authorization: Basic "@ + token,
        e,
    );
    let g = "GET /admin/metadata?"@;
    let m = "mode=updinfo"@;
    let c = "charset=UTF-8"@;
    assert(g + m + amp + c + amp + "mount="@ + mount + (amp + "song="@) + song =~= g + (m + amp + c
        + amp + ("mount="@ + mount) + amp + ("song="@ + song)));
    let ua = "User-Agent: Crabsoup/0.1"@;
    let ab = "Authorization: Basic "@;
    let head = g + crate::text::joined_by(query, '&') + (" HTTP/1.1"@ + e + "Host: "@)
        + config.host@ + ":"@ + port;
    assert(head + (e + ua + e + ab) + token + (e + e) =~= head + (e + ua + e + (ab + token) + e
        + e));
    let g = "GET /admin.cgi?"@;
    assert(g + m + amp + "pass="@ + pass + (amp + "song="@) + song =~= g + (m + amp + ("pass="@
        + pass) + amp + ("song="@ + song)));
    lemma_title_lines(
        g,
        crate::text::joined_by(icy_query, '&'),
        config.host@,
        port,
        Seq::empty(),
        e,
    );
}

/// A request of three lines, or of four.
proof fn lemma_title_lines(
    g: Seq<char>,
    q: Seq<char>,
    host: Seq<char>,
    port: Seq<char>,
    auth: Seq<char>,
    e: Seq<char>,
)
    ensures
        g + q + (" HTTP/1.1"@ + e + "Host: "@) + host + ":"@ + port + (e
            + "User-Agent: Crabsoup/0.1"@ + e + auth + e + e) == head_text(
            seq![
                g + q + " HTTP/1.1"@,
                "Host: "@ + host + ":"@ + port,
                "User-Agent: Crabsoup/0.1"@,
                auth,
            ],
            e,
        ),
        g + q + (" HTTP/1.1"@ + e + "Host: "@) + host + ":"@ + port + (e
            + "User-Agent: Crabsoup/0.1"@ + e + e) == head_text(
            seq![
                g + q + " HTTP/1.1"@,
                "Host: "@ + host + ":"@ + port,
                "User-Agent: Crabsoup/0.1"@,
            ],
            e,
        ),
{
    let h = " HTTP/1.1"@;
    let ua = "User-Agent: Crabsoup/0.1"@;
    let l0 = g + q + h;
    let l1 = "Host: "@ + host + ":"@ + port;
    reveal_with_fuel(head_text, 5);
    let l = seq![l0, l1, ua, auth];
    assert(l.skip(1).skip(1).skip(1).skip(1).len() == 0);
    assert(head_text(l, e) == l0 + e + (l1 + e + (ua + e + (auth + e + e))));
    let k = seq![l0, l1, ua];
    assert(k.skip(1).skip(1).skip(1).len() == 0);
    assert(head_text(k, e) == l0 + e + (l1 + e + (ua + e + e)));
    let front = g + q + (h + e + "Host: "@) + host + ":"@ + port;
    assert(front =~= l0 + e + l1);
    let p = l0 + e;
    assert(p + l1 + (e + ua + e + auth + e + e) =~= p + (l1 + e + (ua + e + (auth + e + e))));
    assert(p + l1 + (e + ua + e + e) =~= p + (l1 + e + (ua + e + e)));
}

proof fn lemma_title_literals()
    ensures
        "GET /admin/metadata?mode=updinfo&charset=UTF-8&mount="@ == "GET /admin/metadata?"@
            + "mode=updinfo"@ + seq!['&'] + "charset=UTF-8"@ + seq!['&'] + "mount="@,
        "GET /admin.cgi?mode=updinfo&pass="@ == "GET /admin.cgi?"@ + "mode=updinfo"@ + seq!['&']
            + "pass="@,
        " HTTP/1.1\r\nHost: "@ == " HTTP/1.1"@ + "\r\n"@ + "Host: "@,
        "\r\nUser-Agent: Crabsoup/0.1\r\nAuthorization: Basic "@ == "\r\n"@
            + "User-Agent: Crabsoup/0.1"@ + "\r\n"@ + "Authorization: Basic "@,
        "\r\nUser-Agent: Crabsoup/0.1\r\n\r\n"@ == "\r\n"@ + "User-Agent: Crabsoup/0.1"@
            + "\r\n"@ + "\r\n"@,
        "\r\n\r\n"@ == "\r\n"@ + "\r\n"@,
{
    reveal_strlit("\r\n");
    reveal_strlit("\r\n\r\n");
    reveal_strlit("mode=updinfo");
    reveal_strlit("charset=UTF-8");
    reveal_strlit("mount=");
    reveal_strlit("pass=");
    reveal_strlit("GET /admin/metadata?");
    reveal_strlit("GET /admin.cgi?");
    reveal_strlit("GET /admin/metadata?mode=updinfo&charset=UTF-8&mount=");
    assert("GET /admin/metadata?mode=updinfo&charset=UTF-8&mount="@ =~= "GET /admin/metadata?"@
        + "mode=updinfo"@ + seq!['&'] + "charset=UTF-8"@ + seq!['&'] + "mount="@);
    reveal_strlit("GET /admin.cgi?mode=updinfo&pass=");
    assert("GET /admin.cgi?mode=updinfo&pass="@ =~= "GET /admin.cgi?"@ + "mode=updinfo"@
        + seq!['&'] + "pass="@);
    reveal_strlit(" HTTP/1.1");
    reveal_strlit("Host: ");
    reveal_strlit(" HTTP/1.1\r\nHost: ");
    assert(" HTTP/1.1\r\nHost: "@ =~= " HTTP/1.1"@ + "\r\n"@ + "Host: "@);
    reveal_strlit("User-Agent: Crabsoup/0.1");
    reveal_strlit("Authorization: Basic ");
    reveal_strlit("\r\nUser-Agent: Crabsoup/0.1\r\nAuthorization: Basic ");
    assert("\r\nUser-Agent: Crabsoup/0.1\r\nAuthorization: Basic "@ =~= "\r\n"@
        + "User-Agent: Crabsoup/0.1"@ + "\r\n"@ + "Authorization: Basic "@);
    reveal_strlit("\r\nUser-Agent: Crabsoup/0.1\r\n\r\n");
    assert("\r\nUser-Agent: Crabsoup/0.1\r\n\r\n"@ =~= "\r\n"@ + "User-Agent: Crabsoup/0.1"@
        + "\r\n"@ + "\r\n"@);
    assert("\r\n\r\n"@ =~= "\r\n"@ + "\r\n"@);
}

proof fn lemma_join_four(q: Seq<Seq<char>>)
    requires
        q.len() == 4,
    ensures
        crate::text::joined_by(q, '&') == q[0] + seq!['&'] + q[1] + seq!['&'] + q[2] + seq!['&']
            + q[3],
{
    reveal_with_fuel(crate::text::joined_by, 5);
    assert(q.drop_last().drop_last().drop_last().len() == 1);
}

proof fn lemma_join_three(q: Seq<Seq<char>>)
    requires
        q.len() == 3,
    ensures
        crate::text::joined_by(q, '&') == q[0] + seq!['&'] + q[1] + seq!['&'] + q[2],
{
    reveal_with_fuel(crate::text::joined_by, 4);
    assert(q.drop_last().drop_last().len() == 1);
}

proof fn lemma_parameter(name: Seq<char>, data: Seq<u8>)
    requires
        name == "mount="@ || name == "pass="@ || name == "song="@,
    ensures
        forall|i: int|
            0 <= i < (name + percent_encoded(data)).len() ==> #[trigger] (name + percent_encoded(
                data,
            ))[i] != '&',
{
    law_percent_is_confined(data);
    reveal_strlit("mount=");
    reveal_strlit("pass=");
    reveal_strlit("song=");
    let t = name + percent_encoded(data);
    assert forall|i: int| 0 <= i < t.len() implies #[trigger] t[i] != '&' by {
        if i >= name.len() {
            assert(is_query_char(percent_encoded(data)[i - name.len()]));
        }
    }
}

/// An answer is understood: its code, its reason, and the bodies that its
/// headers announce.
pub proof fn law_answers_are_read(
    version: Seq<char>,
    code: u16,
    reason: Seq<char>,
    headers: Seq<Seq<char>>,
)
    requires
        headers.len() > 0,
        forall|i: int| 0 <= i < version.len() ==> #[trigger] version[i] != ' ' && version[i] != '\n',
        forall|i: int| 0 <= i < reason.len() ==> #[trigger] reason[i] != '\n',
        reason.len() > 0 ==> !crate::text::is_space(reason[0]) && !crate::text::is_space(
            reason.last(),
        ),
        forall|i: int, k: int|
            0 <= i < headers.len() && 0 <= k < headers[i].len() ==> #[trigger] headers[i][k]
                != '\n',
    ensures
        answer_of(
            crate::text::joined_by(
                seq![version + seq![' '] + dec(code as nat) + seq![' '] + reason + seq!['\r']]
                    + headers,
                '\n',
            ),
        ) == (AnswerView { status: code, message: reason, bodies: announced_bodies(headers) }),
{
    let rest = dec(code as nat) + seq![' '] + reason;
    let line = version + seq![' '] + rest;
    let first = version + seq![' '] + dec(code as nat) + seq![' '] + reason + seq!['\r'];
    assert(first =~= line + seq!['\r']);
    let all = seq![first] + headers;
    let text = crate::text::joined_by(all, '\n');
    crate::text::lemma_dec_is_numeric(code as nat);
    assert forall|i: int, k: int| 0 <= i < all.len() && 0 <= k < all[i].len() implies
        #[trigger] all[i][k] != '\n' by {
        if i > 0 {
            assert(headers[i - 1][k] != '\n');
        } else {
            let a = version.len() as int;
            let b = a + 1 + dec(code as nat).len();
            if k < a {
                assert(version[k] != '\n');
            } else if a < k < b {
                assert(dec(code as nat)[k - a - 1] != '\n');
            } else if b < k < b + 1 + reason.len() {
                assert(reason[k - b - 1] != '\n');
            }
        }
    }
    crate::text::law_split_reads_back(all, '\n');
    let i = crate::text::find_from(text, '\n', 0);
    assert(split_all(text, '\n')[0] == first);
    assert(split_first(text, '\n') matches Some((l, _)) && l == first);
    assert(first.last() == '\r');
    assert(first.drop_last() =~= line);
    assert(first_line_of(text) == line);
    assert forall|k: int| 0 <= k < version.len() implies #[trigger] version[k] != ' ' by {
    }
    crate::text::lemma_split_first_at(version, ' ', rest);
    assert forall|k: int| 0 <= k < dec(code as nat).len() implies #[trigger] dec(code as nat)[k]
        != ' ' by {
    }
    crate::text::lemma_split_first_at(dec(code as nat), ' ', reason);
    crate::text::law_dec_reads_back(code as nat, u16::MAX as nat);
    let e = Seq::<char>::empty();
    crate::text::law_trim_takes_off_white_space(e, reason, e);
    assert(e + reason + e =~= reason);
    assert(all.skip(1) =~= headers);
}

/// A header announces a body by its length, in any case and with any white
/// space; nothing else does, and an empty body is none. The bodies are read in
/// the order of their headers.
pub proof fn law_bodies_are_announced(
    lines: Seq<Seq<char>>,
    key: Seq<char>,
    gap: Seq<char>,
    n: usize,
    end: Seq<char>,
)
    requires
        key.len() > 0,
        !crate::text::is_space(key[0]) && !crate::text::is_space(key.last()),
        forall|i: int| 0 <= i < key.len() ==> #[trigger] key[i] != ':',
        crate::text::all_space(gap) && crate::text::all_space(end),
    ensures
        ({
            let line = key + seq![':'] + gap + dec(n as nat) + end;
            let before = announced_bodies(lines);
            announced_bodies(lines.push(line)) == if lowered(key) == lowered("Content-Length"@) && n
                > 0 {
                before.push(n)
            } else {
                before
            }
        }),
{
    let line = key + seq![':'] + gap + dec(n as nat) + end;
    let rest = gap + dec(n as nat) + end;
    assert(line =~= key + seq![':'] + rest);
    crate::text::lemma_split_first_at(key, ':', rest);
    crate::text::lemma_dec_is_numeric(n as nat);
    let d = dec(n as nat);
    assert(!crate::text::is_space(d[0]) && !crate::text::is_space(d[d.len() - 1]));
    crate::text::law_trim_takes_off_white_space(gap, d, end);
    let e = Seq::<char>::empty();
    crate::text::law_trim_takes_off_white_space(e, key, e);
    assert(e + key + e =~= key);
    crate::text::law_dec_reads_back(n as nat, usize::MAX as nat);
    reveal_strlit("content-length");
    reveal_strlit("Content-Length");
    assert(lowered("content-length"@) =~= lowered("Content-Length"@));
    assert(lines.push(line).drop_last() =~= lines);
}

/// A mount or a title is accepted by every code from 200 to 299 and refused by
/// any other, with the code told; Icecast may refuse a title in the body of an
/// answer that says success; SHOUTcast accepts a source in its first line.
pub proof fn law_verdicts(mount: Seq<char>, a: AnswerView, body: Seq<char>, text: Seq<char>)
    ensures
        source_fault(mount, a) is None <==> a.status / 100 == 2,
        source_fault(mount, a) matches Some(m) ==> contains_text(
            m,
            mount + ": HTTP "@ + dec(a.status as nat) + " "@ + a.message,
        ),
        icy_title_fault(a) is None <==> a.status / 100 == 2,
        icy_title_fault(a) matches Some(m) ==> contains_text(
            m,
            "HTTP "@ + dec(a.status as nat) + " "@ + a.message,
        ),
        title_fault(a.status, body) is None <==> a.status / 100 == 2 && !contains_text(
            body,
            "will not accept"@,
        ),
        a.status / 100 != 2 ==> (title_fault(a.status, body) matches Some(m) && contains_text(
            m,
            "HTTP "@ + dec(a.status as nat),
        )),
        a.status / 100 == 2 ==> (title_fault(a.status, body) matches Some(m) ==> contains_text(
            m,
            trimmed(body),
        )),
        icy_fault(text) is None <==> contains_text(first_line_of(text), "OK"@),
        icy_fault(text) matches Some(m) ==> contains_text(m, first_line_of(text)),
{
    let d = dec(a.status as nat);
    let w = mount + ": HTTP "@ + d + " "@ + a.message;
    lemma_held("Icecast rejected source on "@, w);
    lemma_five("Icecast rejected source on "@, mount, ": HTTP "@, d, " "@, a.message);
    lemma_told("SHOUTcast metadata update failed: "@, "HTTP "@, d, " "@ + a.message);
    lemma_told("Icecast metadata update failed: "@, "HTTP "@, d, Seq::empty());
    assert(d + Seq::<char>::empty() =~= d);
    lemma_http_literals();
    let sp = "SHOUTcast metadata update failed: HTTP "@;
    assert(sp + d + (" "@ + a.message) =~= sp + d + " "@ + a.message);
    assert("HTTP "@ + d + (" "@ + a.message) =~= "HTTP "@ + d + " "@ + a.message);
    let ip = "Icecast metadata update failed: HTTP "@;
    assert(ip + d + Seq::<char>::empty() =~= ip + d);
    assert("HTTP "@ + d + Seq::<char>::empty() =~= "HTTP "@ + d);
    lemma_held("Icecast refused the title update: "@, trimmed(body));
    lemma_held("SHOUTcast rejected the source: "@, first_line_of(text));
}

proof fn lemma_five(
    p: Seq<char>,
    a: Seq<char>,
    b: Seq<char>,
    c: Seq<char>,
    d: Seq<char>,
    e: Seq<char>,
)
    ensures
        p + (a + b + c + d + e) == p + a + b + c + d + e,
{
    assert(p + (a + b + c + d + e) =~= p + a + b + c + d + e);
}

proof fn lemma_told(p: Seq<char>, h: Seq<char>, d: Seq<char>, m: Seq<char>)
    ensures
        contains_text(p + h + d + m, h + d + m),
{
    lemma_regroup(p, h, d, m);
    lemma_held(p, h + d + m);
}

proof fn lemma_http_literals()
    ensures
        "SHOUTcast metadata update failed: HTTP "@ == "SHOUTcast metadata update failed: "@
            + "HTTP "@,
        "Icecast metadata update failed: HTTP "@ == "Icecast metadata update failed: "@ + "HTTP "@,
{
    reveal_strlit("HTTP ");
    reveal_strlit("SHOUTcast metadata update failed: HTTP ");
    reveal_strlit("SHOUTcast metadata update failed: ");
    reveal_strlit("Icecast metadata update failed: HTTP ");
    reveal_strlit("Icecast metadata update failed: ");
    assert("SHOUTcast metadata update failed: HTTP "@ =~= "SHOUTcast metadata update failed: "@
        + "HTTP "@);
    assert("Icecast metadata update failed: HTTP "@ =~= "Icecast metadata update failed: "@
        + "HTTP "@);
}

proof fn lemma_held(a: Seq<char>, t: Seq<char>)
    ensures
        contains_text(a + t, t),
{
    let s = a + t;
    assert(s.subrange(a.len() as int, a.len() as int + t.len()) =~= t);
}

/// A head is read up to its first blank line; SHOUTcast may end its lines with
/// a line feed alone.
pub proof fn law_heads_are_read_to_their_end(buf: Seq<u8>)
    ensures
        head_is_over(buf + seq![13u8, 10, 13, 10]),
        icy_head_is_over(buf + seq![13u8, 10, 13, 10]),
        icy_head_is_over(buf + seq![10u8, 10]),
        buf.len() < 65_536 && (buf.len() < 4 || buf[buf.len() - 1] != 10 || buf[buf.len() - 2] != 13
            || buf[buf.len() - 3] != 10 || buf[buf.len() - 4] != 13) ==> !head_is_over(buf),
        buf.len() < 65_536 && (buf.len() < 2 || buf[buf.len() - 1] != 10 || (buf[buf.len() - 2]
            != 10 && (buf.len() < 4 || buf[buf.len() - 2] != 13 || buf[buf.len() - 3] != 10
            || buf[buf.len() - 4] != 13))) ==> !icy_head_is_over(buf),
        buf.len() >= 65_536 ==> head_is_over(buf) && icy_head_is_over(buf),
{
    let a = buf + seq![13u8, 10, 13, 10];
    assert(a.skip(a.len() - 4) =~= seq![13u8, 10, 13, 10]);
    let b = buf + seq![10u8, 10];
    assert(b.skip(b.len() - 2) =~= seq![10u8, 10]);
    if buf.len() >= 4 {
        let t = buf.skip(buf.len() - 4);
        assert(t[0] == buf[buf.len() - 4] && t[1] == buf[buf.len() - 3] && t[2] == buf[buf.len()
            - 2] && t[3] == buf[buf.len() - 1]);
    }
    if buf.len() >= 2 {
        let t = buf.skip(buf.len() - 2);
        assert(t[0] == buf[buf.len() - 2] && t[1] == buf[buf.len() - 1]);
    }
}

} // verus!
