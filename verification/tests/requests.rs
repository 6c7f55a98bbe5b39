use crabsoup::http::{
    chunk_size, chunk_size_field, fetch_fault_message, get_request, parse_status_line,
    plan_text_body, post_request, post_verdict, text_of_body, url_fault_message,
    validate_relay_url, BodyFrame, BodyNeed, BodyReader, ChunkBudget, ChunkStep, Fetch,
    FetchFault, FetchStep, HttpUrl, ResponseHead, Scheme, SizeLine, TextFault, TextPlan,
    UrlFault,
};
use crabsoup::order::order_text;
use crabsoup::request::{
    cue_plan, decibel_text, file_stem, hash_url, scan_annotate, temp_name, Download,
    Reading, RequestConfig, RequestUri, TrackCues,
};
use std::cmp::Ordering;

/// The linear factor of a number of decibels.
fn db_to_gain(db: f32) -> f32 {
    10f32.powf(db / 20.0)
}

/// Reads the numbers of the annotations and makes the request.
fn request(uri: &str) -> RequestUri {
    let readings: Vec<Reading> = match scan_annotate(uri) {
        None => Vec::new(),
        Some(a) => a
            .fields
            .iter()
            .map(|f| Reading {
                number: f.value.parse::<f64>().ok().map(f64::to_bits),
                decibels: decibel_text(&f.value).and_then(|t| {
                    let db = t.parse::<f64>().ok()?;
                    Some((db.to_bits(), (db_to_gain(db as f32) as f64).to_bits()))
                }),
            })
            .collect(),
    };
    RequestUri::new(uri, &readings)
}

fn bits(v: f64) -> u64 {
    v.to_bits()
}

fn cues() -> TrackCues {
    TrackCues::default()
}

#[test]
fn request_uri_classifies_and_displays() {
    assert_eq!(
        request("internal/media/a.mp3"),
        RequestUri::Local("internal/media/a.mp3".into(), None)
    );
    assert_eq!(
        request("http://x.example/track.mp3"),
        RequestUri::Url("http://x.example/track.mp3".into(), None)
    );
    assert_eq!(
        request("https://x.example/track.mp3"),
        RequestUri::Url("https://x.example/track.mp3".into(), None)
    );
    assert_eq!(request("https://x.example/track.mp3").display(), "track.mp3");
    assert_eq!(request("http://x.example/track.mp3").display(), "track.mp3");
    assert_eq!(request("internal/media/a.mp3").display(), "a");
    assert_eq!(request("http://x.example/track.mp3?token=1").display(), "track.mp3");
    assert_eq!(request("http://x.example/d/track.mp3?u=/b").display(), "track.mp3");
    assert_eq!(request("http://x.example/?a").display(), "http://x.example/?a");
}

#[test]
fn annotate_prefix_parses_cue_points_and_strips_to_the_uri() {
    let uri = request("annotate:cue_in=\"30\",cue_out=\"180\":internal/media/a.mp3");
    assert_eq!(
        uri,
        RequestUri::Local(
            "internal/media/a.mp3".into(),
            Some(TrackCues {
                cue_in: bits(30.0),
                cue_out: Some(bits(180.0)),
                ..cues()
            })
        )
    );
    assert_eq!(uri.raw(), "internal/media/a.mp3");
    assert_eq!(uri.display(), "a");
}

#[test]
fn annotate_prefix_handles_http_uris_and_ignores_unknown_keys() {
    let uri = request("annotate:genre=\"intro\",cue_in=\"5\":http://x.example/track.mp3");
    assert_eq!(
        uri,
        RequestUri::Url(
            "http://x.example/track.mp3".into(),
            Some(TrackCues { cue_in: bits(5.0), ..cues() })
        )
    );
}

#[test]
fn annotate_title_parses_into_cues_even_when_numeric() {
    let uri = request("annotate:title=\"Lea\":http://x.example/track.mp3");
    assert_eq!(
        uri,
        RequestUri::Url(
            "http://x.example/track.mp3".into(),
            Some(TrackCues { title: Some("Lea".to_string()), ..cues() })
        )
    );
    let numeric = request("annotate:title=\"123\":internal/media/a.mp3");
    assert_eq!(
        numeric,
        RequestUri::Local(
            "internal/media/a.mp3".into(),
            Some(TrackCues { title: Some("123".to_string()), ..cues() })
        )
    );
}

#[test]
fn fade_only_annotate_carries_the_overrides() {
    let uri = request("annotate:fade_in=\"2\",fade_out=\"3\":internal/media/a.mp3");
    assert_eq!(
        uri,
        RequestUri::Local(
            "internal/media/a.mp3".into(),
            Some(TrackCues {
                fade_in: Some(bits(2.0)),
                fade_out: Some(bits(3.0)),
                ..cues()
            })
        )
    );
}

#[test]
fn amplify_annotation_parses_linear_and_db_values() {
    let linear = request("annotate:amplify=\"0.5\":internal/media/a.mp3");
    assert_eq!(
        linear,
        RequestUri::Local(
            "internal/media/a.mp3".into(),
            Some(TrackCues { amplify: Some(bits(0.5)), ..cues() })
        )
    );
    let db = request("annotate:amplify=\"-8.2 dB\":internal/media/a.mp3");
    let db_gain = match db {
        RequestUri::Local(_, Some(c)) => f64::from_bits(c.amplify.expect("dB gain parsed")),
        _ => panic!("dB annotation must yield cues"),
    };
    let expected = db_to_gain(-8.2) as f64;
    assert!(
        (db_gain - expected).abs() < 1e-6,
        "expected {expected}, got {db_gain}"
    );
    let bad = request("annotate:amplify=\"loud\":internal/media/a.mp3");
    assert_eq!(bad, RequestUri::Local("internal/media/a.mp3".into(), None));
}

#[test]
fn start_next_annotation_parses_into_cues() {
    let uri = request("annotate:start_next=\"1\":internal/media/a.mp3");
    assert_eq!(
        uri,
        RequestUri::Local(
            "internal/media/a.mp3".into(),
            Some(TrackCues { start_next: Some(bits(1.0)), ..cues() })
        )
    );
    let bad = request("annotate:start_next=\"inf\":internal/media/a.mp3");
    assert_eq!(bad, RequestUri::Local("internal/media/a.mp3".into(), None));
}

#[test]
fn append_and_prepend_annotations_parse_into_cues() {
    let uri = request(
        "annotate:append=\"internal/jingles/stinger.mp3\",prepend=\"false\":internal/media/a.mp3",
    );
    assert_eq!(
        uri,
        RequestUri::Local(
            "internal/media/a.mp3".into(),
            Some(TrackCues {
                append: Some("internal/jingles/stinger.mp3".into()),
                prepend: Some("false".into()),
                ..cues()
            })
        )
    );
    let RequestUri::Local(_, cues) = request("annotate:append=\"0.5\":internal/media/a.mp3")
    else {
        panic!("local uri expected")
    };
    assert_eq!(cues.as_ref().and_then(|c| c.append.as_deref()), Some("0.5"));
}

#[test]
fn malformed_annotate_prefix_falls_back_to_a_plain_uri() {
    let uri = request("annotate:cue_in=\"30\"");
    assert_eq!(
        uri,
        RequestUri::Local("annotate:cue_in=\"30\"".into(), None)
    );
    let uri = request("annotate:genre=\"x\":/path/a.mp3");
    assert_eq!(uri, RequestUri::Local("/path/a.mp3".into(), None));
}

#[test]
fn non_finite_cue_values_are_ignored() {
    for bad in ["inf", "-inf", "NaN"] {
        let uri = request(&format!("annotate:cue_in=\"{bad}\":internal/media/a.mp3"));
        assert_eq!(
            uri,
            RequestUri::Local("internal/media/a.mp3".into(), None),
            "{bad} must not be accepted as a cue value"
        );
    }
    let uri = request("annotate:cue_in=\"inf\",cue_out=\"5\":internal/media/a.mp3");
    assert_eq!(
        uri,
        RequestUri::Local(
            "internal/media/a.mp3".into(),
            Some(TrackCues { cue_out: Some(bits(5.0)), ..cues() })
        )
    );
}

#[test]
fn temp_path_is_stable_per_url_and_unique_per_call() {
    let a = temp_name("http://x/a.mp3", 0);
    let b = temp_name("http://x/a.mp3", 1);
    assert_ne!(a, b, "counter must disambiguate same-URL downloads");
    assert_eq!(a.split('-').next(), b.split('-').next(), "same hash");
    assert!(a.ends_with(".part"));
}

#[test]
fn url_hashes_are_fnv() {
    assert_eq!(hash_url(""), 0xcbf2_9ce4_8422_2325);
    assert_eq!(hash_url("a"), 0xaf63_dc4c_8601_ec8c);
    assert_eq!(temp_name("a", 3), "af63dc4c8601ec8c-3.part");
}

#[test]
fn requests_are_ordered() {
    assert_eq!(order_text("a", "b"), Ordering::Less);
    assert_eq!(order_text("b", "ab"), Ordering::Greater);
    assert_eq!(order_text("é", "é"), Ordering::Equal);
    let local = request("a.mp3");
    let url = request("http://h/a.mp3");
    assert_eq!(local.order(&url), Ordering::Less);
    assert_eq!(url.order(&local), Ordering::Greater);
    let early = request("annotate:cue_in=\"1\":a.mp3");
    let late = request("annotate:cue_in=\"2\":a.mp3");
    assert_eq!(early.order(&late), Ordering::Less);
    assert_eq!(local.order(&early), Ordering::Less);
    assert!(early < late);
    // Paths are compared by their components.
    assert_eq!(request("a//b.mp3"), request("a/./b.mp3"));
    assert_eq!(request("a/b.mp3").order(&request("a.mp3")), Ordering::Less);
    assert_ne!(request("http://h//b"), request("http://h/b"));
}

#[test]
fn cue_numbers_are_compared_as_doubles() {
    let with = |v: f64| TrackCues { cue_out: Some(bits(v)), ..cues() };
    assert_eq!(with(0.0), with(-0.0));
    assert_ne!(with(f64::NAN), with(f64::NAN));
    assert_eq!(with(2.5), with(2.5));
    assert_ne!(with(2.5), with(-2.5));
}

#[test]
fn cue_plans_follow_the_cues() {
    let plain = cue_plan(&None);
    assert!(!plain.cut && plain.title.is_none() && plain.gain.is_none());
    let cut = cue_plan(&Some(TrackCues { cue_in: bits(1.0), ..cues() }));
    assert!(cut.cut);
    let titled = cue_plan(&Some(TrackCues {
        title: Some("t".into()),
        amplify: Some(bits(0.5)),
        ..cues()
    }));
    assert!(!titled.cut);
    assert_eq!(titled.title.as_deref(), Some("t"));
    assert_eq!(titled.gain, Some(bits(0.5)));
    assert_eq!(file_stem("a/b.tar.gz").as_deref(), Some("b.tar"));
}

#[test]
fn downloads_are_retried_and_report_the_last_error() {
    let mut d = Download::new(&RequestConfig { timeout_secs: 1, retries: 2 });
    let mut attempts = 0;
    while d.again() {
        attempts += 1;
        d.on_failure(&format!("error {attempts}"));
    }
    assert_eq!(attempts, 3);
    assert_eq!(d.error(), "error 3");
    assert_eq!(RequestConfig::default().attempts(), 3);
    assert_eq!(RequestConfig::default().backoff(), 500);
}

#[test]
fn urls_are_taken_apart() {
    let u = HttpUrl::parse("http://h.example:8080/a/b?c").ok().unwrap();
    assert_eq!((u.host.as_str(), u.port, u.path.as_str()), ("h.example", 8080, "/a/b?c"));
    let u = HttpUrl::parse("https://h.example").ok().unwrap();
    assert_eq!((u.port, u.path.as_str()), (443, "/"));
    assert!(u.scheme == Scheme::Https);
    let f = HttpUrl::parse("ftp://h/").err().unwrap();
    assert!(url_fault_message(f, "ftp://h/").contains("ftp://h/"));
    assert!(matches!(f, UrlFault::NotHttp));
    assert!(matches!(HttpUrl::parse("http:///x").err(), Some(UrlFault::EmptyHost)));
}

#[test]
fn annotations_are_read_in_both_spellings() {
    let short = request("annotate:cue_in=\"30\",cue_out=\"180\":/path/track.mp3");
    let long = request("annotate:liq_cue_in=\"30\",liq_cue_out=\"180\":/path/track.mp3");
    assert!(short == long);
    let RequestUri::Local(path, Some(cues)) = long else {
        panic!("cue points expected");
    };
    assert_eq!(path, "/path/track.mp3");
    assert_eq!(cues.cue_in, 30f64.to_bits());
    assert_eq!(cues.cue_out, Some(180f64.to_bits()));
    let fades = "liq_fade_in=\"2\",liq_fade_out=\"3\"";
    let RequestUri::Local(_, Some(cues)) = request(&format!("annotate:{fades}:/a.mp3")) else {
        panic!("fades expected");
    };
    assert_eq!(cues.fade_in, Some(2f64.to_bits()));
    assert_eq!(cues.fade_out, Some(3f64.to_bits()));
}

#[test]
fn bodies_become_text() {
    let plan = plan_text_body(BodyFrame::Length(3));
    assert_eq!(text_of_body(plan, b"abc".to_vec()), Ok("abc".to_string()));
    assert_eq!(text_of_body(plan, vec![0xff]), Err(TextFault::NotText));
    let too_long = plan_text_body(BodyFrame::Length(16_777_217));
    assert_eq!(text_of_body(too_long, Vec::new()), Err(TextFault::TooLong));
    let open = plan_text_body(BodyFrame::ToEnd);
    assert!(text_of_body(open, vec![b'a'; 16_777_216]).is_ok());
    assert_eq!(text_of_body(open, vec![b'a'; 16_777_217]), Err(TextFault::TooLong));
}

#[test]
fn redirect_targets_are_joined() {
    let u = HttpUrl::parse("http://h:81/a/b").ok().unwrap();
    assert_eq!(u.join("https://k/x"), "https://k/x");
    assert_eq!(u.join("/x"), "http://h:81/x");
    assert_eq!(u.join("x"), "http://h:81/a/x");
    let top = HttpUrl::parse("http://h/b").ok().unwrap();
    assert_eq!(top.join("x"), "http://h:80/x");
}

#[test]
fn relay_urls_are_validated() {
    assert!(validate_relay_url("http://h/stream").is_ok());
    assert!(validate_relay_url("file:///x").is_err());
}

#[test]
fn request_texts() {
    let u = HttpUrl::parse("http://h/a").ok().unwrap();
    let get = get_request(&u, false);
    assert!(get.starts_with("GET /a HTTP/1.1\r\nHost: h\r\n"), "{get}");
    assert!(get.ends_with("\r\n\r\n"));
    let post = post_request(&u, "{\"é\":1}");
    assert!(post.contains("Content-Length: 8\r\n"), "{post}");
    assert!(post.ends_with("\r\n\r\n{\"é\":1}"));
    assert!(post_verdict("u", 204).is_ok());
    assert_eq!(
        post_verdict("http://h/hook", 500).unwrap_err(),
        "webhook POST to http://h/hook returned HTTP 500"
    );
}

fn head(lines: &[&str]) -> ResponseHead {
    let mut h = ResponseHead::new();
    for l in lines {
        assert!(!h.accept_line(l));
    }
    assert!(h.accept_line("\r\n"));
    h
}

#[test]
fn fetches_follow_redirects_and_stop() {
    assert_eq!(parse_status_line("HTTP/1.1 302 Found\r\n"), Some(302));
    assert_eq!(parse_status_line("garbage"), None);
    let mut f = Fetch::start("http://h/a").ok().unwrap();
    let moved = head(&["Location: /b\r\n"]);
    assert!(matches!(f.on_response(302, &moved), FetchStep::Follow));
    assert_eq!(f.target().path, "/b");
    assert!(matches!(f.on_response(301, &moved), FetchStep::Follow));
    assert!(matches!(f.on_response(307, &moved), FetchStep::Follow));
    match f.on_response(303, &moved) {
        FetchStep::Fail(fault) => {
            let m = fetch_fault_message(&fault, "http://h/a", f.asked());
            assert_eq!(m, "too many redirects");
        }
        _ => panic!("the fourth redirect of a file is too many"),
    }
    let mut f = Fetch::start_stream("http://h/a").ok().unwrap();
    for _ in 0..4 {
        assert!(matches!(f.on_response(302, &moved), FetchStep::Follow));
    }
    match f.on_response(302, &moved) {
        FetchStep::Fail(fault) => assert!(matches!(fault, FetchFault::TooManyRedirects)),
        _ => panic!("the fifth redirect of a stream is too many"),
    }
    assert!(matches!(Fetch::start_stream("ftp://h/a"), Err(UrlFault::NotHttp)));
    let mut f = Fetch::start("http://h/a").ok().unwrap();
    match f.on_response(302, &head(&[])) {
        FetchStep::Fail(fault) => assert_eq!(
            fetch_fault_message(&fault, "http://h/a", f.asked()),
            "redirect 302 without Location"
        ),
        _ => panic!("nowhere to go"),
    }
    match f.on_response(302, &head(&["Location: http://k:99999/\r\n"])) {
        FetchStep::Fail(fault) => assert!(matches!(fault, FetchFault::BadUrl(_))),
        _ => panic!("an unusable target"),
    }
    match f.on_response(404, &head(&[])) {
        FetchStep::Fail(fault) => {
            assert!(matches!(fault, FetchFault::Status(404)));
            assert!(fetch_fault_message(&fault, "http://h/a", f.asked()).contains("404"));
        }
        _ => panic!("an error status fails"),
    }
}

#[test]
fn bodies_are_framed() {
    let mut f = Fetch::start("http://h/a").ok().unwrap();
    match f.on_response(200, &head(&["content-LENGTH: 5\r\n"])) {
        FetchStep::Deliver(BodyFrame::Length(n)) => assert_eq!(n, 5),
        _ => panic!("a length"),
    }
    assert!(matches!(plan_text_body(BodyFrame::Length(5)), TextPlan::Exactly(5)));
    assert!(matches!(
        plan_text_body(BodyFrame::Length(16 * 1024 * 1024 + 1)),
        TextPlan::TooLong(16_777_217)
    ));
    assert!(matches!(plan_text_body(BodyFrame::ToEnd), TextPlan::Below(16_777_217)));
    assert!(matches!(plan_text_body(BodyFrame::Chunked), TextPlan::Chunks(16_777_216)));
    assert_eq!(chunk_size("1F;x=y\r\n"), Some(31));
    assert_eq!(chunk_size_field(" 1F ;x=y\r\n"), "1F");
    assert_eq!(chunk_size("zz\r\n"), None);
    let mut b = ChunkBudget::new(10);
    assert!(matches!(b.accept_size_line(Some("a\r\n")), ChunkStep::Copy(10)));
    assert!(matches!(b.accept_size_line(Some("1\r\n")), ChunkStep::OverCap));
    let mut b = ChunkBudget::new(10);
    assert!(matches!(b.accept_size_line(Some("x\r\n")), ChunkStep::BadSize));
    assert!(matches!(b.accept_size_line(Some("0\r\n")), ChunkStep::Finish));
    assert!(matches!(b.accept_size_line(None), ChunkStep::Truncated));
}

#[test]
fn body_readers_ask_for_what_is_left() {
    let mut r = BodyReader::new(BodyFrame::Length(5));
    assert!(matches!(r.need(3), BodyNeed::Bytes(3)));
    r.on_bytes(3);
    assert!(matches!(r.need(3), BodyNeed::Bytes(2)));
    r.on_bytes(2);
    assert!(matches!(r.need(3), BodyNeed::Nothing));
    let mut r = BodyReader::new(BodyFrame::Chunked);
    assert!(matches!(r.need(3), BodyNeed::SizeLine));
    assert!(matches!(r.on_size_line(Some("2\r\n")), SizeLine::Chunk));
    assert!(matches!(r.need(3), BodyNeed::Bytes(2)));
    assert!(!r.on_bytes(1));
    assert!(r.on_bytes(1));
    assert!(matches!(r.on_size_line(Some("zz\r\n")), SizeLine::Bad));
    assert!(matches!(r.on_size_line(Some("0\r\n")), SizeLine::Last));
    assert!(matches!(r.on_size_line(None), SizeLine::End));
}

/// Takes a line off the front of a response, with its end.
fn take_line<'a>(rest: &mut &'a [u8]) -> Option<&'a str> {
    if rest.is_empty() {
        return None;
    }
    let n = rest.iter().position(|&b| b == b'\n').map(|i| i + 1).unwrap_or(rest.len());
    let (line, tail) = rest.split_at(n);
    *rest = tail;
    Some(std::str::from_utf8(line).unwrap())
}

/// Fetches a URL from a server that answers each request by its text.
fn fetch(url: &str, serve: &dyn Fn(&str) -> Vec<u8>) -> Result<Vec<u8>, String> {
    let mut f = Fetch::start(url).map_err(|e| url_fault_message(e, url))?;
    loop {
        let response = serve(&get_request(f.target(), false));
        let mut rest = response.as_slice();
        let status = take_line(&mut rest).unwrap_or("");
        let code = parse_status_line(status).ok_or("malformed status line")?;
        let mut head = ResponseHead::new();
        while let Some(line) = take_line(&mut rest) {
            if head.accept_line(line) {
                break;
            }
        }
        match f.on_response(code, &head) {
            FetchStep::Follow => continue,
            FetchStep::Fail(fault) => return Err(fetch_fault_message(&fault, url, f.asked())),
            FetchStep::Deliver(frame) => return read_body(frame, rest),
        }
    }
}

fn read_body(frame: BodyFrame, mut rest: &[u8]) -> Result<Vec<u8>, String> {
    let mut out = Vec::new();
    let mut reader = BodyReader::new(frame);
    loop {
        match reader.need(4) {
            BodyNeed::Nothing => return Ok(out),
            BodyNeed::SizeLine => match reader.on_size_line(take_line(&mut rest)) {
                SizeLine::Chunk => {}
                SizeLine::Last | SizeLine::End => return Ok(out),
                SizeLine::Bad => return Err("bad chunk size".into()),
            },
            BodyNeed::Bytes(n) => {
                let n = n.min(rest.len());
                if n == 0 {
                    return Ok(out);
                }
                out.extend_from_slice(&rest[..n]);
                rest = &rest[n..];
                if reader.on_bytes(n) {
                    take_line(&mut rest);
                }
            }
        }
    }
}

#[test]
fn http_get_string_reads_the_body_and_follows_redirects() {
    let body = fetch("http://127.0.0.1:9/playlists/1", &|request| {
        if request.starts_with("GET /playlists/1 ") {
            b"HTTP/1.1 302 Found\r\nLocation: /tracks.json\r\n\r\n".to_vec()
        } else {
            b"HTTP/1.1 200 OK\r\nContent-Type: application/json\r\nContent-Length: 15\r\n\r\n{\"title\":\"A\"}\r\n"
                .to_vec()
        }
    });
    assert_eq!(body.expect("get succeeds"), b"{\"title\":\"A\"}\r\n");
}

#[test]
fn http_get_string_rejects_non_2xx_and_caps_the_body() {
    let err = fetch("http://127.0.0.1:9/missing", &|_| {
        b"HTTP/1.1 500 Internal Server Error\r\nContent-Length: 0\r\n\r\n".to_vec()
    })
    .expect_err("get fails");
    assert!(err.contains("500"), "{err}");
}

#[test]
fn http_get_downloads_a_content_length_body() {
    let body = b"RIFFxxxx\x00WAVEtest-bytes";
    let got = fetch("http://127.0.0.1:9/test.mp3", &|_| {
        let head = format!("HTTP/1.1 200 OK\r\nContent-Length: {}\r\n\r\n", body.len());
        [head.as_bytes(), &body[..], b"beyond"].concat()
    });
    assert_eq!(got.expect("download"), body);
}

#[test]
fn http_get_reads_a_chunked_body() {
    let body = b"chunk-one";
    let got = fetch("http://127.0.0.1:9/test.mp3", &|_| {
        let head = "HTTP/1.1 200 OK\r\nTransfer-Encoding: chunked\r\n\r\n";
        let size = format!("{:x}\r\n", body.len());
        [head.as_bytes(), size.as_bytes(), &body[..], b"\r\n0\r\n\r\n"].concat()
    });
    assert_eq!(got.expect("download"), body);
}

#[test]
fn http_get_follows_redirects() {
    let got = fetch("http://127.0.0.1:9/start.mp3", &|request| {
        if request.starts_with("GET /start.mp3 ") {
            b"HTTP/1.1 302 Found\r\nLocation: /target\r\nContent-Length: 0\r\n\r\n".to_vec()
        } else if request.starts_with("GET /target ") {
            b"HTTP/1.1 200 OK\r\nContent-Length: 6\r\n\r\ntarget".to_vec()
        } else {
            b"HTTP/1.1 404 Not Found\r\n\r\n".to_vec()
        }
    });
    assert_eq!(got.expect("download"), b"target");
}

#[test]
fn http_get_reports_http_errors() {
    let err = fetch("http://127.0.0.1:9/test.mp3", &|_| {
        b"HTTP/1.1 404 Not Found\r\n\r\n".to_vec()
    })
    .expect_err("must fail");
    assert!(err.contains("404"), "{err}");
}

#[test]
fn http_post_json_posts_the_body_and_accepts_2xx() {
    let target = HttpUrl::parse("http://127.0.0.1:9/hook").ok().unwrap();
    let request = post_request(&target, r#"{"title":"x"}"#);
    assert!(request.starts_with("POST /hook HTTP/1.1\r\n"), "{request}");
    assert!(request.ends_with("\r\n\r\n{\"title\":\"x\"}"), "{request}");
    let code = parse_status_line("HTTP/1.1 204 No Content\r\n").unwrap();
    post_verdict("http://127.0.0.1:9/hook", code).expect("post succeeds");
}

#[test]
fn http_post_json_reports_non_2xx() {
    let code = parse_status_line("HTTP/1.1 500 Internal Server Error\r\n").unwrap();
    let err = post_verdict("http://127.0.0.1:9/hook", code).expect_err("post fails");
    assert!(err.contains("500"), "{err}");
}
