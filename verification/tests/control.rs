use crabsoup::control::{
    banner_text, body_progress, content_length, dispatch, dispatch_with, find_head_end, head_progress,
    http_error, http_reply, http_response, http_route, http_route_with, parse_request_head,
    pick_jingle, play_jingle, read_command_line, request_argument, request_plan, script_reply,
    split_json_prefix, usage_reply, BodyProgress, CommandReply, DispatchCtx, HeadProgress,
    HttpStep, Line, RequestQueue, ScriptAnswer, Signal, Step, MAX_HTTP_BODY, MAX_HTTP_HEADER,
};
use crabsoup::mixer::{EngineStatus, StatusHandle};
use crabsoup::request::RequestUri;
use std::time::{Duration, Instant};
use rand::rngs::SmallRng;
use rand::SeedableRng;
use serde_json::Value;

fn jingles() -> Vec<String> {
    vec!["jingles/a-intro.mp3".into(), "jingles/b-sting.wav".into()]
}

fn rng() -> SmallRng {
    SmallRng::seed_from_u64(7)
}

fn status(title: &str) -> EngineStatus {
    let mut s = StatusHandle::new();
    s.set_current(title);
    s.snapshot()
}

fn parsed(text: &str) -> Value {
    serde_json::from_str(text).expect("valid json")
}

fn object(fields: &[(&str, Value)]) -> Value {
    let mut m = serde_json::Map::new();
    for (k, v) in fields {
        m.insert(k.to_string(), v.clone());
    }
    Value::Object(m)
}

fn list(items: &[&str]) -> Value {
    Value::Array(items.iter().map(|s| Value::from(*s)).collect())
}

/// Runs a command that must be answered at once.
fn run(
    cmd: &str,
    ctx: &DispatchCtx,
    queue: &mut Option<RequestQueue>,
) -> (CommandReply, Option<Signal>) {
    match dispatch(cmd, ctx, queue, &[], &mut rng()) {
        Step::Reply(r, s) => (r, s),
        _ => panic!("{cmd} must reply"),
    }
}

#[test]
fn pick_by_index() {
    assert_eq!(pick_jingle(&jingles(), "0").unwrap(), 0);
    assert_eq!(pick_jingle(&jingles(), "1").unwrap(), 1);
    assert!(pick_jingle(&jingles(), "2").is_err());
}

#[test]
fn pick_by_substring_is_case_insensitive() {
    assert_eq!(pick_jingle(&jingles(), "STING").unwrap(), 1);
    assert_eq!(pick_jingle(&jingles(), "intro").unwrap(), 0);
    assert!(pick_jingle(&jingles(), "bass").is_err());
}

#[test]
fn pick_errors_say_why() {
    assert_eq!(
        pick_jingle(&jingles(), "2").unwrap_err(),
        "jingle index out of range (0..2)"
    );
    assert_eq!(
        pick_jingle(&jingles(), "bass").unwrap_err(),
        "no jingle matching \"bass\""
    );
    // The directory is not part of the name.
    assert!(pick_jingle(&jingles(), "jingles/").is_err());
}

#[test]
fn skip_sends_the_mix_command() {
    let j = jingles();
    let ctx = DispatchCtx { jingles: &j, custom: &[], status: status("") };
    let (r, signal) = run("skip", &ctx, &mut None);
    assert_eq!(r.text(), "skipping");
    assert_eq!(
        parsed(&r.json()),
        object(&[("ok", Value::from(true)), ("message", Value::from("skipping"))])
    );
    assert!(matches!(signal, Some(Signal::Skip)));
    assert!(matches!(run("shutdown", &ctx, &mut None).1, Some(Signal::Shutdown)));
}

#[test]
fn status_and_uptime_report_engine_state() {
    let j = jingles();
    let ctx = DispatchCtx { jingles: &j, custom: &[], status: status("some track") };
    let (r, _) = run("status", &ctx, &mut None);
    assert!(r.text().contains("playing: some track"));
    assert!(r.text().contains("uptime: "));
    let (r, _) = run("uptime", &ctx, &mut None);
    assert!(r.text().starts_with("uptime: "));
}

#[test]
fn status_tells_whether_a_dj_is_live() {
    let mut s = StatusHandle::default();
    s.set_current("x");
    *s.harbor_flag() = true;
    assert!(s.harbor_connected());
    let ctx = DispatchCtx { jingles: &[], custom: &[], status: s.snapshot() };
    let (r, _) = run("status", &ctx, &mut None);
    assert!(r.text().contains("live: "));
    let v = parsed(&r.json());
    assert_eq!(v["harbor_connected"], Value::from(true));
}

#[test]
fn queue_commands_push_list_clear_and_skip() {
    let j = jingles();
    let ctx = DispatchCtx { jingles: &j, custom: &[], status: status("") };
    let mut queue = Some(RequestQueue::new());

    let (r, _) = run("queue.push /tmp/a.mp3", &ctx, &mut queue);
    assert!(r.text().contains("queued /tmp/a.mp3 (1)"), "{}", r.text());
    let (r, _) = run("queue.push /tmp/b.mp3", &ctx, &mut queue);
    assert!(r.text().contains("(2)"), "{}", r.text());
    let (r, _) = run("queue.list", &ctx, &mut queue);
    assert!(r.text().contains("0: /tmp/a.mp3"));
    assert!(r.text().contains("1: /tmp/b.mp3"));
    let (r, _) = run("queue.skip", &ctx, &mut queue);
    assert!(r.text().contains("skipping queued track"), "{}", r.text());
    let (r, _) = run("queue.clear", &ctx, &mut queue);
    assert!(r.text().contains("cleared"), "{}", r.text());
    let q = queue.as_mut().unwrap();
    assert!(q.is_empty());
    assert!(q.take_skip());
    assert!(!q.take_skip());
}

#[test]
fn the_queue_is_first_in_first_out() {
    let mut q = RequestQueue::new();
    q.push(RequestUri::new("a.mp3", &[]));
    q.push(RequestUri::new("http://h/b.mp3", &[]));
    assert_eq!(q.len(), 2);
    assert_eq!(q.list(), vec!["a.mp3", "http://h/b.mp3"]);
    assert_eq!(q.pop().unwrap().raw(), "a.mp3");
    assert_eq!(q.pop().unwrap().raw(), "http://h/b.mp3");
    assert!(q.pop().is_none());
}

#[test]
fn queue_commands_require_a_configured_queue() {
    let j = jingles();
    let ctx = DispatchCtx { jingles: &j, custom: &[], status: status("") };
    for cmd in ["queue.push /tmp/a.mp3", "queue.list", "queue.skip", "queue.clear"] {
        let (r, _) = run(cmd, &ctx, &mut None);
        assert!(r.text().contains("no request.queue source"), "{cmd}: {}", r.text());
    }
}

#[test]
fn custom_command_routes_through_the_event_channel() {
    let j = jingles();
    let custom = vec!["ping".to_string(), "greet".to_string()];
    let ctx = DispatchCtx { jingles: &j, custom: &custom, status: status("") };
    let answer = |cmd: &str| match dispatch(cmd, &ctx, &mut None, &[], &mut rng()) {
        Step::CallScript { index, args } => script_reply(ScriptAnswer::Text(
            match (index, args.as_str()) {
                (0, "") => "pong".to_string(),
                (0, a) => format!("pong {a}"),
                (1, a) => format!("hello {a}"),
                _ => unreachable!(),
            },
        )),
        _ => panic!("{cmd} must reach the script"),
    };
    let r = answer("ping");
    assert_eq!(r.text(), "pong");
    assert_eq!(
        parsed(&r.json()),
        object(&[("ok", Value::from(true)), ("reply", Value::from("pong"))])
    );
    assert_eq!(answer("greet world").text(), "hello world");
}

#[test]
fn script_failures_are_errors() {
    let cases = [
        (ScriptAnswer::NotRunning, "not running"),
        (ScriptAnswer::Failed("boom".into()), "boom"),
        (ScriptAnswer::TimedOut, "timed out"),
    ];
    for (answer, text) in cases {
        let r = script_reply(answer);
        assert!(r.text().contains(text), "{}", r.text());
        assert_eq!(parsed(&r.json())["ok"], Value::from(false));
    }
}

#[test]
fn unregistered_commands_are_still_unknown() {
    let j = jingles();
    let ctx = DispatchCtx { jingles: &j, custom: &[], status: status("") };
    let (r, _) = run("ping", &ctx, &mut None);
    assert!(r.text().contains("unknown command"), "{}", r.text());
}

#[test]
fn split_json_prefix_reserves_the_json_name() {
    assert_eq!(split_json_prefix("json"), (true, ""));
    assert_eq!(split_json_prefix("json status"), (true, "status"));
    assert_eq!(split_json_prefix("json   queue.list"), (true, "queue.list"));
    assert_eq!(split_json_prefix("status"), (false, "status"));
    assert_eq!(split_json_prefix("jsonify"), (false, "jsonify"));
    assert_eq!(split_json_prefix("queue.push /tmp/a.mp3"), (false, "queue.push /tmp/a.mp3"));
}

#[test]
fn lines_of_a_connection() {
    assert!(matches!(read_command_line("  \r\n"), Line::Nothing));
    assert!(matches!(read_command_line("json \r\n"), Line::Usage));
    assert!(matches!(
        read_command_line(" json skip\r\n"),
        Line::Command { json: true, cmd: "skip" }
    ));
    assert!(matches!(
        read_command_line("skip\n"),
        Line::Command { json: false, cmd: "skip" }
    ));
    assert_eq!(usage_reply().text(), "usage: json <command>");
    assert_eq!(
        banner_text(),
        "welcome to the crabsoup control port (help for commands)"
    );
}

#[test]
fn json_replies_are_single_line_and_parseable() {
    let j = jingles();
    let ctx = DispatchCtx { jingles: &j, custom: &[], status: status("some track") };
    let mut q = RequestQueue::new();
    q.push(RequestUri::new("/tmp/a.mp3", &[]));
    q.push(RequestUri::new("/tmp/b.mp3", &[]));
    let mut queue = Some(q);

    let v = parsed(&run("queue.list", &ctx, &mut queue).0.json());
    assert_eq!(v["queue"], list(&["/tmp/a.mp3", "/tmp/b.mp3"]));
    let v = parsed(&run("status", &ctx, &mut queue).0.json());
    assert_eq!(v["playing"], "some track");
    assert!(v["uptime_seconds"].is_number());

    let cases = [
        ("status", "playing"),
        ("uptime", "uptime_seconds"),
        ("queue.list", "queue"),
        ("jingles.list", "jingles"),
        ("skip", "message"),
        ("queue.push", "error"),
        ("bogus", "error"),
    ];
    for (cmd, field) in cases {
        let line = format!("json {cmd}");
        let (json_mode, rest) = split_json_prefix(&line);
        assert!(json_mode);
        let text = run(rest, &ctx, &mut queue).0.json();
        assert!(!text.contains('\n'), "{cmd}: json must be single-line: {text}");
        let v = parsed(&text);
        let obj = v.as_object().expect("json object");
        assert!(obj.contains_key("ok"), "{cmd}: missing ok: {text}");
        assert!(obj.contains_key(field), "{cmd}: missing {field}: {text}");
    }

    let v = parsed(&run("queue.push /tmp/c.mp3", &ctx, &mut queue).0.json());
    assert_eq!(v["queued"], "/tmp/c.mp3");
    assert_eq!(v["length"], 3);
    assert!(v["ok"].as_bool().unwrap());
}

#[test]
fn json_escapes_quotes_newlines_and_backslashes() {
    let title = "a \"quoted\" title \\ with \n newline";
    let ctx = DispatchCtx { jingles: &[], custom: &[], status: status(title) };
    let text = run("status", &ctx, &mut None).0.json();
    assert!(!text.contains('\n'), "must stay single-line: {text}");
    assert_eq!(parsed(&text)["playing"], title);
}

#[test]
fn jingles_are_probed_before_they_play() {
    let j = jingles();
    let ctx = DispatchCtx { jingles: &j, custom: &[], status: status("") };
    match dispatch_with("jingles.play", &ctx, &mut None, &[], 1) {
        Step::ProbeJingle(path) => assert_eq!(path, "jingles/b-sting.wav"),
        _ => panic!("must probe"),
    }
    // A random choice is one of the jingles.
    for seed in 0..20 {
        let mut r = SmallRng::seed_from_u64(seed);
        match dispatch("jingles.play", &ctx, &mut None, &[], &mut r) {
            Step::ProbeJingle(path) => assert!(j.contains(&path)),
            _ => panic!("must probe"),
        }
    }
    match play_jingle("x.mp3", true) {
        Step::Reply(r, Some(Signal::PlayJingle(p))) => {
            assert_eq!(p, "x.mp3");
            assert_eq!(parsed(&r.json())["playing"], "x.mp3");
        }
        _ => panic!("must play"),
    }
    match play_jingle("x.mp3", false) {
        Step::Reply(r, None) => assert_eq!(r.text(), "ERROR: jingle missing: x.mp3"),
        _ => panic!("must refuse"),
    }
    let none = DispatchCtx { jingles: &[], custom: &[], status: status("") };
    assert!(run("jingles.play", &none, &mut None).0.text().contains("no jingles"));
    assert!(matches!(
        dispatch("quit", &none, &mut None, &[], &mut rng()),
        Step::Exit
    ));
}

#[test]
fn pushed_requests_are_announced() {
    assert_eq!(request_argument("queue.push a b").as_deref(), Some("a"));
    assert_eq!(request_argument("queue.push"), None);
    assert_eq!(request_argument("queue.list"), None);
}

#[test]
fn parse_request_head_reads_method_and_path() {
    assert_eq!(
        parse_request_head("GET /status HTTP/1.1\r\nHost: localhost\r\n").unwrap(),
        ("GET".into(), "/status".into())
    );
    assert_eq!(
        parse_request_head("POST /cmd HTTP/1.1\r\nContent-Length: 5\r\n").unwrap(),
        ("POST".into(), "/cmd".into())
    );
    assert!(parse_request_head("garbage").is_err());
    assert!(parse_request_head("GET /status").is_err()); // missing version
}

#[test]
fn content_length_is_case_insensitive_and_optional() {
    assert_eq!(content_length("GET / HTTP/1.1\r\nContent-Length: 12\r\n"), Some(12));
    assert_eq!(content_length("GET / HTTP/1.1\r\ncontent-length: 4\r\n"), Some(4));
    assert_eq!(content_length("GET / HTTP/1.1\r\nHost: x\r\n"), None);
    assert_eq!(content_length("GET / HTTP/1.1\r\nContent-Length: nope\r\n"), None);
}

#[test]
fn request_heads_are_bounded() {
    assert_eq!(find_head_end(b"GET / HTTP/1.1\r\n\r\nxy"), Some(14));
    assert!(matches!(head_progress(b"GET", false), HeadProgress::More));
    match head_progress(b"GET", true) {
        HeadProgress::Refuse(f) => assert_eq!(f.code, 400),
        _ => panic!("closed mid-request"),
    }
    match head_progress(&vec![b'a'; MAX_HTTP_HEADER + 1], false) {
        HeadProgress::Refuse(f) => assert_eq!(f.code, 431),
        _ => panic!("too large"),
    }
    let big = format!("POST /cmd HTTP/1.1\r\nContent-Length: {}\r\n", MAX_HTTP_BODY + 1);
    match request_plan(big.as_bytes()) {
        Err(f) => assert_eq!(f.code, 413),
        Ok(_) => panic!("too large"),
    }
    let plan = request_plan(b"POST /cmd HTTP/1.1\r\nContent-Length: 3\r\n").unwrap();
    assert_eq!((plan.method.as_str(), plan.path.as_str()), ("POST", "/cmd"));
    match body_progress(b"abcd", plan.body_len, false) {
        BodyProgress::Done(s) => assert_eq!(s, "abc"),
        _ => panic!("complete"),
    }
    assert!(matches!(body_progress(b"ab", Some(3), false), BodyProgress::More));
}

/// Routes a request, with jingle files that do not exist.
fn route(
    method: &str,
    path: &str,
    body: &str,
    ctx: &DispatchCtx,
    queue: &mut Option<RequestQueue>,
) -> (u16, String) {
    match http_route(method, path, body, ctx, queue, &[], &mut rng()) {
        HttpStep::Respond { code, body, .. } => (code, body),
        HttpStep::ProbeJingle(p) => match play_jingle(&p, false) {
            Step::Reply(r, _) => http_reply(&r),
            _ => panic!("must reply"),
        },
        HttpStep::CallScript { .. } => panic!("no script"),
    }
}

#[test]
fn http_route_serves_status_and_commands() {
    let j = jingles();
    let ctx = DispatchCtx { jingles: &j, custom: &[], status: status("on air") };
    let mut q = RequestQueue::new();
    q.push(RequestUri::new("/tmp/a.mp3", &[]));
    let mut queue = Some(q);

    let (code, body) = route("GET", "/status", "", &ctx, &mut queue);
    assert_eq!(code, 200);
    let v = parsed(&body);
    assert_eq!(v["ok"], true);
    assert_eq!(v["playing"], "on air");

    let (code, body) = route("GET", "/queue", "", &ctx, &mut queue);
    assert_eq!(code, 200);
    assert_eq!(parsed(&body)["queue"], list(&["/tmp/a.mp3"]));

    let (code, body) = route("GET", "/jingles", "", &ctx, &mut queue);
    assert_eq!(code, 200);
    assert_eq!(
        parsed(&body)["jingles"],
        list(&["jingles/a-intro.mp3", "jingles/b-sting.wav"])
    );

    let (code, body) = route("POST", "/cmd", r#"{"command":"skip"}"#, &ctx, &mut queue);
    assert_eq!(code, 200);
    let v = parsed(&body);
    assert_eq!(v["ok"], true);
    assert_eq!(v["message"], "skipping");

    let (code, body) = route("POST", "/cmd", r#"{"command":"bogus"}"#, &ctx, &mut queue);
    assert_eq!(code, 400);
    let v = parsed(&body);
    assert_eq!(v["ok"], false);
    assert!(v["error"].as_str().unwrap().contains("unknown command"));
    let (code, body) = route("POST", "/cmd", r#"{"command":"jingles.play 0"}"#, &ctx, &mut queue);
    assert_eq!(code, 400);
    assert!(body.contains("jingle missing"));

    let (code, body) = route("POST", "/cmd", "not json", &ctx, &mut queue);
    assert_eq!(code, 400);
    assert!(body.contains("invalid JSON"));
    let (code, body) = route("POST", "/cmd", "{}", &ctx, &mut queue);
    assert_eq!(code, 400);
    assert!(body.contains("command"));
    let (code, _) = route("GET", "/nope", "", &ctx, &mut queue);
    assert_eq!(code, 404);
    let (code, _) = route("PUT", "/status", "", &ctx, &mut queue);
    assert_eq!(code, 405);

    let (code, body) = route("POST", "/cmd", r#"{"command":"exit"}"#, &ctx, &mut queue);
    assert_eq!(code, 200);
    assert!(body.contains("bye"));
}

#[test]
fn http_answers_frame_their_body() {
    let out = String::from_utf8(http_response(404, &http_error("no"))).unwrap();
    let (head, body) = out.split_once("\r\n\r\n").unwrap();
    assert!(head.starts_with("HTTP/1.1 404 Not Found\r\n"), "{head}");
    assert!(head.contains(&format!("Content-Length: {}", body.len())), "{head}");
    assert_eq!(parsed(body)["error"], "no");
    let ctx = DispatchCtx { jingles: &[], custom: &[], status: status("") };
    match http_route_with("GET", "/uptime", "", &ctx, &mut None, &[], 0) {
        HttpStep::Respond { code, .. } => assert_eq!(code, 200),
        _ => panic!("must respond"),
    }
}

#[test]
fn status_handle_reports_current_and_uptime() {
    let mut status = StatusHandle::new();
    status.set_current("a track");
    assert_eq!(status.current(), "a track");
    assert!(status.uptime_seconds() < 1000);
}

#[test]
fn uptime_counts_whole_seconds_from_the_start() {
    let before = Instant::now();
    let mut status = StatusHandle::new();
    let later = Instant::now() + Duration::from_millis(100_500);
    assert_eq!(status.uptime_at(&later), 100);
    assert_eq!(status.uptime_at(&before), 0);
    // Titles and the live flag leave the start alone.
    status.set_current("a track");
    *status.harbor_flag() = true;
    assert_eq!(status.uptime_at(&later), 100);
}
