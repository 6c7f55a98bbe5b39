//! The control port: one command per line, answered in text or in JSON, and
//! the same commands over HTTP.

use vstd::prelude::*;
use crate::bytes::append;
use crate::json::{new_object, no_fields, object_text, put_bool, put_number, put_text, put_texts};
use crate::json::{render, string_field, string_field_of, JsonView};
use crate::mixer::{EngineStatus, StatusView};
use crate::request::{file_name, file_name_of, readings_match, request_of, Reading, RequestUri};
use crate::request::RequestView;
use crate::text::{contains, contains_text, dec, has_prefix, is_space, lowered, owned, parsed};
use crate::text::{char_is_space, parse_unsigned, push_dec, same, same_ignoring_case, split};
use crate::text::{split_all, split_first, split_once, split_words, str_views, strip_prefix, texts};
use crate::text::{to_lower, trim, trimmed, words};

verus! {

// ---------------------------------------------------------------------------
// The request queue
// ---------------------------------------------------------------------------

/// The requests that wait, and whether the one that plays shall be skipped.
pub struct QueueView {
    pub items: Seq<RequestView>,
    pub skip: bool,
}

/// Requests pushed over the control port, in the order of their arrival.
pub struct RequestQueue {
    items: Vec<RequestUri>,
    skip: bool,
}

/// The views of requests.
pub open spec fn request_views(v: Seq<RequestUri>) -> Seq<RequestView> {
    Seq::new(v.len(), |i: int| v[i]@)
}

impl View for RequestQueue {
    type V = QueueView;

    closed spec fn view(&self) -> QueueView {
        QueueView { items: request_views(self.items@), skip: self.skip }
    }
}

/// The text that a queue listing shows of a request.
pub open spec fn raw_of(r: RequestView) -> Seq<char> {
    match r {
        RequestView::Local(p, _) => p,
        RequestView::Url(u, _) => u,
    }
}

/// The texts that a queue listing shows.
pub open spec fn raw_items(q: QueueView) -> Seq<Seq<char>> {
    Seq::new(q.items.len(), |i: int| raw_of(q.items[i]))
}

impl RequestQueue {
    /// An empty queue.
    pub fn new() -> (q: RequestQueue)
        ensures
            q@.items.len() == 0,
            !q@.skip,
    {
        RequestQueue { items: Vec::new(), skip: false }
    }

    /// Appends a request.
    pub fn push(&mut self, r: RequestUri)
        ensures
            final(self)@ == (QueueView { items: old(self)@.items.push(r@), ..old(self)@ }),
    {
        self.items.push(r);
        assert(self@.items =~= old(self)@.items.push(r@));
    }

    /// The number of waiting requests.
    pub fn len(&self) -> (n: usize)
        ensures
            n == self@.items.len(),
    {
        self.items.len()
    }

    /// Whether no request waits.
    pub fn is_empty(&self) -> (b: bool)
        ensures
            b == (self@.items.len() == 0),
    {
        self.items.is_empty()
    }

    /// The full path or URL of every waiting request.
    pub fn list(&self) -> (v: Vec<String>)
        ensures
            texts(v@) == raw_items(self@),
    {
        let mut v: Vec<String> = Vec::new();
        let mut i: usize = 0;
        while i < self.items.len()
            invariant
                i <= self.items@.len(),
                v@.len() == i,
                forall|k: int| 0 <= k < i ==> (#[trigger] v@[k])@ == raw_of(self@.items[k]),
            decreases self.items@.len() - i,
        {
            v.push(self.items[i].raw());
            i = i + 1;
        }
        assert(texts(v@) =~= raw_items(self@));
        v
    }

    /// Removes every waiting request.
    pub fn clear(&mut self)
        ensures
            final(self)@ == (QueueView { items: Seq::empty(), ..old(self)@ }),
    {
        self.items.clear();
        assert(self@.items =~= Seq::empty());
    }

    /// Asks to skip the queued track that plays.
    pub fn request_skip(&mut self)
        ensures
            final(self)@ == (QueueView { skip: true, ..old(self)@ }),
    {
        self.skip = true;
    }

    /// Takes the oldest request.
    pub fn pop(&mut self) -> (r: Option<RequestUri>)
        ensures
            match r {
                Some(u) => old(self)@.items.len() > 0 && u@ == old(self)@.items[0] && final(self)@
                    == (QueueView { items: old(self)@.items.skip(1), ..old(self)@ }),
                None => old(self)@.items.len() == 0 && final(self)@ == old(self)@,
            },
    {
        if self.items.len() == 0 {
            return None;
        }
        let u = self.items.remove(0);
        assert(self@.items =~= old(self)@.items.skip(1));
        Some(u)
    }

    /// Whether a skip was asked for; takes the wish back.
    pub fn take_skip(&mut self) -> (b: bool)
        ensures
            b == old(self)@.skip,
            final(self)@ == (QueueView { skip: false, ..old(self)@ }),
    {
        let b = self.skip;
        self.skip = false;
        b
    }
}

/// The view of an optional queue.
pub open spec fn opt_queue(q: Option<RequestQueue>) -> Option<QueueView> {
    match q {
        Some(x) => Some(x@),
        None => None,
    }
}

// ---------------------------------------------------------------------------
// Replies
// ---------------------------------------------------------------------------

/// The outcome of a command.
pub enum ReplyView {
    Message(Seq<char>),
    Failure(Seq<char>),
    Custom(Seq<char>),
    Status(StatusView),
    Uptime(u64),
    Queued { path: Seq<char>, length: nat },
    List { key: Seq<char>, empty: Seq<char>, items: Seq<Seq<char>> },
    Playing(Seq<char>),
}

/// The outcome of a command, rendered to text or to JSON.
pub enum CommandReply {
    /// A success message.
    Message(String),
    /// An error message.
    Failure(String),
    /// The reply of a command that the script registered.
    Custom(String),
    /// The engine status.
    Status(EngineStatus),
    /// Seconds since the engine started.
    Uptime(u64),
    /// A queued request, and the length of the queue with it.
    Queued { path: String, length: usize },
    /// Items under a key; `empty` is the text reply when there are none.
    List { key: &'static str, empty: &'static str, items: Vec<String> },
    /// The jingle that starts.
    Playing(String),
}

impl View for CommandReply {
    type V = ReplyView;

    open spec fn view(&self) -> ReplyView {
        match self {
            CommandReply::Message(m) => ReplyView::Message(m@),
            CommandReply::Failure(m) => ReplyView::Failure(m@),
            CommandReply::Custom(m) => ReplyView::Custom(m@),
            CommandReply::Status(s) => ReplyView::Status(s@),
            CommandReply::Uptime(n) => ReplyView::Uptime(*n),
            CommandReply::Queued { path, length } => ReplyView::Queued {
                path: path@,
                length: *length as nat,
            },
            CommandReply::List { key, empty, items } => ReplyView::List {
                key: key@,
                empty: empty@,
                items: texts(items@),
            },
            CommandReply::Playing(p) => ReplyView::Playing(p@),
        }
    }
}

/// The first `n` items, one per line behind their index.
pub open spec fn numbered_lines(items: Seq<Seq<char>>, n: nat) -> Seq<char>
    decreases n,
{
    if n == 0 {
        Seq::empty()
    } else {
        (if n == 1 {
            Seq::empty()
        } else {
            numbered_lines(items, (n - 1) as nat) + "\n"@
        }) + dec((n - 1) as nat) + ": "@ + items[n - 1]
    }
}

/// The word for a truth value.
pub open spec fn bool_text(b: bool) -> Seq<char> {
    if b {
        "true"@
    } else {
        "false"@
    }
}

/// A reply in text.
pub open spec fn reply_text(r: ReplyView) -> Seq<char> {
    match r {
        ReplyView::Message(m) => m,
        ReplyView::Failure(m) => m,
        ReplyView::Custom(m) => m,
        ReplyView::Status(s) => "playing: "@ + s.playing + "\nuptime: "@ + dec(
            s.uptime_seconds as nat,
        ) + "s\nlive: "@ + bool_text(s.live),
        ReplyView::Uptime(n) => "uptime: "@ + dec(n as nat) + "s"@,
        ReplyView::Queued { path, length } => "queued "@ + path + " ("@ + dec(length) + ")"@,
        ReplyView::List { key, empty, items } => if items.len() == 0 {
            empty
        } else {
            numbered_lines(items, items.len())
        },
        ReplyView::Playing(p) => "playing "@ + p,
    }
}

/// The fields of a reply in JSON: `ok`, and what the reply carries.
pub open spec fn reply_fields(r: ReplyView) -> Map<Seq<char>, JsonView> {
    let ok = no_fields().insert("ok"@, JsonView::Bool(true));
    match r {
        ReplyView::Message(m) => ok.insert("message"@, JsonView::Text(m)),
        ReplyView::Failure(m) => no_fields().insert("ok"@, JsonView::Bool(false)).insert(
            "error"@,
            JsonView::Text(m),
        ),
        ReplyView::Custom(m) => ok.insert("reply"@, JsonView::Text(m)),
        ReplyView::Status(s) => ok.insert("playing"@, JsonView::Text(s.playing)).insert(
            "uptime_seconds"@,
            JsonView::Number(s.uptime_seconds),
        ).insert("harbor_connected"@, JsonView::Bool(s.live)),
        ReplyView::Uptime(n) => ok.insert("uptime_seconds"@, JsonView::Number(n)),
        ReplyView::Queued { path, length } => ok.insert("queued"@, JsonView::Text(path)).insert(
            "length"@,
            JsonView::Number(length as u64),
        ),
        ReplyView::List { key, empty, items } => ok.insert(key, JsonView::Texts(items)),
        ReplyView::Playing(p) => ok.insert("playing"@, JsonView::Text(p)),
    }
}

impl CommandReply {
    /// The reply in text.
    pub fn text(&self) -> (s: String)
        ensures
            s@ == reply_text(self@),
    {
        match self {
            CommandReply::Message(m) => m.clone(),
            CommandReply::Failure(m) => m.clone(),
            CommandReply::Custom(m) => m.clone(),
            CommandReply::Status(st) => {
                let mut s = owned("playing: ");
                s.append(st.playing.as_str());
                s.append("\nuptime: ");
                push_dec(&mut s, st.uptime_seconds);
                s.append("s\nlive: ");
                s.append(if st.live { "true" } else { "false" });
                s
            },
            CommandReply::Uptime(n) => {
                let mut s = owned("uptime: ");
                push_dec(&mut s, *n);
                s.append("s");
                s
            },
            CommandReply::Queued { path, length } => {
                let mut s = owned("queued ");
                s.append(path.as_str());
                s.append(" (");
                push_dec(&mut s, *length as u64);
                s.append(")");
                s
            },
            CommandReply::List { key, empty, items } => {
                if items.len() == 0 {
                    owned(empty)
                } else {
                    lines_text(items)
                }
            },
            CommandReply::Playing(p) => {
                let mut s = owned("playing ");
                s.append(p.as_str());
                s
            },
        }
    }

    /// The reply as one line of JSON.
    pub fn json(&self) -> (s: String)
        ensures
            s@ == object_text(reply_fields(self@)),
            forall|i: int| 0 <= i < s@.len() ==> #[trigger] s@[i] != '\n',
            forall|k: Seq<char>|
                reply_fields(self@).contains_key(k) ==> (reply_fields(self@)[k] matches
                    JsonView::Text(t) ==> #[trigger] string_field_of(s@, k) == Ok::<
                    Option<Seq<char>>,
                    Seq<char>,
                >(Some(t))),
    {
        let mut m = new_object();
        match self {
            CommandReply::Failure(_) => put_bool(&mut m, "ok", false),
            _ => put_bool(&mut m, "ok", true),
        }
        match self {
            CommandReply::Message(msg) => put_text(&mut m, "message", msg.as_str()),
            CommandReply::Failure(msg) => put_text(&mut m, "error", msg.as_str()),
            CommandReply::Custom(msg) => put_text(&mut m, "reply", msg.as_str()),
            CommandReply::Status(st) => {
                put_text(&mut m, "playing", st.playing.as_str());
                put_number(&mut m, "uptime_seconds", st.uptime_seconds);
                put_bool(&mut m, "harbor_connected", st.live);
            },
            CommandReply::Uptime(n) => put_number(&mut m, "uptime_seconds", *n),
            CommandReply::Queued { path, length } => {
                put_text(&mut m, "queued", path.as_str());
                put_number(&mut m, "length", *length as u64);
            },
            CommandReply::List { key, empty, items } => put_texts(&mut m, key, items),
            CommandReply::Playing(p) => put_text(&mut m, "playing", p.as_str()),
        }
        render(m)
    }
}

fn lines_text(items: &Vec<String>) -> (s: String)
    ensures
        s@ == numbered_lines(texts(items@), items@.len()),
{
    let mut s = String::new();
    let mut i: usize = 0;
    while i < items.len()
        invariant
            i <= items@.len(),
            s@ == numbered_lines(texts(items@), i as nat),
        decreases items@.len() - i,
    {
        let ghost before = s@;
        if i > 0 {
            s.append("\n");
        }
        push_dec(&mut s, i as u64);
        s.append(": ");
        s.append(items[i].as_str());
        i = i + 1;
        proof {
            assert(texts(items@)[i - 1] == items@[i - 1]@);
            assert(s@ =~= numbered_lines(texts(items@), i as nat));
        }
    }
    s
}

// ---------------------------------------------------------------------------
// Commands
// ---------------------------------------------------------------------------

/// `json <command>` asks for a JSON reply; any other text is a command.
pub open spec fn json_prefix(cmd: Seq<char>) -> (bool, Seq<char>) {
    let rest = cmd.skip("json"@.len() as int);
    if has_prefix(cmd, "json"@) && (rest.len() == 0 || is_space(rest[0])) {
        (true, trimmed(rest))
    } else {
        (false, cmd)
    }
}

/// `json <command>` asks for a JSON reply; the name `json` is reserved.
pub fn split_json_prefix<'a>(cmd: &'a str) -> (r: (bool, &'a str))
    ensures
        (r.0, r.1@) == json_prefix(cmd@),
{
    match strip_prefix(cmd, "json") {
        Some(rest) => {
            if rest.is_empty() || char_is_space(rest.get_char(0)) {
                (true, trim(rest))
            } else {
                (false, cmd)
            }
        },
        None => (false, cmd),
    }
}

/// The list of commands.
pub open spec fn help() -> Seq<char> {
    "commands: jingles.list | jingles.play [n|substr] | queue.push <path> | queue.list | queue.clear | queue.skip | skip | status | uptime | shutdown | <custom commands> | json <command> | exit | help"@
}

/// The list of commands.
pub fn help_text() -> (s: &'static str)
    ensures
        s@ == help(),
{
    "commands: jingles.list | jingles.play [n|substr] | queue.push <path> | queue.list | queue.clear | queue.skip | skip | status | uptime | shutdown | <custom commands> | json <command> | exit | help"
}

/// The jingle's file name holds the needle, whatever the case of ASCII
/// letters.
pub open spec fn jingle_matches(path: Seq<char>, arg: Seq<char>) -> bool {
    match file_name_of(path) {
        Some(name) => contains_text(lowered(name), lowered(arg)),
        None => false,
    }
}

/// The first jingle from `i` on whose name holds the needle.
pub open spec fn first_match(jingles: Seq<Seq<char>>, arg: Seq<char>, i: int) -> Option<int>
    decreases jingles.len() - i,
{
    if i >= jingles.len() {
        None
    } else if jingle_matches(jingles[i], arg) {
        Some(i)
    } else {
        first_match(jingles, arg, i + 1)
    }
}

/// The jingle that an argument names: a number is an index, anything else a
/// part of the file name.
pub open spec fn picked(jingles: Seq<Seq<char>>, arg: Seq<char>) -> Result<int, Seq<char>> {
    match parsed(arg, 10, usize::MAX as int) {
        Some(i) => if i < jingles.len() {
            Ok(i)
        } else {
            Err("jingle index out of range (0.."@ + dec(jingles.len()) + ")"@)
        },
        None => match first_match(jingles, arg, 0) {
            Some(i) => Ok(i),
            None => Err("no jingle matching \""@ + arg + "\""@),
        },
    }
}

/// Finds the jingle that an argument names.
pub fn pick_jingle(jingles: &[String], arg: &str) -> (r: Result<usize, String>)
    ensures
        match r {
            Ok(i) => i < jingles@.len() && picked(texts(jingles@), arg@) == Ok::<int, Seq<char>>(
                i as int,
            ),
            Err(e) => picked(texts(jingles@), arg@) == Err::<int, Seq<char>>(e@),
        },
{
    match parse_unsigned(arg, 10, usize::MAX as u64) {
        Some(i) => {
            if i < jingles.len() as u64 {
                Ok(i as usize)
            } else {
                let mut e = owned("jingle index out of range (0..");
                push_dec(&mut e, jingles.len() as u64);
                e.append(")");
                Err(e)
            }
        },
        None => {
            let needle = to_lower(arg);
            let mut i: usize = 0;
            while i < jingles.len()
                invariant
                    i <= jingles@.len(),
                    needle@ == lowered(arg@),
                    parsed(arg@, 10, usize::MAX as int) is None,
                    first_match(texts(jingles@), arg@, 0) == first_match(
                        texts(jingles@),
                        arg@,
                        i as int,
                    ),
                decreases jingles@.len() - i,
            {
                let hit = match file_name(jingles[i].as_str()) {
                    Some(name) => contains(to_lower(name.as_str()).as_str(), needle.as_str()),
                    None => false,
                };
                proof {
                    assert(texts(jingles@)[i as int] == jingles@[i as int]@);
                    assert(hit == jingle_matches(jingles@[i as int]@, arg@));
                }
                if hit {
                    proof {
                        assert(first_match(texts(jingles@), arg@, i as int) == Some(i as int));
                    }
                    return Ok(i);
                }
                i = i + 1;
            }
            let mut e = owned("no jingle matching \"");
            e.append(arg);
            e.append("\"");
            Err(e)
        },
    }
}

/// What the engine shall do beside the reply.
pub enum SignalView {
    Skip,
    Shutdown,
    PlayJingle(Seq<char>),
}

/// What the engine shall do beside the reply.
#[derive(Clone, Debug)]
pub enum Signal {
    /// Skip the current playlist track.
    Skip,
    /// Stop.
    Shutdown,
    /// Play the jingle at this path.
    PlayJingle(String),
}

impl View for Signal {
    type V = SignalView;

    open spec fn view(&self) -> SignalView {
        match self {
            Signal::Skip => SignalView::Skip,
            Signal::Shutdown => SignalView::Shutdown,
            Signal::PlayJingle(p) => SignalView::PlayJingle(p@),
        }
    }
}

/// The view of an optional signal.
pub open spec fn opt_signal(s: Option<Signal>) -> Option<SignalView> {
    match s {
        Some(x) => Some(x@),
        None => None,
    }
}

/// How a command goes on.
pub enum StepView {
    Reply(ReplyView, Option<SignalView>),
    Exit,
    ProbeJingle(Seq<char>),
    CallScript { index: int, args: Seq<char> },
}

/// How a command goes on.
pub enum Step {
    /// It is answered; the engine may get a signal.
    Reply(CommandReply, Option<Signal>),
    /// The connection closes.
    Exit,
    /// Look whether the jingle file exists, and go on with [`play_jingle`].
    ProbeJingle(String),
    /// Hand the arguments to the script's command, and go on with
    /// [`script_reply`].
    CallScript { index: usize, args: String },
}

impl View for Step {
    type V = StepView;

    open spec fn view(&self) -> StepView {
        match self {
            Step::Reply(r, s) => StepView::Reply(r@, opt_signal(*s)),
            Step::Exit => StepView::Exit,
            Step::ProbeJingle(p) => StepView::ProbeJingle(p@),
            Step::CallScript { index, args } => StepView::CallScript {
                index: *index as int,
                args: args@,
            },
        }
    }
}

/// What commands refer to besides the queue.
pub struct CtxView {
    pub jingles: Seq<Seq<char>>,
    pub custom: Seq<Seq<char>>,
    pub status: StatusView,
}

/// What commands refer to besides the queue.
pub struct DispatchCtx<'a> {
    /// Paths of the jingles.
    pub jingles: &'a [String],
    /// Names of the commands that the script registered.
    pub custom: &'a [String],
    /// The engine status at this moment.
    pub status: EngineStatus,
}

impl<'a> View for DispatchCtx<'a> {
    type V = CtxView;

    open spec fn view(&self) -> CtxView {
        CtxView {
            jingles: texts(self.jingles@),
            custom: texts(self.custom@),
            status: self.status@,
        }
    }
}

/// The words from `i` on, with a blank between them.
pub open spec fn joined_words(w: Seq<Seq<char>>, i: int) -> Seq<char>
    decreases w.len() - i,
{
    if i >= w.len() {
        Seq::empty()
    } else if i + 1 == w.len() {
        w[i]
    } else {
        w[i] + " "@ + joined_words(w, i + 1)
    }
}

/// The place of the first name from `i` on that equals `name`.
pub open spec fn position(names: Seq<Seq<char>>, name: Seq<char>, i: int) -> Option<int>
    decreases names.len() - i,
{
    if i >= names.len() {
        None
    } else if names[i] == name {
        Some(i)
    } else {
        position(names, name, i + 1)
    }
}

/// The reply to a queue command of a script without a queue.
pub open spec fn no_queue() -> StepView {
    StepView::Reply(ReplyView::Failure("ERROR: no request.queue source in script"@), None)
}

/// A plain success.
pub open spec fn ok_step(m: Seq<char>, s: Option<SignalView>) -> StepView {
    StepView::Reply(ReplyView::Message(m), s)
}

/// A failure.
pub open spec fn err_step(m: Seq<char>) -> StepView {
    StepView::Reply(ReplyView::Failure(m), None)
}

/// The queue and the step after a queue command; `w` are its words.
pub open spec fn queue_step(
    w: Seq<Seq<char>>,
    queue: Option<QueueView>,
    readings: Seq<Reading>,
) -> (Option<QueueView>, StepView) {
    if w[0] == "queue.push"@ && w.len() < 2 {
        (queue, err_step("usage: queue.push <path>"@))
    } else {
        match queue {
            None => (queue, no_queue()),
            Some(q) => if w[0] == "queue.push"@ {
                let after = QueueView { items: q.items.push(request_of(w[1], readings)), ..q };
                (
                    Some(after),
                    StepView::Reply(
                        ReplyView::Queued { path: w[1], length: after.items.len() },
                        None,
                    ),
                )
            } else if w[0] == "queue.list"@ {
                (
                    queue,
                    StepView::Reply(
                        ReplyView::List {
                            key: "queue"@,
                            empty: "queue empty"@,
                            items: raw_items(q),
                        },
                        None,
                    ),
                )
            } else if w[0] == "queue.clear"@ {
                (
                    Some(QueueView { items: Seq::empty(), ..q }),
                    ok_step("queue cleared"@, None),
                )
            } else {
                (Some(QueueView { skip: true, ..q }), ok_step("skipping queued track"@, None))
            },
        }
    }
}

/// The step after `jingles.play`; `random` is the index that chance picked.
pub open spec fn jingle_step(w: Seq<Seq<char>>, jingles: Seq<Seq<char>>, random: int) -> StepView {
    if w.len() >= 2 {
        match picked(jingles, w[1]) {
            Ok(i) => StepView::ProbeJingle(jingles[i]),
            Err(e) => err_step("ERROR: "@ + e),
        }
    } else if jingles.len() == 0 {
        err_step("ERROR: no jingles configured"@)
    } else {
        StepView::ProbeJingle(jingles[random])
    }
}

/// One of the four queue commands.
pub open spec fn is_queue_verb(verb: Seq<char>) -> bool {
    verb == "queue.push"@ || verb == "queue.list"@ || verb == "queue.clear"@ || verb
        == "queue.skip"@
}

/// What a command does: the queue afterwards and how it goes on. `random` is
/// the index that chance picked for a jingle.
pub open spec fn dispatched(
    cmd: Seq<char>,
    ctx: CtxView,
    queue: Option<QueueView>,
    readings: Seq<Reading>,
    random: int,
) -> (Option<QueueView>, StepView) {
    let w = words(cmd);
    let verb = if w.len() == 0 {
        Seq::empty()
    } else {
        w[0]
    };
    if verb == "help"@ {
        (queue, ok_step(help(), None))
    } else if verb == "exit"@ || verb == "quit"@ {
        (queue, StepView::Exit)
    } else if verb == "skip"@ {
        (queue, ok_step("skipping"@, Some(SignalView::Skip)))
    } else if is_queue_verb(verb) {
        queue_step(w, queue, readings)
    } else if verb == "status"@ {
        (queue, StepView::Reply(ReplyView::Status(ctx.status), None))
    } else if verb == "uptime"@ {
        (queue, StepView::Reply(ReplyView::Uptime(ctx.status.uptime_seconds), None))
    } else if verb == "shutdown"@ {
        (queue, ok_step("shutting down"@, Some(SignalView::Shutdown)))
    } else if verb == "jingles.list"@ {
        (
            queue,
            StepView::Reply(
                ReplyView::List {
                    key: "jingles"@,
                    empty: "no jingles configured"@,
                    items: ctx.jingles,
                },
                None,
            ),
        )
    } else if verb == "jingles.play"@ {
        (queue, jingle_step(w, ctx.jingles, random))
    } else {
        match position(ctx.custom, verb, 0) {
            Some(index) => (queue, StepView::CallScript { index, args: joined_words(w, 1) }),
            None => (queue, err_step("unknown command: "@ + cmd + " (help for commands)"@)),
        }
    }
}

/// The request that a command pushes to the queue.
pub open spec fn pushed_request(cmd: Seq<char>) -> Option<Seq<char>> {
    let w = words(cmd);
    if w.len() >= 2 && w[0] == "queue.push"@ {
        Some(w[1])
    } else {
        None
    }
}

/// The readings are those of the request that the command pushes, if it
/// pushes one.
pub open spec fn command_readings_match(cmd: Seq<char>, readings: Seq<Reading>) -> bool {
    pushed_request(cmd) matches Some(uri) ==> readings_match(uri, readings)
}

/// The request that a command pushes to the queue, for which numbers have to
/// be read.
pub fn request_argument(cmd: &str) -> (r: Option<String>)
    ensures
        match r {
            Some(s) => pushed_request(cmd@) == Some(s@),
            None => pushed_request(cmd@) is None,
        },
{
    let w = split_words(cmd);
    proof {
        lemma_str_views(w@);
    }
    if w.len() >= 2 && same(w[0], "queue.push") {
        Some(owned(w[1]))
    } else {
        None
    }
}

proof fn lemma_str_views(w: Seq<&str>)
    ensures
        str_views(w).len() == w.len(),
        forall|i: int| 0 <= i < w.len() ==> #[trigger] str_views(w)[i] == w[i]@,
{
}

fn join_words(w: &Vec<&str>, from: usize) -> (s: String)
    ensures
        s@ == joined_words(str_views(w@), from as int),
{
    let mut s = String::new();
    let mut i: usize = from;
    proof {
        lemma_str_views(w@);
        assert(s@ + joined_words(str_views(w@), from as int) =~= joined_words(
            str_views(w@),
            from as int,
        ));
    }
    while i < w.len()
        invariant
            from <= i,
            i <= w@.len() || i == from,
            s@ + joined_words(str_views(w@), i as int) == joined_words(
                str_views(w@),
                from as int,
            ),
        decreases w@.len() - i,
    {
        let ghost before = s@;
        proof {
            lemma_str_views(w@);
        }
        s.append(w[i]);
        if i + 1 < w.len() {
            s.append(" ");
        }
        proof {
            let rest = joined_words(str_views(w@), i + 1);
            assert(s@ + rest =~= before + joined_words(str_views(w@), i as int));
        }
        i = i + 1;
    }
    assert(s@ + Seq::<char>::empty() =~= s@);
    s
}

fn find_name(names: &[String], name: &str) -> (r: Option<usize>)
    ensures
        match r {
            Some(i) => position(texts(names@), name@, 0) == Some(i as int),
            None => position(texts(names@), name@, 0) is None,
        },
{
    let mut i: usize = 0;
    while i < names.len()
        invariant
            i <= names@.len(),
            position(texts(names@), name@, 0) == position(texts(names@), name@, i as int),
        decreases names@.len() - i,
    {
        assert(texts(names@)[i as int] == names@[i as int]@);
        if same(names[i].as_str(), name) {
            return Some(i);
        }
        i = i + 1;
    }
    None
}

fn reply_ok(m: &str, s: Option<Signal>) -> (r: Step)
    ensures
        r@ == ok_step(m@, opt_signal(s)),
{
    Step::Reply(CommandReply::Message(owned(m)), s)
}

fn reply_err(m: &str) -> (r: Step)
    ensures
        r@ == err_step(m@),
{
    Step::Reply(CommandReply::Failure(owned(m)), None)
}

fn copy_texts(v: &[String]) -> (out: Vec<String>)
    ensures
        texts(out@) == texts(v@),
{
    let mut out: Vec<String> = Vec::new();
    let mut i: usize = 0;
    while i < v.len()
        invariant
            i <= v@.len(),
            out@.len() == i,
            forall|k: int| 0 <= k < i ==> (#[trigger] out@[k])@ == v@[k]@,
        decreases v@.len() - i,
    {
        out.push(v[i].clone());
        i = i + 1;
    }
    assert(texts(out@) =~= texts(v@));
    out
}

fn dispatch_queue(w: &Vec<&str>, queue: &mut Option<RequestQueue>, readings: &[Reading]) -> (r: Step)
    requires
        w@.len() > 0,
        is_queue_verb(str_views(w@)[0]),
        str_views(w@)[0] == "queue.push"@ && w@.len() >= 2 ==> readings_match(
            str_views(w@)[1],
            readings@,
        ),
        opt_queue(*old(queue)) matches Some(q) ==> q.items.len() < usize::MAX,
    ensures
        (opt_queue(*final(queue)), r@) == queue_step(
            str_views(w@),
            opt_queue(*old(queue)),
            readings@,
        ),
{
    proof {
        lemma_str_views(w@);
    }
    let push = same(w[0], "queue.push");
    if push && w.len() < 2 {
        return reply_err("usage: queue.push <path>");
    }
    match queue {
        None => reply_err("ERROR: no request.queue source in script"),
        Some(q) => {
            if push {
                q.push(RequestUri::new(w[1], readings));
                let length: usize = q.len();
                Step::Reply(CommandReply::Queued { path: owned(w[1]), length }, None)
            } else if same(w[0], "queue.list") {
                let items = q.list();
                Step::Reply(CommandReply::List { key: "queue", empty: "queue empty", items }, None)
            } else if same(w[0], "queue.clear") {
                q.clear();
                reply_ok("queue cleared", None)
            } else {
                q.request_skip();
                reply_ok("skipping queued track", None)
            }
        },
    }
}

/// Runs a command with the random choice already made.
pub fn dispatch_with(
    cmd: &str,
    ctx: &DispatchCtx,
    queue: &mut Option<RequestQueue>,
    readings: &[Reading],
    random: usize,
) -> (r: Step)
    requires
        command_readings_match(cmd@, readings@),
        ctx@.jingles.len() > 0 ==> random < ctx@.jingles.len(),
        opt_queue(*old(queue)) matches Some(q) ==> q.items.len() < usize::MAX,
    ensures
        (opt_queue(*final(queue)), r@) == dispatched(
            cmd@,
            ctx@,
            opt_queue(*old(queue)),
            readings@,
            random as int,
        ),
{
    let w = split_words(cmd);
    proof {
        lemma_str_views(w@);
    }
    let verb: &str = if w.len() == 0 { "" } else { w[0] };
    proof {
        reveal_strlit("");
        assert(""@ =~= Seq::<char>::empty());
        lemma_verbs();
    }
    if same(verb, "help") {
        reply_ok(help_text(), None)
    } else if same(verb, "exit") || same(verb, "quit") {
        Step::Exit
    } else if same(verb, "skip") {
        reply_ok("skipping", Some(Signal::Skip))
    } else if same(verb, "queue.push") || same(verb, "queue.list") || same(verb, "queue.clear")
        || same(verb, "queue.skip") {
        dispatch_queue(&w, queue, readings)
    } else if same(verb, "status") {
        let status = EngineStatus {
            playing: ctx.status.playing.clone(),
            uptime_seconds: ctx.status.uptime_seconds,
            live: ctx.status.live,
        };
        Step::Reply(CommandReply::Status(status), None)
    } else if same(verb, "uptime") {
        Step::Reply(CommandReply::Uptime(ctx.status.uptime_seconds), None)
    } else if same(verb, "shutdown") {
        reply_ok("shutting down", Some(Signal::Shutdown))
    } else if same(verb, "jingles.list") {
        let items = copy_texts(ctx.jingles);
        Step::Reply(
            CommandReply::List { key: "jingles", empty: "no jingles configured", items },
            None,
        )
    } else if same(verb, "jingles.play") {
        if w.len() >= 2 {
            match pick_jingle(ctx.jingles, w[1]) {
                Ok(i) => {
                    assert(texts(ctx.jingles@)[i as int] == ctx.jingles@[i as int]@);
                    Step::ProbeJingle(ctx.jingles[i].clone())
                },
                Err(e) => {
                    let mut m = owned("ERROR: ");
                    m.append(e.as_str());
                    reply_err(m.as_str())
                },
            }
        } else if ctx.jingles.len() == 0 {
            reply_err("ERROR: no jingles configured")
        } else {
            assert(texts(ctx.jingles@)[random as int] == ctx.jingles@[random as int]@);
            Step::ProbeJingle(ctx.jingles[random].clone())
        }
    } else {
        match find_name(ctx.custom, verb) {
            Some(index) => Step::CallScript { index, args: join_words(&w, 1) },
            None => {
                let mut m = owned("unknown command: ");
                m.append(cmd);
                m.append(" (help for commands)");
                reply_err(m.as_str())
            },
        }
    }
}

/// No command is the empty word.
proof fn lemma_verbs()
    ensures
        "queue.push"@.len() > 0,
        "queue.list"@.len() > 0,
        "queue.clear"@.len() > 0,
        "queue.skip"@.len() > 0,
        "jingles.play"@.len() > 0,
{
    reveal_strlit("queue.push");
    reveal_strlit("queue.list");
    reveal_strlit("queue.clear");
    reveal_strlit("queue.skip");
    reveal_strlit("jingles.play");
}

/// `rand::rngs::SmallRng`: a source of random numbers.
#[verifier::external_type_specification]
#[verifier::external_body]
pub struct ExSmallRng(rand::rngs::SmallRng);

/// `rand::Rng::gen_range` over `0..n`: some index below `n`.
#[verifier::external_body]
fn random_index(rng: &mut rand::rngs::SmallRng, n: usize) -> (i: usize)
    requires
        n > 0,
    ensures
        i < n,
{
    rand::Rng::gen_range(rng, 0..n)
}

/// Runs a command: `rng` picks the jingle where the command names none.
/// `readings` holds the numbers of the request that the command pushes (see
/// [`request_argument`]).
pub fn dispatch(
    cmd: &str,
    ctx: &DispatchCtx,
    queue: &mut Option<RequestQueue>,
    readings: &[Reading],
    rng: &mut rand::rngs::SmallRng,
) -> (r: Step)
    requires
        command_readings_match(cmd@, readings@),
        opt_queue(*old(queue)) matches Some(q) ==> q.items.len() < usize::MAX,
    ensures
        exists|random: int|
            (ctx@.jingles.len() > 0 ==> 0 <= random < ctx@.jingles.len()) && (
            opt_queue(*final(queue)),
            r@,
        ) == #[trigger] dispatched(cmd@, ctx@, opt_queue(*old(queue)), readings@, random),
{
    let random: usize = if ctx.jingles.len() == 0 {
        0
    } else {
        random_index(rng, ctx.jingles.len())
    };
    dispatch_with(cmd, ctx, queue, readings, random)
}

/// The reply to a jingle request, and the signal to play it, once it is known
/// whether the file exists.
pub open spec fn jingle_played(path: Seq<char>, exists_: bool) -> StepView {
    if exists_ {
        StepView::Reply(ReplyView::Playing(path), Some(SignalView::PlayJingle(path)))
    } else {
        err_step("ERROR: jingle missing: "@ + path)
    }
}

/// Answers a jingle request, once it is known whether the file exists.
pub fn play_jingle(path: &str, exists_: bool) -> (r: Step)
    ensures
        r@ == jingle_played(path@, exists_),
{
    if !exists_ {
        let mut m = owned("ERROR: jingle missing: ");
        m.append(path);
        return reply_err(m.as_str());
    }
    Step::Reply(CommandReply::Playing(owned(path)), Some(Signal::PlayJingle(owned(path))))
}

/// What came back from the script.
pub enum ScriptAnswer {
    /// Its event loop is gone.
    NotRunning,
    /// The handler's reply.
    Text(String),
    /// The handler's error.
    Failed(String),
    /// Nothing in time.
    TimedOut,
}

/// The reply to a command of the script.
pub open spec fn script_replied(a: ScriptAnswer) -> ReplyView {
    match a {
        ScriptAnswer::NotRunning => ReplyView::Failure("ERROR: script event loop is not running"@),
        ScriptAnswer::Text(t) => ReplyView::Custom(t@),
        ScriptAnswer::Failed(e) => ReplyView::Failure("ERROR: "@ + e@),
        ScriptAnswer::TimedOut => ReplyView::Failure("ERROR: custom command timed out"@),
    }
}

/// Answers a command of the script.
pub fn script_reply(a: ScriptAnswer) -> (r: CommandReply)
    ensures
        r@ == script_replied(a),
{
    match a {
        ScriptAnswer::NotRunning => CommandReply::Failure(
            owned("ERROR: script event loop is not running"),
        ),
        ScriptAnswer::Text(t) => CommandReply::Custom(t),
        ScriptAnswer::Failed(e) => {
            let mut m = owned("ERROR: ");
            m.append(e.as_str());
            CommandReply::Failure(m)
        },
        ScriptAnswer::TimedOut => CommandReply::Failure(owned("ERROR: custom command timed out")),
    }
}

// ---------------------------------------------------------------------------
// Telnet lines
// ---------------------------------------------------------------------------

/// What one line of a connection asks for.
pub enum LineView {
    Nothing,
    Usage,
    Command { json: bool, cmd: Seq<char> },
}

/// What one line of a connection asks for.
pub enum Line<'a> {
    /// It is blank.
    Nothing,
    /// It is `json` without a command.
    Usage,
    /// A command, answered in JSON or in text.
    Command { json: bool, cmd: &'a str },
}

impl<'a> View for Line<'a> {
    type V = LineView;

    open spec fn view(&self) -> LineView {
        match self {
            Line::Nothing => LineView::Nothing,
            Line::Usage => LineView::Usage,
            Line::Command { json, cmd } => LineView::Command { json: *json, cmd: cmd@ },
        }
    }
}

/// What one line of a connection asks for.
pub open spec fn line_of(line: Seq<char>) -> LineView {
    let cmd = trimmed(line);
    if cmd.len() == 0 {
        LineView::Nothing
    } else {
        let (json, rest) = json_prefix(cmd);
        if rest.len() == 0 {
            LineView::Usage
        } else {
            LineView::Command { json, cmd: rest }
        }
    }
}

/// Reads one line of a connection.
pub fn read_command_line<'a>(line: &'a str) -> (r: Line<'a>)
    ensures
        r@ == line_of(line@),
{
    let cmd = trim(line);
    if cmd.is_empty() {
        return Line::Nothing;
    }
    let (json, rest) = split_json_prefix(cmd);
    if rest.is_empty() {
        Line::Usage
    } else {
        Line::Command { json, cmd: rest }
    }
}

/// The reply to `json` without a command.
pub fn usage_reply() -> (r: CommandReply)
    ensures
        r@ == ReplyView::Failure("usage: json <command>"@),
{
    CommandReply::Failure(owned("usage: json <command>"))
}

/// The line that greets a connection, unless it is switched off.
pub fn banner_text() -> (s: &'static str)
    ensures
        s@ == "welcome to the crabsoup control port (help for commands)"@,
{
    "welcome to the crabsoup control port (help for commands)"
}

// ---------------------------------------------------------------------------
// HTTP
// ---------------------------------------------------------------------------

/// Largest head of a request.
pub const MAX_HTTP_HEADER: usize = 16_384;

/// Largest body of a request.
pub const MAX_HTTP_BODY: usize = 65_536;

/// `String::from_utf8_lossy`: valid UTF-8 is decoded; other bytes are
/// replaced.
pub uninterp spec fn lossy_text(data: Seq<u8>) -> Seq<char>;

/// `String::from_utf8_lossy`: the text of the bytes, with a replacement
/// character for whatever is not UTF-8.
#[verifier::external_body]
pub(crate) fn text_of_bytes(data: &[u8]) -> (s: String)
    ensures
        s@ == lossy_text(data@),
        vstd::utf8::valid_utf8(data@) ==> s@ == vstd::utf8::decode_utf8(data@),
{
    String::from_utf8_lossy(data).into_owned()
}

/// A blank line starts at `i`.
pub open spec fn head_ends_at(buf: Seq<u8>, i: int) -> bool {
    0 <= i && i + 4 <= buf.len() && buf[i] == 13 && buf[i + 1] == 10 && buf[i + 2] == 13 && buf[i
        + 3] == 10
}

/// Where the head ends: the first blank line at or behind `i`.
pub open spec fn head_end_from(buf: Seq<u8>, i: int) -> Option<int>
    decreases buf.len() - i,
{
    if i + 4 > buf.len() {
        None
    } else if head_ends_at(buf, i) {
        Some(i)
    } else {
        head_end_from(buf, i + 1)
    }
}

/// The place of the first CR LF CR LF.
pub fn find_head_end(buf: &[u8]) -> (r: Option<usize>)
    ensures
        match r {
            Some(i) => head_end_from(buf@, 0) == Some(i as int) && i + 4 <= buf@.len(),
            None => head_end_from(buf@, 0) is None,
        },
{
    let n: usize = buf.len();
    let mut i: usize = 0;
    while n >= 4 && i <= n - 4
        invariant
            n == buf@.len(),
            i <= n,
            head_end_from(buf@, 0) == head_end_from(buf@, i as int),
        decreases n - i,
    {
        if buf[i] == 13 && buf[i + 1] == 10 && buf[i + 2] == 13 && buf[i + 3] == 10 {
            return Some(i);
        }
        i = i + 1;
    }
    None
}

/// A request that is refused: its status code and the JSON body of the
/// answer.
#[derive(Clone, Debug)]
pub struct Refusal {
    pub code: u16,
    pub body: String,
}

/// The body of an error answer.
pub open spec fn error_body(msg: Seq<char>) -> Seq<char> {
    object_text(reply_fields(ReplyView::Failure(msg)))
}

impl Refusal {
    /// The refusal has this code and this message.
    pub open spec fn says(&self, code: u16, msg: Seq<char>) -> bool {
        self.code == code && self.body@ == error_body(msg)
    }
}

/// The JSON body of an error answer.
pub fn http_error(msg: &str) -> (s: String)
    ensures
        s@ == error_body(msg@),
{
    CommandReply::Failure(owned(msg)).json()
}

/// How far the head of a request has been read.
pub enum HeadProgress {
    /// Read more.
    More,
    /// The head ends here; the body starts four bytes behind.
    End(usize),
    /// Refuse the request.
    Refuse(Refusal),
}

/// Looks at the bytes read so far; `closed` says that no more will come.
pub fn head_progress(buf: &[u8], closed: bool) -> (r: HeadProgress)
    ensures
        match r {
            HeadProgress::Refuse(f) => {
                ||| buf@.len() > MAX_HTTP_HEADER && f.says(431, "request header too large"@)
                ||| buf@.len() <= MAX_HTTP_HEADER && head_end_from(buf@, 0) is None && closed
                    && f.says(400, "connection closed mid-request"@)
            },
            HeadProgress::End(i) => buf@.len() <= MAX_HTTP_HEADER && i + 4 <= buf@.len()
                && head_end_from(buf@, 0) == Some(i as int),
            HeadProgress::More => buf@.len() <= MAX_HTTP_HEADER && head_end_from(buf@, 0) is None
                && !closed,
        },
{
    if buf.len() > MAX_HTTP_HEADER {
        return HeadProgress::Refuse(
            Refusal { code: 431, body: http_error("request header too large") },
        );
    }
    match find_head_end(buf) {
        Some(i) => HeadProgress::End(i),
        None => if closed {
            HeadProgress::Refuse(
                Refusal { code: 400, body: http_error("connection closed mid-request") },
            )
        } else {
            HeadProgress::More
        },
    }
}

/// The method and path of a request head: the first two words of its first
/// line, which has at least three.
pub open spec fn request_line(head: Seq<char>) -> Option<(Seq<char>, Seq<char>)> {
    let w = words(split_all(head, '\n')[0]);
    if w.len() < 3 {
        None
    } else {
        Some((w[0], w[1]))
    }
}

/// Reads the method and path of a request head.
pub fn parse_request_head(head: &str) -> (r: Result<(String, String), (u16, String)>)
    ensures
        match r {
            Ok((m, p)) => request_line(head@) == Some((m@, p@)),
            Err((code, msg)) => request_line(head@) is None && code == 400 && msg@
                == "malformed request line"@,
        },
{
    let lines = split(head, '\n');
    proof {
        lemma_str_views(lines@);
        crate::text::lemma_split_nonempty(head@, '\n');
    }
    let w = split_words(lines[0]);
    proof {
        lemma_str_views(w@);
    }
    if w.len() < 3 {
        Err((400, owned("malformed request line")))
    } else {
        Ok((owned(w[0]), owned(w[1])))
    }
}

/// The length that a header line gives.
pub open spec fn line_length(line: Seq<char>) -> Option<int> {
    match split_first(line, ':') {
        Some((name, value)) => if lowered(trimmed(name)) == lowered("content-length"@) {
            parsed(trimmed(value), 10, usize::MAX as int)
        } else {
            None
        },
        None => None,
    }
}

/// The first length that a line from `i` on gives.
pub open spec fn first_length(lines: Seq<Seq<char>>, i: int) -> Option<int>
    decreases lines.len() - i,
{
    if i >= lines.len() {
        None
    } else {
        match line_length(lines[i]) {
            Some(n) => Some(n),
            None => first_length(lines, i + 1),
        }
    }
}

/// The body length that a request head announces, on any line behind the
/// first.
pub open spec fn announced_length(head: Seq<char>) -> Option<int> {
    first_length(split_all(head, '\n'), 1)
}

/// Reads the `Content-Length` of a request head.
pub fn content_length(head: &str) -> (r: Option<usize>)
    ensures
        match r {
            Some(n) => announced_length(head@) == Some(n as int),
            None => announced_length(head@) is None,
        },
{
    let lines = split(head, '\n');
    let ghost all = str_views(lines@);
    let mut i: usize = 1;
    proof {
        lemma_str_views(lines@);
        crate::text::lemma_split_nonempty(head@, '\n');
    }
    while i < lines.len()
        invariant
            1 <= i <= lines@.len(),
            all == str_views(lines@),
            all == split_all(head@, '\n'),
            first_length(all, 1) == first_length(all, i as int),
        decreases lines@.len() - i,
    {
        proof {
            lemma_str_views(lines@);
        }
        let line = lines[i];
        match split_once(line, ':') {
            Some((name, value)) => {
                if same_ignoring_case(trim(name), "content-length") {
                    match parse_unsigned(trim(value), 10, usize::MAX as u64) {
                        Some(n) => {
                            return Some(n as usize);
                        },
                        None => {},
                    }
                }
            },
            None => {},
        }
        i = i + 1;
    }
    None
}

/// A request head, understood.
#[derive(Clone, Debug)]
pub struct RequestPlan {
    pub method: String,
    pub path: String,
    /// Bytes of the body; all that came with the head where no length was
    /// announced.
    pub body_len: Option<usize>,
}

/// Understands the head of a request, or refuses it.
pub fn request_plan(head: &[u8]) -> (r: Result<RequestPlan, Refusal>)
    ensures
        match r {
            Ok(p) => {
                &&& request_line(lossy_text(head@)) == Some((p.method@, p.path@))
                &&& match p.body_len {
                    Some(n) => n <= MAX_HTTP_BODY && announced_length(lossy_text(head@)) == Some(
                        n as int,
                    ),
                    None => announced_length(lossy_text(head@)) is None,
                }
            },
            Err(f) => {
                ||| request_line(lossy_text(head@)) is None && f.says(
                    400,
                    "malformed request line"@,
                )
                ||| request_line(lossy_text(head@)) is Some && (announced_length(
                    lossy_text(head@),
                ) matches Some(n) && n > MAX_HTTP_BODY) && f.says(413, "request body too large"@)
            },
        },
{
    let text = text_of_bytes(head);
    match parse_request_head(text.as_str()) {
        Err((code, msg)) => Err(Refusal { code, body: http_error(msg.as_str()) }),
        Ok((method, path)) => {
            let body_len = content_length(text.as_str());
            match body_len {
                Some(n) => {
                    if n > MAX_HTTP_BODY {
                        return Err(
                            Refusal { code: 413, body: http_error("request body too large") },
                        );
                    }
                },
                None => {},
            }
            Ok(RequestPlan { method, path, body_len })
        },
    }
}

/// How far the body of a request has been read.
pub enum BodyProgress {
    /// Read more.
    More,
    /// The body, as text.
    Done(String),
    /// Refuse the request.
    Refuse(Refusal),
}

/// Looks at the body bytes read so far; `closed` says that no more will come.
pub fn body_progress(body: &[u8], body_len: Option<usize>, closed: bool) -> (r: BodyProgress)
    ensures
        match body_len {
            None => r matches BodyProgress::Done(s) && s@ == lossy_text(body@),
            Some(n) => if body@.len() >= n {
                r matches BodyProgress::Done(s) && s@ == lossy_text(body@.take(n as int))
            } else if closed {
                r matches BodyProgress::Refuse(f) && f.says(400, "connection closed mid-body"@)
            } else {
                r is More
            },
        },
{
    match body_len {
        None => BodyProgress::Done(text_of_bytes(body)),
        Some(n) => if body.len() >= n {
            proof {
                assert(body@.take(n as int) =~= body@.subrange(0, n as int));
            }
            BodyProgress::Done(text_of_bytes(vstd::slice::slice_subrange(body, 0, n)))
        } else if closed {
            BodyProgress::Refuse(
                Refusal { code: 400, body: http_error("connection closed mid-body") },
            )
        } else {
            BodyProgress::More
        },
    }
}

/// The command that a request stands for, or the code and message of its
/// refusal.
pub open spec fn routed(method: Seq<char>, path: Seq<char>, body: Seq<char>) -> Result<
    Seq<char>,
    (u16, Seq<char>),
> {
    if method == "GET"@ && path == "/status"@ {
        Ok("status"@)
    } else if method == "GET"@ && path == "/uptime"@ {
        Ok("uptime"@)
    } else if method == "GET"@ && path == "/queue"@ {
        Ok("queue.list"@)
    } else if method == "GET"@ && path == "/jingles"@ {
        Ok("jingles.list"@)
    } else if method == "POST"@ && path == "/cmd"@ {
        match string_field_of(body, "command"@) {
            Ok(Some(c)) => Ok(c),
            Ok(None) => Err((400, "missing \"command\" string field"@)),
            Err(e) => Err((400, "invalid JSON body: "@ + e)),
        }
    } else if method == "GET"@ || method == "POST"@ {
        Err((404, "not found: "@ + method + " "@ + path))
    } else {
        Err((405, "method not allowed: "@ + method))
    }
}

/// Finds the command that a request stands for.
pub fn route_command(method: &str, path: &str, body: &str) -> (r: Result<String, Refusal>)
    ensures
        match routed(method@, path@, body@) {
            Ok(c) => r matches Ok(s) && s@ == c,
            Err((code, msg)) => r matches Err(f) && f.says(code, msg),
        },
{
    let get = same(method, "GET");
    let post = same(method, "POST");
    if get && same(path, "/status") {
        Ok(owned("status"))
    } else if get && same(path, "/uptime") {
        Ok(owned("uptime"))
    } else if get && same(path, "/queue") {
        Ok(owned("queue.list"))
    } else if get && same(path, "/jingles") {
        Ok(owned("jingles.list"))
    } else if post && same(path, "/cmd") {
        match string_field(body, "command") {
            Ok(Some(c)) => Ok(c),
            Ok(None) => Err(
                Refusal { code: 400, body: http_error("missing \"command\" string field") },
            ),
            Err(e) => {
                let mut m = owned("invalid JSON body: ");
                m.append(e.as_str());
                Err(Refusal { code: 400, body: http_error(m.as_str()) })
            },
        }
    } else if get || post {
        let mut m = owned("not found: ");
        m.append(method);
        m.append(" ");
        m.append(path);
        Err(Refusal { code: 404, body: http_error(m.as_str()) })
    } else {
        let mut m = owned("method not allowed: ");
        m.append(method);
        Err(Refusal { code: 405, body: http_error(m.as_str()) })
    }
}

/// The status code and body that answer a command over HTTP.
pub open spec fn http_answer(r: ReplyView) -> (u16, Seq<char>) {
    (
        if r is Failure {
            400
        } else {
            200
        },
        object_text(reply_fields(r)),
    )
}

/// Renders the answer to a command over HTTP: application errors are 400.
pub fn http_reply(r: &CommandReply) -> (a: (u16, String))
    ensures
        (a.0, a.1@) == http_answer(r@),
{
    let code: u16 = match r {
        CommandReply::Failure(_) => 400,
        _ => 200,
    };
    (code, r.json())
}

/// How a request over HTTP goes on.
pub enum HttpView {
    Respond { code: u16, body: Seq<char>, signal: Option<SignalView> },
    ProbeJingle(Seq<char>),
    CallScript { index: int, args: Seq<char> },
}

/// How a request over HTTP goes on.
pub enum HttpStep {
    /// It is answered; the engine may get a signal.
    Respond { code: u16, body: String, signal: Option<Signal> },
    /// As [`Step::ProbeJingle`]; answer with [`http_reply`].
    ProbeJingle(String),
    /// As [`Step::CallScript`]; answer with [`http_reply`].
    CallScript { index: usize, args: String },
}

impl View for HttpStep {
    type V = HttpView;

    open spec fn view(&self) -> HttpView {
        match self {
            HttpStep::Respond { code, body, signal } => HttpView::Respond {
                code: *code,
                body: body@,
                signal: opt_signal(*signal),
            },
            HttpStep::ProbeJingle(p) => HttpView::ProbeJingle(p@),
            HttpStep::CallScript { index, args } => HttpView::CallScript {
                index: *index as int,
                args: args@,
            },
        }
    }
}

/// The answer to `exit` over HTTP.
pub open spec fn bye() -> Seq<char> {
    "{\"ok\":true,\"message\":\"bye\"}"@
}

/// How a command goes on over HTTP: `exit` is only acknowledged.
pub open spec fn http_step_of(s: StepView) -> HttpView {
    match s {
        StepView::Reply(r, signal) => HttpView::Respond {
            code: http_answer(r).0,
            body: http_answer(r).1,
            signal,
        },
        StepView::Exit => HttpView::Respond { code: 200, body: bye(), signal: None },
        StepView::ProbeJingle(p) => HttpView::ProbeJingle(p),
        StepView::CallScript { index, args } => HttpView::CallScript { index, args },
    }
}

/// What a request over HTTP does: the queue afterwards and how it goes on.
pub open spec fn http_routed(
    method: Seq<char>,
    path: Seq<char>,
    body: Seq<char>,
    ctx: CtxView,
    queue: Option<QueueView>,
    readings: Seq<Reading>,
    random: int,
) -> (Option<QueueView>, HttpView) {
    match routed(method, path, body) {
        Err((code, msg)) => (
            queue,
            HttpView::Respond { code, body: error_body(msg), signal: None },
        ),
        Ok(cmd) => {
            let (q, s) = dispatched(cmd, ctx, queue, readings, random);
            (q, http_step_of(s))
        },
    }
}

/// Runs a request over HTTP with the random choice already made.
/// `readings` holds the numbers of the request that its command pushes (see
/// [`route_command`] and [`request_argument`]).
pub fn http_route_with(
    method: &str,
    path: &str,
    body: &str,
    ctx: &DispatchCtx,
    queue: &mut Option<RequestQueue>,
    readings: &[Reading],
    random: usize,
) -> (r: HttpStep)
    requires
        routed(method@, path@, body@) matches Ok(cmd) ==> command_readings_match(cmd, readings@),
        ctx@.jingles.len() > 0 ==> random < ctx@.jingles.len(),
        opt_queue(*old(queue)) matches Some(q) ==> q.items.len() < usize::MAX,
    ensures
        (opt_queue(*final(queue)), r@) == http_routed(
            method@,
            path@,
            body@,
            ctx@,
            opt_queue(*old(queue)),
            readings@,
            random as int,
        ),
{
    match route_command(method, path, body) {
        Err(f) => HttpStep::Respond { code: f.code, body: f.body, signal: None },
        Ok(cmd) => match dispatch_with(cmd.as_str(), ctx, queue, readings, random) {
            Step::Reply(reply, signal) => {
                let (code, text) = http_reply(&reply);
                HttpStep::Respond { code, body: text, signal }
            },
            Step::Exit => HttpStep::Respond {
                code: 200,
                body: owned("{\"ok\":true,\"message\":\"bye\"}"),
                signal: None,
            },
            Step::ProbeJingle(p) => HttpStep::ProbeJingle(p),
            Step::CallScript { index, args } => HttpStep::CallScript { index, args },
        },
    }
}

/// Runs a request over HTTP: `rng` picks the jingle where the command names
/// none.
pub fn http_route(
    method: &str,
    path: &str,
    body: &str,
    ctx: &DispatchCtx,
    queue: &mut Option<RequestQueue>,
    readings: &[Reading],
    rng: &mut rand::rngs::SmallRng,
) -> (r: HttpStep)
    requires
        routed(method@, path@, body@) matches Ok(cmd) ==> command_readings_match(cmd, readings@),
        opt_queue(*old(queue)) matches Some(q) ==> q.items.len() < usize::MAX,
    ensures
        exists|random: int|
            (ctx@.jingles.len() > 0 ==> 0 <= random < ctx@.jingles.len()) && (
            opt_queue(*final(queue)),
            r@,
        ) == #[trigger] http_routed(
            method@,
            path@,
            body@,
            ctx@,
            opt_queue(*old(queue)),
            readings@,
            random,
        ),
{
    let random: usize = if ctx.jingles.len() == 0 {
        0
    } else {
        random_index(rng, ctx.jingles.len())
    };
    http_route_with(method, path, body, ctx, queue, readings, random)
}

/// The reason phrase of a status code.
pub open spec fn reason(code: u16) -> Seq<char> {
    if code == 200 {
        "OK"@
    } else if code == 400 {
        "Bad Request"@
    } else if code == 404 {
        "Not Found"@
    } else if code == 405 {
        "Method Not Allowed"@
    } else if code == 413 {
        "Payload Too Large"@
    } else if code == 431 {
        "Request Header Fields Too Large"@
    } else {
        "Error"@
    }
}

/// A whole HTTP response with a JSON body.
pub open spec fn http_response_bytes(code: u16, body: Seq<char>) -> Seq<u8> {
    let data = vstd::utf8::encode_utf8(body);
    vstd::utf8::encode_utf8(
        "HTTP/1.1 "@ + dec(code as nat) + " "@ + reason(code)
            + "\r\nContent-Type: application/json\r\nContent-Length: "@ + dec(data.len())
            + "\r\nConnection: close\r\n\r\n"@,
    ) + data
}

/// Renders a whole HTTP response with a JSON body.
pub fn http_response(code: u16, body: &str) -> (out: Vec<u8>)
    ensures
        out@ == http_response_bytes(code, body@),
{
    let mut head = owned("HTTP/1.1 ");
    push_dec(&mut head, code as u64);
    head.append(" ");
    head.append(
        if code == 200 {
            "OK"
        } else if code == 400 {
            "Bad Request"
        } else if code == 404 {
            "Not Found"
        } else if code == 405 {
            "Method Not Allowed"
        } else if code == 413 {
            "Payload Too Large"
        } else if code == 431 {
            "Request Header Fields Too Large"
        } else {
            "Error"
        },
    );
    head.append("\r\nContent-Type: application/json\r\nContent-Length: ");
    let data = body.as_bytes();
    push_dec(&mut head, data.len() as u64);
    head.append("\r\nConnection: close\r\n\r\n");
    let mut out: Vec<u8> = Vec::new();
    append(&mut out, head.as_str().as_bytes());
    append(&mut out, data);
    assert(out@ =~= http_response_bytes(code, body@));
    out
}

// ---------------------------------------------------------------------------
// Laws
// ---------------------------------------------------------------------------

/// Every JSON reply says in `ok` whether the command succeeded, and carries an
/// `error` exactly when it did not.
pub proof fn law_envelope(r: ReplyView)
    requires
        r matches ReplyView::List { key, .. } ==> key == "queue"@ || key == "jingles"@,
    ensures
        reply_fields(r).contains_key("ok"@),
        reply_fields(r)["ok"@] == JsonView::Bool(!(r is Failure)),
        reply_fields(r).contains_key("error"@) <==> r is Failure,
{
    reveal_strlit("ok");
    reveal_strlit("error");
    reveal_strlit("message");
    reveal_strlit("reply");
    reveal_strlit("playing");
    reveal_strlit("uptime_seconds");
    reveal_strlit("harbor_connected");
    reveal_strlit("queued");
    reveal_strlit("length");
    reveal_strlit("queue");
    reveal_strlit("jingles");
    assert("ok"@.len() == 2);
    assert("error"@.len() == 5);
    assert("reply"@.len() == 5 && "queue"@.len() == 5);
    assert("error"@[0] == 'e' && "reply"@[0] == 'r' && "queue"@[0] == 'q');
}

/// Over HTTP the status code agrees with the envelope: 400 for
/// `"ok": false`, 200 for `"ok": true`.
pub proof fn law_http_code_agrees(r: ReplyView)
    requires
        r matches ReplyView::List { key, .. } ==> key == "queue"@ || key == "jingles"@,
    ensures
        http_answer(r).0 == 400 || http_answer(r).0 == 200,
        http_answer(r).0 == 400 <==> reply_fields(r)["ok"@] == JsonView::Bool(false),
{
    law_envelope(r);
}

/// A route over HTTP does what the command of the same name does on the
/// control port.
pub proof fn law_routes_are_commands(
    method: Seq<char>,
    path: Seq<char>,
    body: Seq<char>,
    cmd: Seq<char>,
    ctx: CtxView,
    queue: Option<QueueView>,
    readings: Seq<Reading>,
    random: int,
)
    requires
        routed(method, path, body) == Ok::<Seq<char>, (u16, Seq<char>)>(cmd),
    ensures
        ({
            let (q, s) = dispatched(cmd, ctx, queue, readings, random);
            http_routed(method, path, body, ctx, queue, readings, random) == (q, http_step_of(s))
        }),
{
}

/// A method other than GET and POST is refused with 405, whatever the path;
/// GET and POST of an unknown path with 404.
pub proof fn law_refused_routes(method: Seq<char>, path: Seq<char>, body: Seq<char>)
    ensures
        method != "GET"@ && method != "POST"@ ==> (routed(method, path, body) matches Err((c, _))
            && c == 405),
        method == "GET"@ && path != "/status"@ && path != "/uptime"@ && path != "/queue"@ && path
            != "/jingles"@ ==> (routed(method, path, body) matches Err((c, _)) && c == 404),
{
    reveal_strlit("GET");
    reveal_strlit("POST");
    assert("GET"@.len() != "POST"@.len());
}

proof fn lemma_trimmed_start_head(s: Seq<char>)
    ensures
        trimmed(s).len() > 0 ==> !is_space(trimmed(s)[0]),
    decreases s.len(),
{
    let t = crate::text::trimmed_start(s);
    if s.len() > 0 && is_space(s[0]) {
        lemma_trimmed_start_head(s.skip(1));
    } else {
        lemma_trimmed_end_prefix(s);
    }
}

proof fn lemma_trimmed_end_prefix(s: Seq<char>)
    ensures
        crate::text::trimmed_end(s).len() <= s.len(),
        crate::text::trimmed_end(s) == s.take(crate::text::trimmed_end(s).len() as int),
    decreases s.len(),
{
    if s.len() > 0 && is_space(s.last()) {
        lemma_trimmed_end_prefix(s.drop_last());
        assert(s.drop_last().take(crate::text::trimmed_end(s).len() as int) =~= s.take(
            crate::text::trimmed_end(s).len() as int,
        ));
    } else {
        assert(s.take(s.len() as int) =~= s);
    }
}

proof fn lemma_word_end_stops(s: Seq<char>, i: int)
    requires
        0 <= i <= s.len(),
    ensures
        i <= crate::text::word_end(s, i) <= s.len(),
        crate::text::word_end(s, i) < s.len() ==> is_space(s[crate::text::word_end(s, i)]),
    decreases s.len() - i,
{
    if i < s.len() && !is_space(s[i]) {
        lemma_word_end_stops(s, i + 1);
    }
}

/// The name `json` is reserved: a line whose first word it is asks for a JSON
/// reply, and never runs a command of that name.
pub proof fn law_json_is_reserved(line: Seq<char>)
    requires
        words(trimmed(line)).len() > 0,
        words(trimmed(line))[0] == "json"@,
    ensures
        match line_of(line) {
            LineView::Usage => true,
            LineView::Command { json, .. } => json,
            LineView::Nothing => false,
        },
{
    let s = trimmed(line);
    lemma_trimmed_start_head(line);
    reveal_strlit("json");
    if s.len() > 0 {
        let e = crate::text::word_end(s, 1);
        lemma_word_end_stops(s, 1);
        assert(words(s)[0] == s.take(e));
        assert(s.take(e).len() == 4);
        let rest = s.skip("json"@.len() as int);
        assert(s.take("json"@.len() as int) == "json"@);
        if rest.len() > 0 {
            assert(rest[0] == s[4]);
        }
    }
}

/// Only `queue.push`, `queue.clear` and `queue.skip` change the queue.
pub proof fn law_other_commands_keep_the_queue(
    cmd: Seq<char>,
    ctx: CtxView,
    queue: Option<QueueView>,
    readings: Seq<Reading>,
    random: int,
)
    requires
        words(cmd).len() > 0 ==> words(cmd)[0] != "queue.push"@ && words(cmd)[0] != "queue.clear"@
            && words(cmd)[0] != "queue.skip"@,
    ensures
        dispatched(cmd, ctx, queue, readings, random).0 == queue,
{
    lemma_verbs();
    reveal_strlit("queue.push");
    reveal_strlit("queue.list");
    reveal_strlit("queue.clear");
    reveal_strlit("queue.skip");
}

proof fn lemma_first_match(jingles: Seq<Seq<char>>, arg: Seq<char>, i: int)
    requires
        0 <= i <= jingles.len(),
    ensures
        match first_match(jingles, arg, i) {
            Some(k) => i <= k < jingles.len() && jingle_matches(jingles[k], arg) && forall|j: int|
                i <= j < k ==> !jingle_matches(#[trigger] jingles[j], arg),
            None => forall|j: int|
                i <= j < jingles.len() ==> !jingle_matches(#[trigger] jingles[j], arg),
        },
    decreases jingles.len() - i,
{
    if i < jingles.len() && !jingle_matches(jingles[i], arg) {
        lemma_first_match(jingles, arg, i + 1);
    }
}

/// The file name of a path holds a text, whatever the case of letters.
pub open spec fn named_by(path: Seq<char>, arg: Seq<char>) -> bool {
    file_name_of(path) matches Some(name) && contains_text(lowered(name), lowered(arg))
}

/// The words by which the control port knows its commands differ from one
/// another.
proof fn lemma_verbs_differ()
    ensures
        ({
            let v = seq![
                "help"@,
                "exit"@,
                "quit"@,
                "skip"@,
                "queue.push"@,
                "queue.list"@,
                "queue.clear"@,
                "queue.skip"@,
                "status"@,
                "uptime"@,
                "shutdown"@,
                "jingles.list"@,
                "jingles.play"@,
            ];
            &&& forall|i: int, j: int|
                0 <= i < j < v.len() ==> #[trigger] v[i] != #[trigger] v[j]
            &&& forall|i: int| 0 <= i < v.len() ==> #[trigger] v[i].len() > 0
        }),
{
    reveal_strlit("help");
    reveal_strlit("exit");
    reveal_strlit("quit");
    reveal_strlit("skip");
    reveal_strlit("queue.push");
    reveal_strlit("queue.list");
    reveal_strlit("queue.clear");
    reveal_strlit("queue.skip");
    reveal_strlit("status");
    reveal_strlit("uptime");
    reveal_strlit("shutdown");
    reveal_strlit("jingles.list");
    reveal_strlit("jingles.play");
    let v = seq![
        "help"@,
        "exit"@,
        "quit"@,
        "skip"@,
        "queue.push"@,
        "queue.list"@,
        "queue.clear"@,
        "queue.skip"@,
        "status"@,
        "uptime"@,
        "shutdown"@,
        "jingles.list"@,
        "jingles.play"@,
    ];
    assert("help"@[0] == 'h' && "exit"@[0] == 'e' && "quit"@[0] == 'q' && "skip"@[0] == 's');
    assert("queue.push"@[6] == 'p' && "queue.list"@[6] == 'l' && "queue.skip"@[6] == 's');
    assert("status"@[0] == 's' && "uptime"@[0] == 'u');
    assert("jingles.list"@[8] == 'l' && "jingles.play"@[8] == 'p');
    assert("help"@.len() == 4 && "exit"@.len() == 4 && "quit"@.len() == 4 && "skip"@.len() == 4);
    assert("queue.push"@.len() == 10 && "queue.list"@.len() == 10 && "queue.skip"@.len() == 10);
    assert("queue.clear"@.len() == 11 && "shutdown"@.len() == 8);
    assert("status"@.len() == 6 && "uptime"@.len() == 6);
    assert("jingles.list"@.len() == 12 && "jingles.play"@.len() == 12);
    assert forall|i: int, j: int| 0 <= i < j < v.len() implies #[trigger] v[i] != #[trigger] v[j] by {
    }
}

/// The jingle that `jingles.play` starts is the one that it names: the one at
/// the index, or the first one whose file name holds the text, whatever the
/// case; without a name it is the one that chance picked. What names nothing
/// is an error, and starts nothing.
pub proof fn law_the_named_jingle_plays(
    cmd: Seq<char>,
    ctx: CtxView,
    queue: Option<QueueView>,
    readings: Seq<Reading>,
    random: int,
)
    requires
        words(cmd).len() > 0,
        words(cmd)[0] == "jingles.play"@,
    ensures
        ({
            let w = words(cmd);
            let (q, step) = dispatched(cmd, ctx, queue, readings, random);
            &&& q == queue
            &&& w.len() == 1 && ctx.jingles.len() > 0 ==> step == StepView::ProbeJingle(
                ctx.jingles[random],
            )
            &&& w.len() == 1 && ctx.jingles.len() == 0 ==> (step matches StepView::Reply(r, None)
                && r is Failure)
            &&& w.len() > 1 ==> match parsed(w[1], 10, usize::MAX as int) {
                Some(i) => if i < ctx.jingles.len() {
                    step == StepView::ProbeJingle(ctx.jingles[i])
                } else {
                    step matches StepView::Reply(r, None) && r is Failure
                },
                None => {
                    ||| exists|k: int|
                        {
                            &&& 0 <= k < ctx.jingles.len()
                            &&& step == StepView::ProbeJingle(#[trigger] ctx.jingles[k])
                            &&& named_by(ctx.jingles[k], w[1])
                            &&& forall|j: int|
                                0 <= j < k ==> !named_by(#[trigger] ctx.jingles[j], w[1])
                        }
                    ||| (step matches StepView::Reply(r, None) && r is Failure) && forall|j: int|
                        0 <= j < ctx.jingles.len() ==> !named_by(#[trigger] ctx.jingles[j], w[1])
                },
            }
        }),
{
    lemma_verbs_differ();
    let v = seq![
        "help"@,
        "exit"@,
        "quit"@,
        "skip"@,
        "queue.push"@,
        "queue.list"@,
        "queue.clear"@,
        "queue.skip"@,
        "status"@,
        "uptime"@,
        "shutdown"@,
        "jingles.list"@,
        "jingles.play"@,
    ];
    assert forall|i: int| 0 <= i < 12 implies #[trigger] v[i] != "jingles.play"@ by {
        assert(v[i] != v[12]);
    }
    assert(v[0] == "help"@ && v[1] == "exit"@ && v[2] == "quit"@ && v[3] == "skip"@ && v[4]
        == "queue.push"@ && v[5] == "queue.list"@ && v[6] == "queue.clear"@ && v[7]
        == "queue.skip"@ && v[8] == "status"@ && v[9] == "uptime"@ && v[10] == "shutdown"@ && v[11]
        == "jingles.list"@);
    let w = words(cmd);
    let js = ctx.jingles;
    if w.len() > 1 {
        lemma_first_match(js, w[1], 0);
        assert forall|j: int| 0 <= j < js.len() implies named_by(#[trigger] js[j], w[1])
            == jingle_matches(js[j], w[1]) by {
        }
        match first_match(js, w[1], 0) {
            Some(k) => {
                assert(named_by(js[k], w[1]));
            },
            None => {},
        }
    }
}

/// A jingle that was named is played if its file is there, and only then.
pub proof fn law_a_jingle_plays_if_it_is_there(path: Seq<char>)
    ensures
        jingle_played(path, true) == StepView::Reply(
            ReplyView::Playing(path),
            Some(SignalView::PlayJingle(path)),
        ),
        jingle_played(path, false) matches StepView::Reply(r, None) && r is Failure,
{
}

/// Every command does what its name says: it signals the engine, reports what
/// is asked for, or ends the connection; nothing else does. Only `skip` skips
/// and only `shutdown` stops.
pub proof fn law_commands_do_what_they_say(
    cmd: Seq<char>,
    ctx: CtxView,
    queue: Option<QueueView>,
    readings: Seq<Reading>,
    random: int,
)
    requires
        words(cmd).len() > 0,
    ensures
        ({
            let verb = words(cmd)[0];
            let step = dispatched(cmd, ctx, queue, readings, random).1;
            &&& verb == "skip"@ ==> (step matches StepView::Reply(r, sig) && !(r is Failure) && sig
                == Some(SignalView::Skip))
            &&& verb == "shutdown"@ ==> (step matches StepView::Reply(r, sig) && !(r is Failure)
                && sig == Some(SignalView::Shutdown))
            &&& verb == "status"@ ==> step == StepView::Reply(ReplyView::Status(ctx.status), None)
            &&& verb == "uptime"@ ==> step == StepView::Reply(
                ReplyView::Uptime(ctx.status.uptime_seconds),
                None,
            )
            &&& verb == "jingles.list"@ ==> (step matches StepView::Reply(r, None) && r matches
                ReplyView::List { key, items, .. } && key == "jingles"@ && items == ctx.jingles)
            &&& step is Exit <==> verb == "exit"@ || verb == "quit"@
            &&& verb == "help"@ ==> (step matches StepView::Reply(r, None) && r is Message)
            &&& step matches StepView::Reply(_, Some(sig)) ==> (sig is Skip && verb == "skip"@) || (
            sig is Shutdown && verb == "shutdown"@)
            &&& step is ProbeJingle ==> verb == "jingles.play"@
        }),
{
    lemma_verbs_differ();
    let v = seq![
        "help"@,
        "exit"@,
        "quit"@,
        "skip"@,
        "queue.push"@,
        "queue.list"@,
        "queue.clear"@,
        "queue.skip"@,
        "status"@,
        "uptime"@,
        "shutdown"@,
        "jingles.list"@,
        "jingles.play"@,
    ];
    assert(v[0] == "help"@ && v[1] == "exit"@ && v[2] == "quit"@ && v[3] == "skip"@ && v[4]
        == "queue.push"@ && v[5] == "queue.list"@ && v[6] == "queue.clear"@ && v[7]
        == "queue.skip"@ && v[8] == "status"@ && v[9] == "uptime"@ && v[10] == "shutdown"@ && v[11]
        == "jingles.list"@ && v[12] == "jingles.play"@);
}

/// A word that is no command of the port is one of the script's, if the script
/// registered it: the first of that name gets the words behind it. Any other
/// word is an error.
pub proof fn law_other_words_go_to_the_script(
    cmd: Seq<char>,
    ctx: CtxView,
    queue: Option<QueueView>,
    readings: Seq<Reading>,
    random: int,
)
    requires
        words(cmd).len() > 0,
        ({
            let verb = words(cmd)[0];
            &&& verb != "help"@ && verb != "exit"@ && verb != "quit"@ && verb != "skip"@
            &&& verb != "queue.push"@ && verb != "queue.list"@ && verb != "queue.clear"@ && verb
                != "queue.skip"@
            &&& verb != "status"@ && verb != "uptime"@ && verb != "shutdown"@
            &&& verb != "jingles.list"@ && verb != "jingles.play"@
        }),
    ensures
        ({
            let w = words(cmd);
            let (q, step) = dispatched(cmd, ctx, queue, readings, random);
            &&& q == queue
            &&& match step {
                StepView::CallScript { index, args } => {
                    &&& 0 <= index < ctx.custom.len()
                    &&& ctx.custom[index] == w[0]
                    &&& forall|j: int| 0 <= j < index ==> #[trigger] ctx.custom[j] != w[0]
                    &&& w.len() == 1 ==> args.len() == 0
                    &&& w.len() == 2 ==> args == w[1]
                    &&& w.len() > 2 ==> has_prefix(args, w[1] + seq![' '])
                },
                StepView::Reply(r, sig) => r is Failure && sig is None && forall|j: int|
                    0 <= j < ctx.custom.len() ==> #[trigger] ctx.custom[j] != w[0],
                _ => false,
            }
        }),
{
    let w = words(cmd);
    lemma_position(ctx.custom, w[0], 0);
    if w.len() > 2 {
        reveal_strlit(" ");
        let args = joined_words(w, 1);
        let head = w[1] + seq![' '];
        assert(" "@ =~= seq![' ']);
        assert(args == w[1] + " "@ + joined_words(w, 2));
        assert(args.take(head.len() as int) =~= head);
    }
}

proof fn lemma_position(names: Seq<Seq<char>>, name: Seq<char>, i: int)
    requires
        0 <= i <= names.len(),
    ensures
        match position(names, name, i) {
            Some(k) => i <= k < names.len() && names[k] == name && forall|j: int|
                i <= j < k ==> #[trigger] names[j] != name,
            None => forall|j: int| i <= j < names.len() ==> #[trigger] names[j] != name,
        },
    decreases names.len() - i,
{
    if i < names.len() && names[i] != name {
        lemma_position(names, name, i + 1);
    }
}

/// The queue commands: a push appends the request that its argument denotes
/// and leaves those before it; a clear leaves none; a skip asks for the next
/// one and keeps all that wait; a listing shows every waiting request in
/// order. Without a queue they all fail.
pub proof fn law_queue_commands(
    cmd: Seq<char>,
    ctx: CtxView,
    q: QueueView,
    readings: Seq<Reading>,
    random: int,
)
    requires
        words(cmd).len() > 0,
    ensures
        ({
            let w = words(cmd);
            let (after, step) = dispatched(cmd, ctx, Some(q), readings, random);
            &&& w[0] == "queue.push"@ && w.len() > 1 ==> {
                &&& after is Some
                &&& (after->0).items.len() == q.items.len() + 1
                &&& (after->0).items.drop_last() == q.items
                &&& (after->0).items.last() == request_of(w[1], readings)
                &&& (after->0).skip == q.skip
                &&& step == StepView::Reply(
                    ReplyView::Queued { path: w[1], length: q.items.len() + 1 },
                    None,
                )
            }
            &&& w[0] == "queue.push"@ && w.len() == 1 ==> after == Some(q) && (step matches
                StepView::Reply(r, None) && r is Failure)
            &&& w[0] == "queue.clear"@ ==> {
                &&& after is Some
                &&& (after->0).items.len() == 0
                &&& (after->0).skip == q.skip
                &&& step matches StepView::Reply(r, None) && r is Message
            }
            &&& w[0] == "queue.skip"@ ==> {
                &&& after is Some
                &&& (after->0).items == q.items
                &&& (after->0).skip
                &&& step matches StepView::Reply(r, None) && r is Message
            }
            &&& w[0] == "queue.list"@ ==> {
                &&& after == Some(q)
                &&& (step matches StepView::Reply(r, None) && r matches ReplyView::List {
                    key,
                    items,
                    ..
                } && key == "queue"@ && items.len() == q.items.len() && forall|i: int|
                    0 <= i < items.len() ==> #[trigger] items[i] == (match q.items[i] {
                        RequestView::Local(p, _) => p,
                        RequestView::Url(u, _) => u,
                    }))
            }
        }),
        ({
            let w = words(cmd);
            let (after, step) = dispatched(cmd, ctx, None, readings, random);
            w[0] == "queue.push"@ || w[0] == "queue.clear"@ || w[0] == "queue.skip"@ || w[0]
                == "queue.list"@ ==> after is None && (step matches StepView::Reply(r, None)
                && r is Failure)
        }),
{
    lemma_verbs_differ();
    let v = seq![
        "help"@,
        "exit"@,
        "quit"@,
        "skip"@,
        "queue.push"@,
        "queue.list"@,
        "queue.clear"@,
        "queue.skip"@,
        "status"@,
        "uptime"@,
        "shutdown"@,
        "jingles.list"@,
        "jingles.play"@,
    ];
    assert(v[0] == "help"@ && v[1] == "exit"@ && v[2] == "quit"@ && v[3] == "skip"@ && v[4]
        == "queue.push"@ && v[5] == "queue.list"@ && v[6] == "queue.clear"@ && v[7]
        == "queue.skip"@ && v[8] == "status"@ && v[9] == "uptime"@ && v[10] == "shutdown"@ && v[11]
        == "jingles.list"@ && v[12] == "jingles.play"@);
    let w = words(cmd);
    let (after, step) = dispatched(cmd, ctx, Some(q), readings, random);
    if w[0] == "queue.push"@ && w.len() > 1 {
        assert((after->0).items.drop_last() =~= q.items);
    }
}

/// Each resource over HTTP stands for the command that reports it, and
/// `/cmd` for the command in its body; a command that is missing there is an
/// error.
pub proof fn law_http_resources(body: Seq<char>, c: Seq<char>)
    ensures
        routed("GET"@, "/status"@, body) == Ok::<Seq<char>, (u16, Seq<char>)>("status"@),
        routed("GET"@, "/uptime"@, body) == Ok::<Seq<char>, (u16, Seq<char>)>("uptime"@),
        routed("GET"@, "/queue"@, body) == Ok::<Seq<char>, (u16, Seq<char>)>("queue.list"@),
        routed("GET"@, "/jingles"@, body) == Ok::<Seq<char>, (u16, Seq<char>)>("jingles.list"@),
        string_field_of(body, "command"@) == Ok::<Option<Seq<char>>, Seq<char>>(Some(c)) ==> routed(
            "POST"@,
            "/cmd"@,
            body,
        ) == Ok::<Seq<char>, (u16, Seq<char>)>(c),
        !(string_field_of(body, "command"@) matches Ok(Some(_))) ==> (routed(
            "POST"@,
            "/cmd"@,
            body,
        ) matches Err((code, _)) && code == 400),
{
    reveal_strlit("GET");
    reveal_strlit("POST");
    reveal_strlit("/status");
    reveal_strlit("/uptime");
    reveal_strlit("/queue");
    reveal_strlit("/jingles");
    assert("GET"@.len() != "POST"@.len());
    assert("/status"@.len() == 7 && "/uptime"@.len() == 7 && "/queue"@.len() == 6
        && "/jingles"@.len() == 8);
    assert("/status"@[1] == 's' && "/uptime"@[1] == 'u');
}

/// Over HTTP a command is answered as on the control port: an error with 400
/// and anything else with 200, in JSON, with the same signal to the engine; a
/// refused request reaches no command.
pub proof fn law_http_answers(
    method: Seq<char>,
    path: Seq<char>,
    body: Seq<char>,
    ctx: CtxView,
    queue: Option<QueueView>,
    readings: Seq<Reading>,
    random: int,
)
    ensures
        ({
            let (q, step) = http_routed(method, path, body, ctx, queue, readings, random);
            match routed(method, path, body) {
                Err((code, msg)) => q == queue && (step matches HttpView::Respond {
                    code: c,
                    signal,
                    body: b,
                } && c == code && signal is None && b == object_text(
                    no_fields().insert("ok"@, JsonView::Bool(false)).insert(
                        "error"@,
                        JsonView::Text(msg),
                    ),
                )),
                Ok(cmd) => {
                    let (p, s) = dispatched(cmd, ctx, queue, readings, random);
                    &&& q == p
                    &&& match s {
                        StepView::Reply(r, sig) => step matches HttpView::Respond {
                            code: c,
                            signal,
                            body: b,
                        } && signal == sig && b == object_text(reply_fields(r)) && (r is Failure
                            ==> c == 400) && (!(r is Failure) ==> c == 200),
                        StepView::Exit => step matches HttpView::Respond { code: c, signal, .. }
                            && c == 200 && signal is None,
                        StepView::ProbeJingle(j) => step == HttpView::ProbeJingle(j),
                        StepView::CallScript { index, args } => step == (HttpView::CallScript {
                            index,
                            args,
                        }),
                    }
                },
            }
        }),
{
}

/// A reply in JSON carries what was asked for under the keys that clients
/// read.
pub proof fn law_json_carries_the_reply(r: ReplyView)
    ensures
        r matches ReplyView::Message(m) ==> reply_fields(r)["message"@] == JsonView::Text(m),
        r matches ReplyView::Failure(m) ==> reply_fields(r)["error"@] == JsonView::Text(m),
        r matches ReplyView::Custom(m) ==> reply_fields(r)["reply"@] == JsonView::Text(m),
        r matches ReplyView::Status(s) ==> {
            &&& reply_fields(r)["playing"@] == JsonView::Text(s.playing)
            &&& reply_fields(r)["uptime_seconds"@] == JsonView::Number(s.uptime_seconds)
            &&& reply_fields(r)["harbor_connected"@] == JsonView::Bool(s.live)
        },
        r matches ReplyView::Uptime(n) ==> reply_fields(r)["uptime_seconds"@] == JsonView::Number(n),
        r matches ReplyView::Queued { path, length } ==> length <= u64::MAX ==> {
            &&& reply_fields(r)["queued"@] == JsonView::Text(path)
            &&& reply_fields(r)["length"@] == JsonView::Number(length as u64)
        },
        r matches ReplyView::List { key, items, .. } ==> reply_fields(r)[key] == JsonView::Texts(
            items,
        ),
        r matches ReplyView::Playing(p) ==> reply_fields(r)["playing"@] == JsonView::Text(p),
{
    reveal_strlit("playing");
    reveal_strlit("uptime_seconds");
    reveal_strlit("harbor_connected");
    reveal_strlit("queued");
    reveal_strlit("length");
    assert("playing"@.len() == 7 && "uptime_seconds"@.len() == 14 && "harbor_connected"@.len()
        == 16);
    assert("queued"@.len() == 6 && "length"@.len() == 6);
    assert("queued"@[0] == 'q' && "length"@[0] == 'l');
}

/// A listing in text has one line for each item, in order, behind its index;
/// an empty one is the text that says so.
pub proof fn law_listings_have_a_line_for_each_item(
    key: Seq<char>,
    empty: Seq<char>,
    items: Seq<Seq<char>>,
)
    requires
        forall|i: int, k: int|
            0 <= i < items.len() && 0 <= k < items[i].len() ==> #[trigger] items[i][k] != '\n',
    ensures
        items.len() == 0 ==> reply_text(ReplyView::List { key, empty, items }) == empty,
        items.len() > 0 ==> {
            let lines = split_all(reply_text(ReplyView::List { key, empty, items }), '\n');
            &&& lines.len() == items.len()
            &&& forall|i: int|
                0 <= i < lines.len() ==> #[trigger] lines[i] == dec(i as nat) + seq![':', ' ']
                    + items[i]
        },
{
    if items.len() > 0 {
        lemma_numbered_lines(items, items.len());
    }
}

proof fn lemma_numbered_lines(items: Seq<Seq<char>>, n: nat)
    requires
        0 < n <= items.len(),
        forall|i: int, k: int|
            0 <= i < items.len() && 0 <= k < items[i].len() ==> #[trigger] items[i][k] != '\n',
    ensures
        ({
            let lines = split_all(numbered_lines(items, n), '\n');
            &&& lines.len() == n
            &&& forall|i: int|
                0 <= i < n ==> #[trigger] lines[i] == dec(i as nat) + seq![':', ' '] + items[i]
        }),
    decreases n,
{
    reveal_strlit(": ");
    reveal_strlit("\n");
    assert(": "@ =~= seq![':', ' ']);
    assert("\n"@ =~= seq!['\n']);
    let line = dec((n - 1) as nat) + seq![':', ' '] + items[n - 1];
    crate::text::lemma_dec_is_numeric((n - 1) as nat);
    assert forall|k: int| 0 <= k < line.len() implies #[trigger] line[k] != '\n' by {
        let d = dec((n - 1) as nat).len();
        if k < d {
            assert(crate::text::is_digit(dec((n - 1) as nat)[k]));
        } else if k >= d + 2 {
            assert(items[n - 1][k - d - 2] != '\n');
        }
    }
    crate::text::lemma_split_whole(line, '\n');
    if n == 1 {
        assert(numbered_lines(items, n) =~= line);
    } else {
        let before = numbered_lines(items, (n - 1) as nat);
        lemma_numbered_lines(items, (n - 1) as nat);
        assert(numbered_lines(items, n) =~= before + seq!['\n'] + line);
        crate::text::lemma_split_joined(before, '\n', line);
    }
}

/// The text replies say what they report: the title, the seconds and whether
/// a DJ is live, the number of seconds, the request and its place, the jingle.
pub proof fn law_texts_report(s: StatusView, n: u64, path: Seq<char>, length: nat)
    ensures
        ({
            let lines = split_all(reply_text(ReplyView::Status(s)), '\n');
            (forall|k: int| 0 <= k < s.playing.len() ==> #[trigger] s.playing[k] != '\n') ==> {
                &&& lines.len() == 3
                &&& lines[0] == "playing: "@ + s.playing
                &&& lines[1] == "uptime: "@ + dec(s.uptime_seconds as nat) + "s"@
                &&& lines[2] == "live: "@ + (if s.live {
                    "true"@
                } else {
                    "false"@
                })
            }
        }),
        reply_text(ReplyView::Uptime(n)) == "uptime: "@ + dec(n as nat) + "s"@,
        reply_text(ReplyView::Queued { path, length }) == "queued "@ + path + " ("@ + dec(length)
            + ")"@,
        reply_text(ReplyView::Playing(path)) == "playing "@ + path,
{
    if forall|k: int| 0 <= k < s.playing.len() ==> #[trigger] s.playing[k] != '\n' {
        reveal_strlit("playing: ");
        reveal_strlit("\nuptime: ");
        reveal_strlit("uptime: ");
        reveal_strlit("s\nlive: ");
        reveal_strlit("live: ");
        reveal_strlit("s");
        reveal_strlit("true");
        reveal_strlit("false");
        let a = "playing: "@ + s.playing;
        let d = dec(s.uptime_seconds as nat);
        let b = "uptime: "@ + d + "s"@;
        let c = "live: "@ + (if s.live {
            "true"@
        } else {
            "false"@
        });
        crate::text::lemma_dec_is_numeric(s.uptime_seconds as nat);
        assert forall|k: int| 0 <= k < a.len() implies #[trigger] a[k] != '\n' by {
            if k >= 9 {
                assert(s.playing[k - 9] != '\n');
            }
        }
        assert forall|k: int| 0 <= k < b.len() implies #[trigger] b[k] != '\n' by {
            if 8 <= k < 8 + d.len() {
                assert(crate::text::is_digit(d[k - 8]));
            }
        }
        assert forall|k: int| 0 <= k < c.len() implies #[trigger] c[k] != '\n' by {
        }
        crate::text::lemma_split_whole(a, '\n');
        crate::text::lemma_split_joined(a, '\n', b);
        crate::text::lemma_split_joined(a + seq!['\n'] + b, '\n', c);
        assert("\nuptime: "@ =~= seq!['\n'] + "uptime: "@);
        assert("s\nlive: "@ =~= "s"@ + seq!['\n'] + "live: "@);
        assert(reply_text(ReplyView::Status(s)) =~= a + seq!['\n'] + b + seq!['\n'] + c);
    }
}

/// What came back from the script is the reply: its text as it is, and an
/// error where it failed, was not there, or was too late.
pub proof fn law_script_replies(a: ScriptAnswer)
    ensures
        a matches ScriptAnswer::Text(t) ==> script_replied(a) == ReplyView::Custom(t@),
        !(a is Text) ==> script_replied(a) is Failure,
        a matches ScriptAnswer::Failed(e) ==> (script_replied(a) matches ReplyView::Failure(m)
            && crate::text::has_suffix(m, e@)),
{
    match a {
        ScriptAnswer::Failed(e) => {
            let m = "ERROR: "@ + e@;
            assert(m.skip(m.len() - e@.len()) =~= e@);
        },
        _ => {},
    }
}

/// A line is a command as it stands, without the white space around it; with
/// `json` in front the rest is the command, and the reply is JSON.
pub proof fn law_lines(cmd: Seq<char>)
    requires
        cmd.len() > 0,
        !is_space(cmd[0]),
        !is_space(cmd.last()),
    ensures
        !has_prefix(cmd, "json"@) ==> line_of(cmd) == (LineView::Command { json: false, cmd }),
        line_of("json "@ + cmd) == (LineView::Command { json: true, cmd }),
        line_of("json"@) == LineView::Usage,
        line_of(Seq::empty()) == LineView::Nothing,
        line_of(seq![' '] + cmd + seq![' ', '\r', '\n']) == line_of(cmd),
{
    reveal_strlit("json");
    reveal_strlit("json ");
    let j = "json "@ + cmd;
    assert("json"@ =~= seq!['j', 's', 'o', 'n']);
    assert("json "@ =~= seq!['j', 's', 'o', 'n', ' ']);
    assert(!is_space('j') && !is_space('n') && is_space(' ') && is_space('\r') && is_space('\n'));
    assert(trimmed(cmd) == cmd);
    assert(j.last() == cmd.last());
    assert(trimmed(j) == j);
    assert(j.take(4) =~= "json"@);
    let rest = j.skip(4);
    assert(rest =~= seq![' '] + cmd);
    assert(rest.skip(1) =~= cmd);
    assert(crate::text::trimmed_start(rest) == cmd) by {
        assert(crate::text::trimmed_start(rest.skip(1)) == cmd);
    }
    assert(trimmed("json"@) == "json"@);
    assert("json"@.take(4) =~= "json"@);
    assert("json"@.skip(4) =~= Seq::<char>::empty());
    let e = Seq::<char>::empty();
    assert(trimmed(e) == e);
    let w = seq![' '] + cmd + seq![' ', '\r', '\n'];
    assert(w.skip(1) =~= cmd + seq![' ', '\r', '\n']);
    let t = w.skip(1);
    assert(crate::text::trimmed_start(w) == t) by {
        assert(t[0] == cmd[0]);
        assert(crate::text::trimmed_start(t) == t);
    }
    assert(crate::text::trimmed_end(t) == cmd) by {
        let t1 = t.drop_last();
        let t2 = t1.drop_last();
        let t3 = t2.drop_last();
        assert(t1 =~= cmd + seq![' ', '\r']);
        assert(t2 =~= cmd + seq![' ']);
        assert(t3 =~= cmd);
        assert(crate::text::trimmed_end(t3) == cmd);
        assert(crate::text::trimmed_end(t2) == cmd);
        assert(crate::text::trimmed_end(t1) == cmd);
    }
}

/// A pushed request stands at the end of the listing, behind everything that
/// was listed before, and the reply counts it.
pub proof fn law_push_then_list(
    w: Seq<Seq<char>>,
    q: QueueView,
    readings: Seq<Reading>,
)
    requires
        w.len() >= 2,
        w[0] == "queue.push"@,
    ensures
        ({
            let (after, step) = queue_step(w, Some(q), readings);
            &&& after is Some
            &&& raw_items(after->0) == raw_items(q).push(raw_of(request_of(w[1], readings)))
            &&& step == StepView::Reply(
                ReplyView::Queued { path: w[1], length: q.items.len() + 1 },
                None,
            )
        }),
{
    let (after, step) = queue_step(w, Some(q), readings);
    assert(raw_items(after->0) =~= raw_items(q).push(raw_of(request_of(w[1], readings))));
}

} // verus!
