//! Media requests: local paths and URLs, with cue points from an `annotate:`
//! prefix.
//!
//! Numbers in annotations are doubles, carried here as their bit patterns.
//! Reading a number from text is the caller's part: it takes the fields that
//! [`scan_annotate`] finds and hands one [`Reading`] for each to
//! [`parse_annotate`].

use std::cmp::Ordering;
use vstd::prelude::*;
use crate::http::opt_text;
use crate::order::{chained, components, first_order, int_order, law_paths_are_ordered};
use crate::order::{law_texts_are_ordered, opt_text_order, order_opt_text, order_paths, order_text};
use crate::order::{order_then, path_order, reversed, same_path, text_order};
use crate::text::{dec, find_from, has_prefix, has_suffix, hex_fixed, is_alnum};
use crate::text::{char_is_alnum, ends_with, find_char, owned, push_dec, push_hex_fixed, same};
use crate::text::{lemma_find_from, rfind_before, rsplit_once, split, split_all, split_first};
use crate::text::{split_last, split_once};
use crate::text::{starts_with, str_views, string_of, strip_prefix, to_chars, trim, trimmed};

verus! {

// ---------------------------------------------------------------------------
// Settings
// ---------------------------------------------------------------------------

/// Download settings.
#[derive(Clone, Copy, Debug)]
pub struct RequestConfig {
    /// Connect and read timeout of each attempt, in seconds.
    pub timeout_secs: u64,
    /// Number of retries after a failed attempt.
    pub retries: u32,
}

impl Default for RequestConfig {
    fn default() -> (c: RequestConfig)
        ensures
            c.timeout_secs == 30,
            c.retries == 2,
    {
        RequestConfig { timeout_secs: 30, retries: 2 }
    }
}

impl RequestConfig {
    /// Connect and read timeout of each attempt, in seconds.
    pub fn timeout(&self) -> (secs: u64)
        ensures
            secs == self.timeout_secs,
    {
        self.timeout_secs
    }

    /// Pause between two attempts, in milliseconds.
    pub fn backoff(&self) -> (millis: u64)
        ensures
            millis == 500,
    {
        500
    }

    /// Attempts in all: the first one and the retries.
    pub fn attempts(&self) -> (n: u64)
        ensures
            n == self.retries + 1,
    {
        self.retries as u64 + 1
    }
}

// ---------------------------------------------------------------------------
// Doubles as bit patterns
// ---------------------------------------------------------------------------

/// The bit pattern of minus zero.
pub const NEG_ZERO: u64 = 0x8000_0000_0000_0000;

/// The bit pattern denotes a finite number: its exponent is not all ones.
pub open spec fn is_finite(bits: u64) -> bool {
    (bits / 0x10_0000_0000_0000) % 0x800 != 0x7ff
}

/// The bit pattern with minus zero turned into zero.
pub open spec fn normal_zero(bits: u64) -> u64 {
    if bits == NEG_ZERO {
        0
    } else {
        bits
    }
}

/// The bit pattern denotes a number above zero.
pub open spec fn is_positive(bits: u64) -> bool {
    0 < bits <= 0x7ff0_0000_0000_0000
}

/// A number that orders bit patterns as the doubles that they denote, with
/// minus zero before zero.
pub open spec fn total_key(bits: u64) -> int {
    if bits >= NEG_ZERO {
        NEG_ZERO - 1 - bits
    } else {
        bits as int
    }
}

/// The bit pattern without its sign.
pub open spec fn magnitude(bits: u64) -> int {
    if bits >= NEG_ZERO {
        bits - NEG_ZERO
    } else {
        bits as int
    }
}

/// The bit patterns denote the same number: as doubles the two are equal.
pub open spec fn same_number(a: u64, b: u64) -> bool {
    &&& magnitude(a) <= 0x7ff0_0000_0000_0000
    &&& magnitude(b) <= 0x7ff0_0000_0000_0000
    &&& a == b || (magnitude(a) == 0 && magnitude(b) == 0)
}

// ---------------------------------------------------------------------------
// The annotate prefix
// ---------------------------------------------------------------------------

/// A character of an annotation key.
pub open spec fn is_key_char(c: char) -> bool {
    is_alnum(c) || c == '_'
}

/// The end of the key that starts at `i`.
pub open spec fn key_end(s: Seq<char>, i: int) -> int
    decreases s.len() - i,
{
    if i >= s.len() {
        s.len() as int
    } else if is_key_char(s[i]) {
        key_end(s, i + 1)
    } else {
        i
    }
}

/// One annotation: a key and its value.
pub struct FieldView {
    pub key: Seq<char>,
    pub value: Seq<char>,
}

/// What an annotated URI consists of.
pub struct AnnotatedView {
    pub fields: Seq<FieldView>,
    pub bare: Seq<char>,
}

/// The grammar of annotations from `at` on:
/// `key="value"`, then `,` and further annotations, or `:` and the URI.
pub open spec fn scan_from(s: Seq<char>, at: int) -> Option<AnnotatedView>
    decreases s.len() - at,
    when 0 <= at <= s.len()
    via scan_from_decreases
{
    let k = key_end(s, at);
    if k == at || k + 1 >= s.len() || s[k] != '=' || s[k + 1] != '"' {
        None
    } else {
        let q = find_from(s, '"', k + 2);
        if q + 1 >= s.len() {
            None
        } else {
            let field = FieldView { key: s.subrange(at, k), value: s.subrange(k + 2, q) };
            if s[q + 1] == ',' {
                match scan_from(s, q + 2) {
                    Some(rest) => Some(
                        AnnotatedView { fields: seq![field] + rest.fields, bare: rest.bare },
                    ),
                    None => None,
                }
            } else if s[q + 1] == ':' && q + 2 < s.len() {
                Some(AnnotatedView { fields: seq![field], bare: s.skip(q + 2) })
            } else {
                None
            }
        }
    }
}

#[via_fn]
proof fn scan_from_decreases(s: Seq<char>, at: int) {
    lemma_key_end(s, at);
    let k = key_end(s, at);
    if k + 2 <= s.len() {
        lemma_find_from(s, '"', k + 2);
    }
}

proof fn lemma_key_end(s: Seq<char>, i: int)
    requires
        0 <= i <= s.len(),
    ensures
        i <= key_end(s, i) <= s.len(),
        key_end(s, i) < s.len() ==> !is_key_char(s[key_end(s, i)]),
        forall|j: int| i <= j < key_end(s, i) ==> is_key_char(#[trigger] s[j]),
    decreases s.len() - i,
{
    if i < s.len() && is_key_char(s[i]) {
        lemma_key_end(s, i + 1);
    }
}

/// The annotations of a URI and the URI itself; none where the text has no
/// `annotate:` prefix or the prefix is malformed.
pub open spec fn annotated(uri: Seq<char>) -> Option<AnnotatedView> {
    if has_prefix(uri, "annotate:"@) {
        scan_from(uri.skip("annotate:"@.len() as int), 0)
    } else {
        None
    }
}

/// One annotation: a key and its value.
#[derive(Clone, Debug)]
pub struct Annotation {
    pub key: String,
    pub value: String,
}

impl View for Annotation {
    type V = FieldView;

    open spec fn view(&self) -> FieldView {
        FieldView { key: self.key@, value: self.value@ }
    }
}

/// An annotated URI, taken apart.
#[derive(Clone, Debug)]
pub struct AnnotatedUri {
    pub fields: Vec<Annotation>,
    pub bare: String,
}

/// The views of annotations.
pub open spec fn field_views(v: Seq<Annotation>) -> Seq<FieldView> {
    Seq::new(v.len(), |i: int| v[i]@)
}

impl View for AnnotatedUri {
    type V = AnnotatedView;

    open spec fn view(&self) -> AnnotatedView {
        AnnotatedView { fields: field_views(self.fields@), bare: self.bare@ }
    }
}

fn find_key_end(chars: &[char], from: usize) -> (r: usize)
    requires
        from <= chars@.len(),
    ensures
        r == key_end(chars@, from as int),
        from <= r <= chars@.len(),
{
    let mut i: usize = from;
    while i < chars.len() && (char_is_alnum(chars[i]) || chars[i] == '_')
        invariant
            from <= i <= chars@.len(),
            key_end(chars@, from as int) == key_end(chars@, i as int),
        decreases chars@.len() - i,
    {
        i = i + 1;
    }
    i
}

/// Takes an annotated URI apart.
pub fn scan_annotate(uri: &str) -> (r: Option<AnnotatedUri>)
    ensures
        match r {
            Some(a) => annotated(uri@) == Some(a@),
            None => annotated(uri@) is None,
        },
{
    let rest = match strip_prefix(uri, "annotate:") {
        Some(rest) => rest,
        None => return None,
    };
    let chars = to_chars(rest);
    let n: usize = chars.len();
    let ghost s = rest@;
    let mut fields: Vec<Annotation> = Vec::new();
    let mut at: usize = 0;
    while at <= n
        invariant
            at <= n,
            n == chars@.len(),
            s == chars@,
            annotated(uri@) == scan_from(s, 0),
            scan_from(s, 0) == (match scan_from(s, at as int) {
                Some(t) => Some(
                    AnnotatedView { fields: field_views(fields@) + t.fields, bare: t.bare },
                ),
                None => None,
            }),
        decreases n - at,
    {
        let k: usize = find_key_end(chars.as_slice(), at);
        if k == at || n - k <= 1 || chars[k] != '=' || chars[k + 1] != '"' {
            return None;
        }
        let q: usize = find_char(chars.as_slice(), '"', k + 2);
        if n - q <= 1 {
            return None;
        }
        let ghost done = field_views(fields@);
        let field = Annotation {
            key: string_of(chars.as_slice(), at, k),
            value: string_of(chars.as_slice(), k + 2, q),
        };
        let ghost fv = field@;
        fields.push(field);
        proof {
            assert(field_views(fields@) =~= done + seq![fv]);
        }
        if chars[q + 1] == ',' {
            proof {
                if let Some(t) = scan_from(s, q + 2) {
                    assert(done + (seq![fv] + t.fields) =~= field_views(fields@) + t.fields);
                }
            }
            at = q + 2;
        } else if chars[q + 1] == ':' && n - q > 2 {
            let bare = string_of(chars.as_slice(), q + 2, n);
            proof {
                assert(bare@ =~= s.skip(q + 2));
            }
            return Some(AnnotatedUri { fields, bare });
        } else {
            return None;
        }
    }
    None
}

/// What stands in front of a `dB` suffix in an amplification, without white
/// space around it.
pub open spec fn decibel_part(value: Seq<char>) -> Option<Seq<char>> {
    let t = trimmed(value);
    if has_suffix(t, "dB"@) || has_suffix(t, "db"@) {
        Some(trimmed(t.take(t.len() - 2)))
    } else {
        None
    }
}

/// What stands in front of a `dB` suffix in an amplification: the text that a
/// number of decibels is read from.
pub fn decibel_text(value: &str) -> (r: Option<String>)
    ensures
        match r {
            Some(s) => decibel_part(value@) == Some(s@),
            None => decibel_part(value@) is None,
        },
{
    let t = trim(value);
    if ends_with(t, "dB") || ends_with(t, "db") {
        let n: usize = t.unicode_len();
        proof {
            reveal_strlit("dB");
            reveal_strlit("db");
            assert(t@.take(t@.len() - 2) =~= t@.subrange(0, t@.len() - 2));
        }
        Some(owned(trim(t.substring_char(0, n - 2))))
    } else {
        None
    }
}

/// The numbers that the value of an annotation denotes, as bit patterns of
/// doubles.
#[derive(Clone, Copy, Debug)]
pub struct Reading {
    /// The number that the whole value denotes, if it denotes one.
    pub number: Option<u64>,
    /// For a value in decibels (see [`decibel_text`]): the decibels, and the
    /// linear factor that they stand for.
    pub decibels: Option<(u64, u64)>,
}

/// The cue points of a track.
pub struct CuesView {
    pub cue_in: u64,
    pub cue_out: Option<u64>,
    pub fade_in: Option<u64>,
    pub fade_out: Option<u64>,
    pub amplify: Option<u64>,
    pub start_next: Option<u64>,
    pub append: Option<Seq<char>>,
    pub prepend: Option<Seq<char>>,
    pub title: Option<Seq<char>>,
}

/// No cue points.
pub open spec fn no_cues() -> CuesView {
    CuesView {
        cue_in: 0,
        cue_out: None,
        fade_in: None,
        fade_out: None,
        amplify: None,
        start_next: None,
        append: None,
        prepend: None,
        title: None,
    }
}

/// The finite number that a value denotes, with minus zero turned into zero.
pub open spec fn cue_number(r: Reading) -> Option<u64> {
    match r.number {
        Some(bits) => if is_finite(bits) {
            Some(normal_zero(bits))
        } else {
            None
        },
        None => None,
    }
}

/// The amplification that a value denotes: a factor, or decibels.
pub open spec fn amplification(r: Reading) -> Option<u64> {
    match cue_number(r) {
        Some(v) => Some(v),
        None => match r.decibels {
            Some((db, gain)) => if is_finite(db) {
                Some(gain)
            } else {
                None
            },
            None => None,
        },
    }
}

/// The key names a cue point or a fade: as it is, or in the spelling with
/// `liq_` in front.
pub open spec fn names_cue(key: Seq<char>, name: Seq<char>) -> bool {
    key == name || key == "liq_"@ + name
}

/// The cue points after one annotation; none where the annotation sets
/// nothing (an unknown key, an empty text, or no finite number where one is
/// needed).
pub open spec fn cues_with(c: CuesView, f: FieldView, r: Reading) -> Option<CuesView> {
    let text = if f.value.len() == 0 {
        None
    } else {
        Some(f.value)
    };
    if f.key == "title"@ {
        if text is None { None } else { Some(CuesView { title: text, ..c }) }
    } else if f.key == "append"@ {
        if text is None { None } else { Some(CuesView { append: text, ..c }) }
    } else if f.key == "prepend"@ {
        if text is None { None } else { Some(CuesView { prepend: text, ..c }) }
    } else if f.key == "amplify"@ {
        if amplification(r) is None { None } else { Some(CuesView { amplify: amplification(r), ..c }) }
    } else {
        match cue_number(r) {
            None => None,
            Some(v) => if names_cue(f.key, "cue_in"@) {
                Some(CuesView { cue_in: v, ..c })
            } else if names_cue(f.key, "cue_out"@) {
                Some(CuesView { cue_out: Some(v), ..c })
            } else if names_cue(f.key, "fade_in"@) {
                Some(CuesView { fade_in: Some(v), ..c })
            } else if names_cue(f.key, "fade_out"@) {
                Some(CuesView { fade_out: Some(v), ..c })
            } else if f.key == "start_next"@ {
                Some(CuesView { start_next: Some(v), ..c })
            } else {
                None
            },
        }
    }
}

/// The cue points after the first `n` annotations; none where no annotation
/// set anything.
pub open spec fn cues_after(fields: Seq<FieldView>, readings: Seq<Reading>, n: nat) -> Option<CuesView>
    decreases n,
{
    if n == 0 {
        None
    } else {
        let before = cues_after(fields, readings, (n - 1) as nat);
        let base = match before {
            Some(c) => c,
            None => no_cues(),
        };
        match cues_with(base, fields[n - 1], readings[n - 1]) {
            Some(c) => Some(c),
            None => before,
        }
    }
}

/// The bare URI and the cue points of a request.
pub open spec fn request_parts(uri: Seq<char>, readings: Seq<Reading>) -> (
    Seq<char>,
    Option<CuesView>,
) {
    match annotated(uri) {
        Some(a) => (a.bare, cues_after(a.fields, readings, a.fields.len())),
        None => (uri, None),
    }
}

/// There is one reading for each annotation.
pub open spec fn readings_match(uri: Seq<char>, readings: Seq<Reading>) -> bool {
    annotated(uri) matches Some(a) ==> readings.len() == a.fields.len()
}

/// Per-track cue points. Times are in seconds; every number is the bit
/// pattern of a double.
#[derive(Clone, Debug)]
pub struct TrackCues {
    /// Where the audible window starts.
    pub cue_in: u64,
    /// Where the track ends early.
    pub cue_out: Option<u64>,
    /// Crossfade fade-in of this track.
    pub fade_in: Option<u64>,
    /// Crossfade fade-out of this track.
    pub fade_out: Option<u64>,
    /// Linear gain of this track.
    pub amplify: Option<u64>,
    /// How early the next track starts.
    pub start_next: Option<u64>,
    /// Request played after this track; `false` inhibits the default one.
    pub append: Option<String>,
    /// Request played before this track; `false` inhibits the default one.
    pub prepend: Option<String>,
    /// On-air title.
    pub title: Option<String>,
}

impl View for TrackCues {
    type V = CuesView;

    open spec fn view(&self) -> CuesView {
        CuesView {
            cue_in: self.cue_in,
            cue_out: self.cue_out,
            fade_in: self.fade_in,
            fade_out: self.fade_out,
            amplify: self.amplify,
            start_next: self.start_next,
            append: opt_text(self.append),
            prepend: opt_text(self.prepend),
            title: opt_text(self.title),
        }
    }
}

/// The view of optional cue points.
pub open spec fn opt_cues(c: Option<TrackCues>) -> Option<CuesView> {
    match c {
        Some(t) => Some(t@),
        None => None,
    }
}

impl Default for TrackCues {
    fn default() -> (c: TrackCues)
        ensures
            c@ == no_cues(),
    {
        TrackCues {
            cue_in: 0,
            cue_out: None,
            fade_in: None,
            fade_out: None,
            amplify: None,
            start_next: None,
            append: None,
            prepend: None,
            title: None,
        }
    }
}

fn finite_number(r: &Reading) -> (v: Option<u64>)
    ensures
        v == cue_number(*r),
{
    match r.number {
        Some(bits) => if (bits / 0x10_0000_0000_0000) % 0x800 != 0x7ff {
            Some(if bits == NEG_ZERO { 0 } else { bits })
        } else {
            None
        },
        None => None,
    }
}

fn amplify_factor(r: &Reading) -> (v: Option<u64>)
    ensures
        v == amplification(*r),
{
    match finite_number(r) {
        Some(v) => Some(v),
        None => match r.decibels {
            Some((db, gain)) => if (db / 0x10_0000_0000_0000) % 0x800 != 0x7ff {
                Some(gain)
            } else {
                None
            },
            None => None,
        },
    }
}

fn is_cue(key: &str, name: &str) -> (b: bool)
    ensures
        b == names_cue(key@, name@),
{
    if same(key, name) {
        return true;
    }
    let mut long = owned("liq_");
    long.append(name);
    same(key, long.as_str())
}

impl TrackCues {
    /// Applies one annotation; says whether it set anything.
    pub fn apply(&mut self, f: &Annotation, r: &Reading) -> (found: bool)
        ensures
            match cues_with(old(self)@, f@, *r) {
                Some(c) => found && final(self)@ == c,
                None => !found && final(self)@ == old(self)@,
            },
    {
        let key = f.key.as_str();
        let value = f.value.as_str();
        if same(key, "title") {
            if value.is_empty() {
                return false;
            }
            self.title = Some(owned(value));
            return true;
        }
        if same(key, "append") {
            if value.is_empty() {
                return false;
            }
            self.append = Some(owned(value));
            return true;
        }
        if same(key, "prepend") {
            if value.is_empty() {
                return false;
            }
            self.prepend = Some(owned(value));
            return true;
        }
        if same(key, "amplify") {
            match amplify_factor(r) {
                None => return false,
                Some(v) => {
                    self.amplify = Some(v);
                    return true;
                },
            }
        }
        match finite_number(r) {
            None => false,
            Some(v) => {
                if is_cue(key, "cue_in") {
                    self.cue_in = v;
                } else if is_cue(key, "cue_out") {
                    self.cue_out = Some(v);
                } else if is_cue(key, "fade_in") {
                    self.fade_in = Some(v);
                } else if is_cue(key, "fade_out") {
                    self.fade_out = Some(v);
                } else if same(key, "start_next") {
                    self.start_next = Some(v);
                } else {
                    return false;
                }
                true
            },
        }
    }
}

/// Parses the `annotate:` prefix: the bare URI, and the cue points if any
/// annotation sets one. A malformed prefix leaves the whole text as a plain
/// URI.
pub fn parse_annotate(uri: &str, readings: &[Reading]) -> (r: (String, Option<TrackCues>))
    requires
        readings_match(uri@, readings@),
    ensures
        (r.0@, opt_cues(r.1)) == request_parts(uri@, readings@),
{
    let parts = match scan_annotate(uri) {
        Some(p) => p,
        None => return (owned(uri), None),
    };
    let ghost fields = field_views(parts.fields@);
    let mut cues = TrackCues::default();
    let mut found = false;
    let mut i: usize = 0;
    while i < parts.fields.len()
        invariant
            i <= parts.fields@.len(),
            fields == field_views(parts.fields@),
            readings@.len() == parts.fields@.len(),
            match cues_after(fields, readings@, i as nat) {
                Some(c) => found && cues@ == c,
                None => !found && cues@ == no_cues(),
            },
        decreases parts.fields@.len() - i,
    {
        assert(fields[i as int] == parts.fields@[i as int]@);
        if cues.apply(&parts.fields[i], &readings[i]) {
            found = true;
        }
        i = i + 1;
    }
    if found {
        (parts.bare, Some(cues))
    } else {
        (parts.bare, None)
    }
}

// ---------------------------------------------------------------------------
// Requests
// ---------------------------------------------------------------------------

/// The text is the URL of a download.
pub open spec fn is_url(s: Seq<char>) -> bool {
    has_prefix(s, "http://"@) || has_prefix(s, "https://"@)
}

/// A media item: a path or a URL, with optional cue points.
pub enum RequestView {
    Local(Seq<char>, Option<CuesView>),
    Url(Seq<char>, Option<CuesView>),
}

/// The request that a text denotes.
pub open spec fn request_of(uri: Seq<char>, readings: Seq<Reading>) -> RequestView {
    let (bare, cues) = request_parts(uri, readings);
    if is_url(bare) {
        RequestView::Url(bare, cues)
    } else {
        RequestView::Local(bare, cues)
    }
}

/// The components of a path that name something: neither empty nor `.`.
pub open spec fn path_parts(path: Seq<char>) -> Seq<Seq<char>> {
    split_all(path, '/').filter(|p: Seq<char>| p.len() > 0 && p != seq!['.'])
}

/// The file name of a path: its last component, unless that is `..`.
pub open spec fn file_name_of(path: Seq<char>) -> Option<Seq<char>> {
    let parts = path_parts(path);
    if parts.len() == 0 || parts.last() == seq!['.', '.'] {
        None
    } else {
        Some(parts.last())
    }
}

/// The file name without its extension: what stands in front of the last dot,
/// unless that dot is the first character.
pub open spec fn stem_of(name: Seq<char>) -> Seq<char> {
    let i = rfind_before(name, '.', name.len() as int);
    if i <= 0 {
        name
    } else {
        name.take(i)
    }
}

/// The extension of a file name: what follows its last dot, unless that dot
/// is the first character.
pub open spec fn extension_of(name: Seq<char>) -> Option<Seq<char>> {
    let i = rfind_before(name, '.', name.len() as int);
    if i <= 0 {
        None
    } else {
        Some(name.skip(i + 1))
    }
}

/// The last path segment of a URL: what follows the last slash in front of
/// the query.
pub open spec fn last_segment(url: Seq<char>) -> Seq<char> {
    let path = match split_first(url, '?') {
        Some((before, _)) => before,
        None => url,
    };
    match split_last(path, '/') {
        Some((_, segment)) => segment,
        None => path,
    }
}

/// The short label of a request.
pub open spec fn request_label(r: RequestView) -> Seq<char> {
    match r {
        RequestView::Local(path, _) => match file_name_of(path) {
            Some(name) => stem_of(name),
            None => path,
        },
        RequestView::Url(url, _) => if last_segment(url).len() == 0 {
            url
        } else {
            last_segment(url)
        },
    }
}

/// The file name of a path.
pub fn file_name(path: &str) -> (r: Option<String>)
    ensures
        opt_text(r) == file_name_of(path@),
{
    let parts = split(path, '/');
    let ghost all = str_views(parts@);
    let ghost keep = |p: Seq<char>| p.len() > 0 && p != seq!['.'];
    let mut last: Option<&str> = None;
    let mut i: usize = 0;
    proof {
        assert(all.take(0).filter(keep) =~= Seq::<Seq<char>>::empty());
        reveal_strlit(".");
        reveal_strlit("..");
        assert("."@ =~= seq!['.']);
        assert(".."@ =~= seq!['.', '.']);
    }
    while i < parts.len()
        invariant
            i <= parts@.len(),
            all == str_views(parts@),
            keep == (|p: Seq<char>| p.len() > 0 && p != seq!['.']),
            "."@ == seq!['.'],
            match last {
                Some(p) => all.take(i as int).filter(keep).len() > 0 && all.take(i as int).filter(
                    keep,
                ).last() == p@,
                None => all.take(i as int).filter(keep).len() == 0,
            },
        decreases parts@.len() - i,
    {
        let p = parts[i];
        proof {
            assert(all.take(i as int + 1).drop_last() =~= all.take(i as int));
            assert(all.take(i as int + 1).last() == p@);
            reveal(Seq::filter);
        }
        if !p.is_empty() && !same(p, ".") {
            last = Some(p);
        }
        i = i + 1;
    }
    proof {
        assert(all.take(all.len() as int) =~= all);
    }
    match last {
        None => None,
        Some(p) => if same(p, "..") {
            None
        } else {
            Some(owned(p))
        },
    }
}

/// The file name of a path without its extension.
pub fn file_stem(path: &str) -> (r: Option<String>)
    ensures
        opt_text(r) == (match file_name_of(path@) {
            Some(name) => Some(stem_of(name)),
            None => None,
        }),
{
    match file_name(path) {
        None => None,
        Some(name) => {
            proof {
                crate::text::lemma_rfind_before(name@, '.', name@.len() as int);
            }
            let stem: Option<String> = match rsplit_once(name.as_str(), '.') {
                None => None,
                Some((a, _)) => if a.is_empty() {
                    None
                } else {
                    Some(owned(a))
                },
            };
            match stem {
                None => Some(name),
                Some(s) => Some(s),
            }
        },
    }
}

/// The extension of a path.
pub fn extension(path: &str) -> (r: Option<String>)
    ensures
        opt_text(r) == (match file_name_of(path@) {
            Some(name) => extension_of(name),
            None => None,
        }),
{
    match file_name(path) {
        None => None,
        Some(name) => {
            proof {
                crate::text::lemma_rfind_before(name@, '.', name@.len() as int);
            }
            match rsplit_once(name.as_str(), '.') {
                None => None,
                Some((a, b)) => if a.is_empty() {
                    None
                } else {
                    Some(owned(b))
                },
            }
        },
    }
}

fn last_url_segment(url: &str) -> (s: &str)
    ensures
        s@ == last_segment(url@),
{
    let path = match split_once(url, '?') {
        Some((before, _)) => before,
        None => url,
    };
    match rsplit_once(path, '/') {
        Some((_, segment)) => segment,
        None => path,
    }
}

/// A media item: a path or a URL, with optional cue points. URLs are
/// downloaded to a temporary file when they are resolved.
#[derive(Clone, Debug)]
pub enum RequestUri {
    Local(String, Option<TrackCues>),
    Url(String, Option<TrackCues>),
}

impl View for RequestUri {
    type V = RequestView;

    open spec fn view(&self) -> RequestView {
        match self {
            RequestUri::Local(p, c) => RequestView::Local(p@, opt_cues(*c)),
            RequestUri::Url(u, c) => RequestView::Url(u@, opt_cues(*c)),
        }
    }
}

impl RequestUri {
    /// The request that a text denotes; `readings` holds the numbers of its
    /// annotations.
    pub fn new(uri: &str, readings: &[Reading]) -> (r: RequestUri)
        requires
            readings_match(uri@, readings@),
        ensures
            r@ == request_of(uri@, readings@),
    {
        let (bare, cues) = parse_annotate(uri, readings);
        if starts_with(bare.as_str(), "http://") || starts_with(bare.as_str(), "https://") {
            RequestUri::Url(bare, cues)
        } else {
            RequestUri::Local(bare, cues)
        }
    }

    /// The full path or URL, for queue listings.
    pub fn raw(&self) -> (s: String)
        ensures
            s@ == (match self@ {
                RequestView::Local(p, _) => p,
                RequestView::Url(u, _) => u,
            }),
    {
        match self {
            RequestUri::Local(p, _) => p.clone(),
            RequestUri::Url(u, _) => u.clone(),
        }
    }

    /// Short label for status and metadata.
    pub fn display(&self) -> (s: String)
        ensures
            s@ == request_label(self@),
    {
        match self {
            RequestUri::Local(p, _) => match file_stem(p.as_str()) {
                Some(s) => s,
                None => p.clone(),
            },
            RequestUri::Url(u, _) => {
                let seg = last_url_segment(u.as_str());
                if seg.is_empty() {
                    u.clone()
                } else {
                    owned(seg)
                }
            },
        }
    }
}

/// How a source with these cue points is wrapped.
pub struct CuePlanView {
    pub cut: bool,
    pub title: Option<Seq<char>>,
    pub gain: Option<u64>,
}

/// A track needs the cue cutter: it starts late, ends early, overrides a
/// fade or the start of the next track, or has followers.
pub open spec fn needs_cut(c: CuesView) -> bool {
    ||| is_positive(c.cue_in)
    ||| c.cue_out is Some
    ||| c.fade_in is Some
    ||| c.fade_out is Some
    ||| c.start_next is Some
    ||| c.append is Some
    ||| c.prepend is Some
}

/// How a source with these cue points is wrapped.
pub open spec fn cue_plan_of(cues: Option<CuesView>) -> CuePlanView {
    match cues {
        None => CuePlanView { cut: false, title: None, gain: None },
        Some(c) => CuePlanView { cut: needs_cut(c), title: c.title, gain: c.amplify },
    }
}

/// How a source with cue points is wrapped: cut to its window, renamed,
/// amplified.
pub struct CuePlan {
    pub cut: bool,
    pub title: Option<String>,
    pub gain: Option<u64>,
}

impl View for CuePlan {
    type V = CuePlanView;

    open spec fn view(&self) -> CuePlanView {
        CuePlanView { cut: self.cut, title: opt_text(self.title), gain: self.gain }
    }
}

/// Decides how a source with these cue points is wrapped.
pub fn cue_plan(cues: &Option<TrackCues>) -> (p: CuePlan)
    ensures
        p@ == cue_plan_of(opt_cues(*cues)),
{
    match cues {
        None => CuePlan { cut: false, title: None, gain: None },
        Some(c) => {
            let cut = (0 < c.cue_in && c.cue_in <= 0x7ff0_0000_0000_0000) || c.cue_out.is_some()
                || c.fade_in.is_some() || c.fade_out.is_some() || c.start_next.is_some()
                || c.append.is_some() || c.prepend.is_some();
            let title: Option<String> = match &c.title {
                Some(t) => Some(t.clone()),
                None => None,
            };
            CuePlan { cut, title, gain: c.amplify }
        },
    }
}

// ---------------------------------------------------------------------------
// Temporary files
// ---------------------------------------------------------------------------

/// One step of the FNV-1a hash.
pub open spec fn fnv_step(h: u64, b: u8) -> u64 {
    vstd::wrapping::u64_specs::wrapping_mul(h ^ (b as u64), 0x100_0000_01b3)
}

/// The FNV-1a hash of a byte string.
pub open spec fn fnv(data: Seq<u8>) -> u64
    decreases data.len(),
{
    if data.len() == 0 {
        0xcbf2_9ce4_8422_2325
    } else {
        fnv_step(fnv(data.drop_last()), data.last())
    }
}

/// FNV-1a hash of a URL, for a stable temporary file name.
pub fn hash_url(url: &str) -> (h: u64)
    ensures
        h == fnv(vstd::utf8::encode_utf8(url@)),
{
    let data = url.as_bytes();
    let mut h: u64 = 0xcbf2_9ce4_8422_2325;
    let mut i: usize = 0;
    while i < data.len()
        invariant
            i <= data@.len(),
            h == fnv(data@.take(i as int)),
        decreases data@.len() - i,
    {
        proof {
            assert(data@.take(i as int + 1).drop_last() =~= data@.take(i as int));
        }
        h = (h ^ (data[i] as u64)).wrapping_mul(0x100_0000_01b3);
        i = i + 1;
    }
    assert(data@.take(data@.len() as int) =~= data@);
    h
}

/// The name of the temporary file for the `n`th download of a process.
pub open spec fn temp_name_of(url: Seq<char>, n: u64) -> Seq<char> {
    hex_fixed(fnv(vstd::utf8::encode_utf8(url)) as nat, 16) + "-"@ + dec(n as nat) + ".part"@
}

/// The name of the temporary file for a download: the same URL gives the same
/// first part, and the counter `n` tells downloads of it apart.
pub fn temp_name(url: &str, n: u64) -> (s: String)
    ensures
        s@ == temp_name_of(url@, n),
{
    let mut s = String::new();
    push_hex_fixed(&mut s, hash_url(url), 16);
    s.append("-");
    push_dec(&mut s, n);
    s.append(".part");
    assert(s@ =~= temp_name_of(url@, n));
    s
}

// ---------------------------------------------------------------------------
// Ordering
// ---------------------------------------------------------------------------

/// The order of optional numbers: nothing comes first.
pub open spec fn opt_order(a: Option<u64>, b: Option<u64>) -> Ordering {
    match (a, b) {
        (None, None) => Ordering::Equal,
        (None, Some(_)) => Ordering::Less,
        (Some(_), None) => Ordering::Greater,
        (Some(x), Some(y)) => int_order(total_key(x), total_key(y)),
    }
}

/// The order of cue points: none first; then by where the track ends, its
/// fades, where it starts, its followers and its title.
pub open spec fn cues_order(a: Option<CuesView>, b: Option<CuesView>) -> Ordering {
    match (a, b) {
        (None, None) => Ordering::Equal,
        (None, Some(_)) => Ordering::Less,
        (Some(_), None) => Ordering::Greater,
        (Some(x), Some(y)) => first_order(
            opt_order(x.cue_out, y.cue_out),
            first_order(
                opt_order(x.fade_in, y.fade_in),
                first_order(
                    opt_order(x.fade_out, y.fade_out),
                    first_order(
                        int_order(total_key(x.cue_in), total_key(y.cue_in)),
                        first_order(
                            opt_text_order(x.append, y.append),
                            first_order(
                                opt_text_order(x.prepend, y.prepend),
                                opt_text_order(x.title, y.title),
                            ),
                        ),
                    ),
                ),
            ),
        ),
    }
}

/// The order of requests: local files before URLs, by their paths; URLs by
/// their texts; then by the cue points.
pub open spec fn request_order(a: RequestView, b: RequestView) -> Ordering {
    match (a, b) {
        (RequestView::Local(p, x), RequestView::Local(q, y)) => first_order(
            path_order(p, q),
            cues_order(x, y),
        ),
        (RequestView::Url(u, x), RequestView::Url(v, y)) => first_order(
            text_order(u, v),
            cues_order(x, y),
        ),
        (RequestView::Local(..), RequestView::Url(..)) => Ordering::Less,
        (RequestView::Url(..), RequestView::Local(..)) => Ordering::Greater,
    }
}

fn order_bits(a: u64, b: u64) -> (r: Ordering)
    ensures
        r == int_order(total_key(a), total_key(b)),
{
    if a == b {
        Ordering::Equal
    } else if a >= NEG_ZERO && b >= NEG_ZERO {
        if a > b {
            Ordering::Less
        } else {
            Ordering::Greater
        }
    } else if a >= NEG_ZERO {
        Ordering::Less
    } else if b >= NEG_ZERO {
        Ordering::Greater
    } else if a < b {
        Ordering::Less
    } else {
        Ordering::Greater
    }
}

fn order_opt(a: &Option<u64>, b: &Option<u64>) -> (r: Ordering)
    ensures
        r == opt_order(*a, *b),
{
    match (a, b) {
        (None, None) => Ordering::Equal,
        (None, Some(_)) => Ordering::Less,
        (Some(_), None) => Ordering::Greater,
        (Some(x), Some(y)) => order_bits(*x, *y),
    }
}

/// The order of cue points.
pub fn order_cues(a: &Option<TrackCues>, b: &Option<TrackCues>) -> (r: Ordering)
    ensures
        r == cues_order(opt_cues(*a), opt_cues(*b)),
{
    match (a, b) {
        (None, None) => Ordering::Equal,
        (None, Some(_)) => Ordering::Less,
        (Some(_), None) => Ordering::Greater,
        (Some(x), Some(y)) => order_then(
            order_opt(&x.cue_out, &y.cue_out),
            order_then(
                order_opt(&x.fade_in, &y.fade_in),
                order_then(
                    order_opt(&x.fade_out, &y.fade_out),
                    order_then(
                        order_bits(x.cue_in, y.cue_in),
                        order_then(
                            order_opt_text(&x.append, &y.append),
                            order_then(
                                order_opt_text(&x.prepend, &y.prepend),
                                order_opt_text(&x.title, &y.title),
                            ),
                        ),
                    ),
                ),
            ),
        ),
    }
}

impl RequestUri {
    /// The order of two requests.
    pub fn order(&self, other: &RequestUri) -> (r: Ordering)
        ensures
            r == request_order(self@, other@),
    {
        match (self, other) {
            (RequestUri::Local(p, x), RequestUri::Local(q, y)) => order_then(
                order_paths(p.as_str(), q.as_str()),
                order_cues(x, y),
            ),
            (RequestUri::Url(u, x), RequestUri::Url(v, y)) => order_then(
                order_text(u.as_str(), v.as_str()),
                order_cues(x, y),
            ),
            (RequestUri::Local(..), RequestUri::Url(..)) => Ordering::Less,
            (RequestUri::Url(..), RequestUri::Local(..)) => Ordering::Greater,
        }
    }
}

// ---------------------------------------------------------------------------
// Equality
// ---------------------------------------------------------------------------

/// Both are absent, or both denote the same number.
pub open spec fn same_opt_number(a: Option<u64>, b: Option<u64>) -> bool {
    match (a, b) {
        (None, None) => true,
        (Some(x), Some(y)) => same_number(x, y),
        _ => false,
    }
}

/// The cue points are equal, their numbers as doubles.
pub open spec fn same_cues(a: CuesView, b: CuesView) -> bool {
    &&& same_number(a.cue_in, b.cue_in)
    &&& same_opt_number(a.cue_out, b.cue_out)
    &&& same_opt_number(a.fade_in, b.fade_in)
    &&& same_opt_number(a.fade_out, b.fade_out)
    &&& same_opt_number(a.amplify, b.amplify)
    &&& same_opt_number(a.start_next, b.start_next)
    &&& a.append == b.append
    &&& a.prepend == b.prepend
    &&& a.title == b.title
}

/// Both are absent, or both are equal.
pub open spec fn same_opt_cues(a: Option<CuesView>, b: Option<CuesView>) -> bool {
    match (a, b) {
        (None, None) => true,
        (Some(x), Some(y)) => same_cues(x, y),
        _ => false,
    }
}

/// The requests are equal: paths by their components, URLs by their texts.
pub open spec fn same_request(a: RequestView, b: RequestView) -> bool {
    match (a, b) {
        (RequestView::Local(p, x), RequestView::Local(q, y)) => components(p) == components(q)
            && same_opt_cues(x, y),
        (RequestView::Url(u, x), RequestView::Url(v, y)) => u == v && same_opt_cues(x, y),
        _ => false,
    }
}

fn numbers_equal(a: u64, b: u64) -> (r: bool)
    ensures
        r == same_number(a, b),
{
    let x: u64 = if a >= NEG_ZERO { a - NEG_ZERO } else { a };
    let y: u64 = if b >= NEG_ZERO { b - NEG_ZERO } else { b };
    x <= 0x7ff0_0000_0000_0000 && y <= 0x7ff0_0000_0000_0000 && (a == b || (x == 0 && y == 0))
}

fn opt_numbers_equal(a: &Option<u64>, b: &Option<u64>) -> (r: bool)
    ensures
        r == same_opt_number(*a, *b),
{
    match (a, b) {
        (None, None) => true,
        (Some(x), Some(y)) => numbers_equal(*x, *y),
        _ => false,
    }
}

fn opt_texts_equal(a: &Option<String>, b: &Option<String>) -> (r: bool)
    ensures
        r == (opt_text(*a) == opt_text(*b)),
{
    match (a, b) {
        (None, None) => true,
        (Some(x), Some(y)) => same(x.as_str(), y.as_str()),
        _ => false,
    }
}

fn cues_equal(a: &TrackCues, b: &TrackCues) -> (r: bool)
    ensures
        r == same_cues(a@, b@),
{
    numbers_equal(a.cue_in, b.cue_in) && opt_numbers_equal(&a.cue_out, &b.cue_out)
        && opt_numbers_equal(&a.fade_in, &b.fade_in) && opt_numbers_equal(
        &a.fade_out,
        &b.fade_out,
    ) && opt_numbers_equal(&a.amplify, &b.amplify) && opt_numbers_equal(
        &a.start_next,
        &b.start_next,
    ) && opt_texts_equal(&a.append, &b.append) && opt_texts_equal(&a.prepend, &b.prepend)
        && opt_texts_equal(&a.title, &b.title)
}

fn opt_cues_equal(a: &Option<TrackCues>, b: &Option<TrackCues>) -> (r: bool)
    ensures
        r == same_opt_cues(opt_cues(*a), opt_cues(*b)),
{
    match (a, b) {
        (None, None) => true,
        (Some(x), Some(y)) => cues_equal(x, y),
        _ => false,
    }
}

impl PartialEq for TrackCues {
    fn eq(&self, other: &TrackCues) -> (r: bool) {
        cues_equal(self, other)
    }
}

impl vstd::std_specs::cmp::PartialEqSpecImpl for TrackCues {
    open spec fn obeys_eq_spec() -> bool {
        true
    }

    open spec fn eq_spec(&self, other: &TrackCues) -> bool {
        same_cues(self@, other@)
    }
}

impl PartialEq for RequestUri {
    fn eq(&self, other: &RequestUri) -> (r: bool) {
        match (self, other) {
            (RequestUri::Local(p, x), RequestUri::Local(q, y)) => same_path(p.as_str(), q.as_str())
                && opt_cues_equal(x, y),
            (RequestUri::Url(u, x), RequestUri::Url(v, y)) => same(u.as_str(), v.as_str())
                && opt_cues_equal(x, y),
            _ => false,
        }
    }
}

impl vstd::std_specs::cmp::PartialEqSpecImpl for RequestUri {
    open spec fn obeys_eq_spec() -> bool {
        true
    }

    open spec fn eq_spec(&self, other: &RequestUri) -> bool {
        same_request(self@, other@)
    }
}

impl PartialOrd for RequestUri {
    fn partial_cmp(&self, other: &RequestUri) -> (r: Option<Ordering>) {
        Some(self.order(other))
    }
}

impl vstd::std_specs::cmp::PartialOrdSpecImpl for RequestUri {
    open spec fn obeys_partial_cmp_spec() -> bool {
        true
    }

    open spec fn partial_cmp_spec(&self, other: &RequestUri) -> Option<Ordering> {
        Some(request_order(self@, other@))
    }
}

/// The attempts to fetch a file: how many failed, and with what.
pub struct Download {
    failed: u64,
    limit: u64,
    last: Option<String>,
}

impl Download {
    /// Failed attempts so far.
    pub closed spec fn failures(&self) -> nat {
        self.failed as nat
    }

    /// Attempts that are made at most.
    pub closed spec fn most(&self) -> nat {
        self.limit as nat
    }

    /// The error of the last failed attempt.
    pub closed spec fn last_error(&self) -> Option<Seq<char>> {
        crate::http::opt_text(self.last)
    }

    /// No more attempts failed than are made.
    pub open spec fn wf(&self) -> bool {
        self.failures() <= self.most() && (self.failures() > 0 <==> self.last_error() is Some)
    }

    /// Before the first attempt: one more is made than are retried.
    pub fn new(config: &RequestConfig) -> (d: Download)
        ensures
            d.wf(),
            d.failures() == 0,
            d.most() == config.retries + 1,
    {
        Download { failed: 0, limit: config.attempts(), last: None }
    }

    /// Whether another attempt is made.
    pub fn again(&self) -> (b: bool)
        ensures
            b == (self.failures() < self.most()),
    {
        self.failed < self.limit
    }

    /// An attempt failed.
    pub fn on_failure(&mut self, error: &str)
        requires
            old(self).wf(),
            old(self).failures() < old(self).most(),
        ensures
            final(self).wf(),
            final(self).failures() == old(self).failures() + 1,
            final(self).most() == old(self).most(),
            final(self).last_error() == Some(error@),
    {
        self.failed = self.failed + 1;
        self.last = Some(owned(error));
    }

    /// What the fetch fails with once no attempt is left: the last error.
    pub fn error(&self) -> (s: String)
        requires
            self.wf(),
        ensures
            s@ == (match self.last_error() {
                Some(e) => e,
                None => "download failed"@,
            }),
    {
        match &self.last {
            Some(e) => owned(e.as_str()),
            None => owned("download failed"),
        }
    }
}

// ---------------------------------------------------------------------------
// Laws
// ---------------------------------------------------------------------------

/// A key that the grammar can hold, and a value without quotes.
pub open spec fn valid_field(f: FieldView) -> bool {
    &&& f.key.len() > 0
    &&& forall|i: int| 0 <= i < f.key.len() ==> is_key_char(#[trigger] f.key[i])
    &&& forall|i: int| 0 <= i < f.value.len() ==> #[trigger] f.value[i] != '"'
}

/// An annotation in text.
pub open spec fn field_text(f: FieldView) -> Seq<char> {
    f.key + seq!['=', '"'] + f.value + seq!['"']
}

/// Annotations and a URI in text, behind the `annotate:` prefix.
pub open spec fn annotation_text(fields: Seq<FieldView>, bare: Seq<char>) -> Seq<char>
    decreases fields.len(),
{
    if fields.len() == 0 {
        Seq::empty()
    } else if fields.len() == 1 {
        field_text(fields[0]) + seq![':'] + bare
    } else {
        field_text(fields[0]) + seq![','] + annotation_text(fields.skip(1), bare)
    }
}

proof fn lemma_key_run(s: Seq<char>, from: int, to: int)
    requires
        0 <= from <= to < s.len(),
        forall|j: int| from <= j < to ==> is_key_char(#[trigger] s[j]),
        !is_key_char(s[to]),
    ensures
        key_end(s, from) == to,
    decreases to - from,
{
    if from < to {
        lemma_key_run(s, from + 1, to);
    }
}

proof fn lemma_find_run(s: Seq<char>, c: char, from: int, to: int)
    requires
        0 <= from <= to < s.len(),
        forall|j: int| from <= j < to ==> #[trigger] s[j] != c,
        s[to] == c,
    ensures
        find_from(s, c, from) == to,
    decreases to - from,
{
    if from < to {
        lemma_find_run(s, c, from + 1, to);
    }
}

/// A field that stands at `at` is read as that field.
proof fn lemma_field_at(s: Seq<char>, at: int, f: FieldView, rest: Seq<char>)
    requires
        valid_field(f),
        0 <= at <= s.len(),
        s.skip(at) == field_text(f) + rest,
    ensures
        ({
            let k = at + f.key.len();
            let q = k + 2 + f.value.len();
            &&& key_end(s, at) == k
            &&& k + 1 < s.len()
            &&& s[k] == '='
            &&& s[k + 1] == '"'
            &&& find_from(s, '"', k + 2) == q
            &&& s.subrange(at, k) == f.key
            &&& s.subrange(k + 2, q) == f.value
            &&& s.skip(q + 1) == rest
            &&& q + 1 + rest.len() == s.len()
        }),
{
    let k = at + f.key.len();
    let q = k + 2 + f.value.len();
    let tail1 = seq!['"'] + rest;
    let tail2 = f.value + tail1;
    assert(s.skip(at) =~= f.key + seq!['=', '"'] + tail2);
    crate::seqs::lemma_skip_parts(s, at, f.key, seq!['=', '"'], tail2);
    assert(s.skip(k + 2) =~= f.value + seq!['"'] + rest);
    crate::seqs::lemma_skip_parts(s, k + 2, f.value, seq!['"'], rest);
    assert(s.subrange(k, k + 2)[0] == '=' && s.subrange(k, k + 2)[1] == '"');
    assert(s.subrange(q, q + 1)[0] == '"');
    assert forall|j: int| at <= j < k implies is_key_char(#[trigger] s[j]) by {
        assert(s.subrange(at, k)[j - at] == f.key[j - at]);
    }
    lemma_key_run(s, at, k);
    assert forall|j: int| k + 2 <= j < q implies #[trigger] s[j] != '"' by {
        assert(s.subrange(k + 2, q)[j - k - 2] == f.value[j - k - 2]);
    }
    lemma_find_run(s, '"', k + 2, q);
}

proof fn lemma_annotation_scan(s: Seq<char>, at: int, fields: Seq<FieldView>, bare: Seq<char>)
    requires
        fields.len() > 0,
        forall|i: int| 0 <= i < fields.len() ==> valid_field(#[trigger] fields[i]),
        bare.len() > 0,
        0 <= at <= s.len(),
        s.skip(at) == annotation_text(fields, bare),
    ensures
        scan_from(s, at) == Some(AnnotatedView { fields, bare }),
    decreases fields.len(),
{
    let f = fields[0];
    assert(valid_field(f));
    let k = at + f.key.len();
    let q = k + 2 + f.value.len();
    let field = FieldView { key: s.subrange(at, k), value: s.subrange(k + 2, q) };
    if fields.len() == 1 {
        let rest = seq![':'] + bare;
        assert(s.skip(at) =~= field_text(f) + rest);
        lemma_field_at(s, at, f, rest);
        assert(s.skip(q + 1)[0] == ':');
        assert(s.skip(q + 2) =~= bare) by {
            assert(s.skip(q + 1).skip(1) =~= s.skip(q + 2));
            assert(rest.skip(1) =~= bare);
        }
        assert(seq![field] =~= fields);
    } else {
        let others = fields.skip(1);
        let tail = annotation_text(others, bare);
        let rest = seq![','] + tail;
        assert(s.skip(at) =~= field_text(f) + rest);
        lemma_field_at(s, at, f, rest);
        assert(s.skip(q + 1)[0] == ',');
        assert(s.skip(q + 2) =~= tail) by {
            assert(s.skip(q + 1).skip(1) =~= s.skip(q + 2));
            assert(rest.skip(1) =~= tail);
        }
        assert forall|i: int| 0 <= i < others.len() implies valid_field(#[trigger] others[i]) by {
            assert(others[i] == fields[i + 1]);
        }
        lemma_annotation_scan(s, q + 2, others, bare);
        assert(seq![field] + others =~= fields);
    }
}

/// Reading what was written gives the annotations and the URI back.
pub proof fn law_annotations_read_back(fields: Seq<FieldView>, bare: Seq<char>)
    requires
        fields.len() > 0,
        forall|i: int| 0 <= i < fields.len() ==> valid_field(#[trigger] fields[i]),
        bare.len() > 0,
    ensures
        annotated("annotate:"@ + annotation_text(fields, bare)) == Some(
            AnnotatedView { fields, bare },
        ),
{
    let s = annotation_text(fields, bare);
    let uri = "annotate:"@ + s;
    assert(uri.take("annotate:"@.len() as int) =~= "annotate:"@);
    assert(uri.skip("annotate:"@.len() as int) =~= s);
    assert(s.skip(0) =~= s);
    lemma_annotation_scan(s, 0, fields, bare);
}

/// A text without a well-formed prefix is a plain request for that very text,
/// without cue points.
pub proof fn law_malformed_annotations_are_plain(uri: Seq<char>, readings: Seq<Reading>)
    requires
        annotated(uri) is None,
    ensures
        request_of(uri, readings) == (if is_url(uri) {
            RequestView::Url(uri, None)
        } else {
            RequestView::Local(uri, None)
        }),
{
}

/// Numbers that are not finite never become cue points: an annotation whose
/// value is not a finite number leaves every numeric cue point as it was.
pub proof fn law_non_finite_numbers_are_ignored(c: CuesView, f: FieldView, r: Reading)
    requires
        r.number matches Some(bits) ==> !is_finite(bits),
        r.decibels is None,
    ensures
        cues_with(c, f, r) matches Some(d) ==> {
            &&& d.cue_in == c.cue_in
            &&& d.cue_out == c.cue_out
            &&& d.fade_in == c.fade_in
            &&& d.fade_out == c.fade_out
            &&& d.start_next == c.start_next
            &&& d.amplify == c.amplify
        },
{
}

/// A source is left uncut only where cutting would change nothing: whatever
/// says where the track starts or ends, how it fades, when the next one starts
/// or what is played around it, each by itself has the source cut. The title
/// and the gain are those of the cue points, and do not cut.
pub proof fn law_uncut_only_without_cues(c: CuesView)
    ensures
        ({
            let p = cue_plan_of(Some(c));
            &&& !p.cut ==> {
                &&& c.cue_out is None
                &&& c.fade_in is None
                &&& c.fade_out is None
                &&& c.start_next is None
                &&& c.append is None
                &&& c.prepend is None
                &&& c.cue_in == 0 || c.cue_in > 0x7ff0_0000_0000_0000
            }
            &&& c.cue_out is Some ==> p.cut
            &&& c.fade_in is Some ==> p.cut
            &&& c.fade_out is Some ==> p.cut
            &&& c.start_next is Some ==> p.cut
            &&& c.append is Some ==> p.cut
            &&& c.prepend is Some ==> p.cut
            &&& 0 < c.cue_in < 0x7ff0_0000_0000_0000 ==> p.cut
            &&& p.title == c.title
            &&& p.gain == c.amplify
        }),
        ({
            let plain = CuesView { title: c.title, amplify: c.amplify, ..no_cues() };
            let p = cue_plan_of(Some(plain));
            !p.cut && p.title == c.title && p.gain == c.amplify
        }),
        ({
            let p = cue_plan_of(None);
            !p.cut && p.title is None && p.gain is None
        }),
{
}

proof fn lemma_cue_keys()
    ensures
        "title"@.len() == 5 && "append"@.len() == 6 && "prepend"@.len() == 7 && "amplify"@.len()
            == 7,
        "cue_in"@.len() == 6 && "cue_out"@.len() == 7 && "fade_in"@.len() == 7
            && "fade_out"@.len() == 8,
        "start_next"@.len() == 10 && "liq_"@.len() == 4,
        "append"@[0] == 'a' && "prepend"@[0] == 'p' && "amplify"@[0] == 'a' && "cue_in"@[0] == 'c',
        "cue_out"@[0] == 'c' && "fade_in"@[0] == 'f' && "fade_out"@[0] == 'f' && "start_next"@[0]
            == 's' && "liq_"@[0] == 'l',
{
    reveal_strlit("title");
    reveal_strlit("append");
    reveal_strlit("prepend");
    reveal_strlit("amplify");
    reveal_strlit("cue_in");
    reveal_strlit("cue_out");
    reveal_strlit("fade_in");
    reveal_strlit("fade_out");
    reveal_strlit("start_next");
    reveal_strlit("liq_");
}

proof fn lemma_long_keys()
    ensures
        forall|k: Seq<char>| #[trigger] ("liq_"@ + k).len() == 4 + k.len(),
        forall|k: Seq<char>| #[trigger] ("liq_"@ + k)[0] == 'l',
        forall|k: Seq<char>, j: Seq<char>|
            #[trigger] ("liq_"@ + k) == #[trigger] ("liq_"@ + j) ==> k == j,
{
    lemma_cue_keys();
    assert forall|k: Seq<char>, j: Seq<char>|
        #[trigger] ("liq_"@ + k) == #[trigger] ("liq_"@ + j) implies k == j by {
        assert(("liq_"@ + k).skip(4) =~= k);
        assert(("liq_"@ + j).skip(4) =~= j);
    }
}

/// Each annotation sets the cue point that it names, to the number in its
/// value, and no other one; the cue points and fades also where `liq_` stands
/// in front of the name.
pub proof fn law_annotations_set_what_they_name(c: CuesView, value: Seq<char>, v: u64, r: Reading)
    requires
        r.number == Some(v),
        is_finite(v),
        v != NEG_ZERO,
    ensures
        cues_with(c, FieldView { key: "cue_in"@, value }, r) == Some(CuesView { cue_in: v, ..c }),
        cues_with(c, FieldView { key: "liq_"@ + "cue_in"@, value }, r) == Some(
            CuesView { cue_in: v, ..c },
        ),
        cues_with(c, FieldView { key: "cue_out"@, value }, r) == Some(
            CuesView { cue_out: Some(v), ..c },
        ),
        cues_with(c, FieldView { key: "liq_"@ + "cue_out"@, value }, r) == Some(
            CuesView { cue_out: Some(v), ..c },
        ),
        cues_with(c, FieldView { key: "fade_in"@, value }, r) == Some(
            CuesView { fade_in: Some(v), ..c },
        ),
        cues_with(c, FieldView { key: "liq_"@ + "fade_in"@, value }, r) == Some(
            CuesView { fade_in: Some(v), ..c },
        ),
        cues_with(c, FieldView { key: "fade_out"@, value }, r) == Some(
            CuesView { fade_out: Some(v), ..c },
        ),
        cues_with(c, FieldView { key: "liq_"@ + "fade_out"@, value }, r) == Some(
            CuesView { fade_out: Some(v), ..c },
        ),
        cues_with(c, FieldView { key: "start_next"@, value }, r) == Some(
            CuesView { start_next: Some(v), ..c },
        ),
        cues_with(c, FieldView { key: "amplify"@, value }, r) == Some(
            CuesView { amplify: Some(v), ..c },
        ),
{
    lemma_cue_keys();
    lemma_long_keys();
}

/// A text annotation sets its text, unless it is empty; an amplification in
/// decibels sets the factor that they stand for; an annotation of any other
/// name sets nothing.
pub proof fn law_text_annotations(c: CuesView, f: FieldView, r: Reading)
    ensures
        f.value.len() > 0 ==> {
            &&& cues_with(c, FieldView { key: "title"@, ..f }, r) == Some(
                CuesView { title: Some(f.value), ..c },
            )
            &&& cues_with(c, FieldView { key: "append"@, ..f }, r) == Some(
                CuesView { append: Some(f.value), ..c },
            )
            &&& cues_with(c, FieldView { key: "prepend"@, ..f }, r) == Some(
                CuesView { prepend: Some(f.value), ..c },
            )
        },
        f.value.len() == 0 ==> {
            &&& cues_with(c, FieldView { key: "title"@, ..f }, r) is None
            &&& cues_with(c, FieldView { key: "append"@, ..f }, r) is None
            &&& cues_with(c, FieldView { key: "prepend"@, ..f }, r) is None
        },
        r.number is None ==> (r.decibels matches Some((db, gain)) ==> {
            &&& is_finite(db) ==> cues_with(c, FieldView { key: "amplify"@, ..f }, r) == Some(
                CuesView { amplify: Some(gain), ..c },
            )
            &&& !is_finite(db) ==> cues_with(c, FieldView { key: "amplify"@, ..f }, r) is None
        }),
        cues_with(c, f, r) is Some ==> {
            ||| f.key == "title"@ || f.key == "append"@ || f.key == "prepend"@ || f.key
                == "amplify"@ || f.key == "start_next"@
            ||| f.key == "cue_in"@ || f.key == "cue_out"@ || f.key == "fade_in"@ || f.key
                == "fade_out"@
            ||| f.key == "liq_"@ + "cue_in"@ || f.key == "liq_"@ + "cue_out"@ || f.key == "liq_"@
                + "fade_in"@ || f.key == "liq_"@ + "fade_out"@
        },
{
    lemma_cue_keys();
    lemma_long_keys();
}

/// The annotations of a request are applied one after the other, so that a
/// later one wins: with one more annotation the cue points are those before it
/// with what it sets, and it counts even where none before it did.
pub proof fn law_later_annotations_win(fields: Seq<FieldView>, readings: Seq<Reading>, n: nat)
    requires
        n < fields.len(),
        n < readings.len(),
    ensures
        ({
            let before = cues_after(fields, readings, n);
            let after = cues_after(fields, readings, n + 1);
            let v = readings[n as int].number;
            &&& n == 0 ==> before is None
            &&& before is Some ==> after is Some
            &&& fields[n as int].key == "cue_out"@ && (v matches Some(b) && is_finite(b) && b
                != NEG_ZERO) ==> {
                &&& after is Some
                &&& (after->0).cue_out == v
                &&& before is Some ==> after->0 == (CuesView { cue_out: v, ..before->0 })
                &&& before is None ==> after->0 == (CuesView { cue_out: v, ..no_cues() })
            }
            &&& fields[n as int].key == "title"@ && fields[n as int].value.len() > 0 ==> {
                &&& after is Some
                &&& (after->0).title == Some(fields[n as int].value)
                &&& before is Some ==> after->0 == (CuesView {
                    title: Some(fields[n as int].value),
                    ..before->0
                })
            }
        }),
{
    lemma_cue_keys();
    lemma_long_keys();
}

/// A finite number and its sign: an exponent of all ones is none.
pub proof fn law_finite_numbers(bits: u64)
    ensures
        is_finite(bits) <==> !(0x7ff0_0000_0000_0000 <= bits < 0x8000_0000_0000_0000 || bits
            >= 0xfff0_0000_0000_0000),
        cue_number(Reading { number: Some(NEG_ZERO), decibels: None }) == Some(0u64),
{
}

/// A request is a download exactly where its bare text starts with a scheme of
/// the web; text and cue points are those of the annotated URI.
pub proof fn law_requests_by_scheme(
    fields: Seq<FieldView>,
    bare: Seq<char>,
    readings: Seq<Reading>,
)
    requires
        fields.len() > 0,
        forall|i: int| 0 <= i < fields.len() ==> valid_field(#[trigger] fields[i]),
        bare.len() > 0,
    ensures
        ({
            let cues = cues_after(fields, readings, fields.len());
            let r = request_of("annotate:"@ + annotation_text(fields, bare), readings);
            &&& has_prefix(bare, "http://"@) || has_prefix(bare, "https://"@) ==> r
                == RequestView::Url(bare, cues)
            &&& !has_prefix(bare, "http://"@) && !has_prefix(bare, "https://"@) ==> r
                == RequestView::Local(bare, cues)
        }),
        !has_prefix(bare, "annotate:"@) ==> {
            &&& has_prefix(bare, "http://"@) || has_prefix(bare, "https://"@) ==> request_of(
                bare,
                readings,
            ) == RequestView::Url(bare, None)
            &&& !has_prefix(bare, "http://"@) && !has_prefix(bare, "https://"@) ==> request_of(
                bare,
                readings,
            ) == RequestView::Local(bare, None)
        },
{
    law_annotations_read_back(fields, bare);
}

/// The label of a file is its name without the directories in front and the
/// extension behind; that of a download is the last segment of its path,
/// without the query.
pub proof fn law_labels(
    dir: Seq<char>,
    stem: Seq<char>,
    ext: Seq<char>,
    query: Seq<char>,
    cues: Option<CuesView>,
)
    requires
        stem.len() > 0,
        forall|i: int| 0 <= i < stem.len() ==> #[trigger] stem[i] != '/' && stem[i] != '?',
        forall|i: int| 0 <= i < ext.len() ==> #[trigger] ext[i] != '/' && ext[i] != '.' && ext[i]
            != '?',
        ext.len() > 0,
    ensures
        ({
            let name = stem + seq!['.'] + ext;
            let path = dir + seq!['/'] + name;
            &&& file_name_of(path) == Some(name)
            &&& file_name_of(name) == Some(name)
            &&& extension_of(name) == Some(ext)
            &&& request_label(RequestView::Local(path, cues)) == stem
            &&& request_label(RequestView::Local(name, cues)) == stem
            &&& (forall|i: int| 0 <= i < dir.len() ==> #[trigger] dir[i] != '?') ==> {
                &&& request_label(RequestView::Url(path, cues)) == name
                &&& request_label(RequestView::Url(path + seq!['?'] + query, cues)) == name
            }
        }),
{
    let name = stem + seq!['.'] + ext;
    let path = dir + seq!['/'] + name;
    let keep = |p: Seq<char>| p.len() > 0 && p != seq!['.'];
    assert forall|i: int| 0 <= i < name.len() implies #[trigger] name[i] != '/' && name[i] != '?' by {
        if i < stem.len() {
            assert(stem[i] != '/' && stem[i] != '?');
        } else if i > stem.len() {
            assert(ext[i - stem.len() - 1] != '/' && ext[i - stem.len() - 1] != '?');
        }
    }
    assert(name.len() > 2);
    crate::text::lemma_split_joined(dir, '/', name);
    crate::text::lemma_split_whole(name, '/');
    lemma_filter_last(split_all(dir, '/'), name, keep);
    lemma_filter_last(Seq::empty(), name, keep);
    assert(Seq::<Seq<char>>::empty().push(name) =~= seq![name]);
    assert forall|i: int| 0 <= i < ext.len() implies #[trigger] ext[i] != '.' by {
    }
    crate::text::lemma_split_last_at(stem, '.', ext);
    assert(name.take(stem.len() as int) =~= stem);
    assert(name.skip(stem.len() as int + 1) =~= ext);
    if forall|i: int| 0 <= i < dir.len() ==> #[trigger] dir[i] != '?' {
        assert forall|i: int| 0 <= i < path.len() implies #[trigger] path[i] != '?' by {
            if i < dir.len() {
                assert(dir[i] != '?');
            } else if i > dir.len() {
                assert(name[i - dir.len() - 1] != '?');
            }
        }
        crate::text::lemma_split_whole(path, '?');
        crate::text::lemma_split_first_at(path, '?', query);
        crate::text::lemma_split_last_at(dir, '/', name);
    }
}

proof fn lemma_filter_last(s: Seq<Seq<char>>, x: Seq<char>, keep: spec_fn(Seq<char>) -> bool)
    requires
        keep(x),
    ensures
        s.push(x).filter(keep).len() > 0,
        s.push(x).filter(keep).last() == x,
{
    reveal(Seq::filter);
    assert(s.push(x).drop_last() =~= s);
}

/// Local files come before downloads, and a request without cue points before
/// the same one with them; files are in the order of their paths, and
/// downloads in that of their texts.
pub proof fn law_order_of_requests(p: Seq<char>, q: Seq<char>, x: Option<CuesView>, c: CuesView)
    ensures
        request_order(RequestView::Local(p, x), RequestView::Url(q, x)) == Ordering::Less,
        request_order(RequestView::Local(p, None), RequestView::Local(p, Some(c)))
            == Ordering::Less,
        request_order(RequestView::Url(p, None), RequestView::Url(p, Some(c))) == Ordering::Less,
        path_order(p, q) != Ordering::Equal ==> request_order(
            RequestView::Local(p, x),
            RequestView::Local(q, Some(c)),
        ) == path_order(p, q),
        text_order(p, q) != Ordering::Equal ==> request_order(
            RequestView::Url(p, x),
            RequestView::Url(q, Some(c)),
        ) == text_order(p, q),
{
    law_paths_are_ordered(p, p, p);
    law_texts_are_ordered(p, p, p);
}

/// The temporary files of one process differ from download to download, and
/// those of one URL start alike.
pub proof fn law_temporary_files_differ(url: Seq<char>, other: Seq<char>, m: u64, n: u64)
    ensures
        m != n ==> temp_name_of(url, m) != temp_name_of(other, n),
        temp_name_of(url, m).take(17) == temp_name_of(url, n).take(17),
        crate::text::has_suffix(temp_name_of(url, m), ".part"@),
{
    let a = hex_fixed(fnv(vstd::utf8::encode_utf8(url)) as nat, 16);
    let b = hex_fixed(fnv(vstd::utf8::encode_utf8(other)) as nat, 16);
    crate::text::lemma_hex_len(fnv(vstd::utf8::encode_utf8(url)) as nat, 16);
    crate::text::lemma_hex_len(fnv(vstd::utf8::encode_utf8(other)) as nat, 16);
    reveal_strlit("-");
    reveal_strlit(".part");
    let x = temp_name_of(url, m);
    let y = temp_name_of(other, n);
    assert(x.skip(17).take(x.len() - 22) =~= dec(m as nat));
    assert(y.skip(17).take(y.len() - 22) =~= dec(n as nat));
    crate::text::lemma_dec_injective(m as nat, n as nat);
    assert(x.take(17) =~= a + "-"@);
    assert(temp_name_of(url, n).take(17) =~= a + "-"@);
    assert(x.skip(x.len() - 5) =~= ".part"@);
}

/// What stands in front of `dB` is the number of decibels, white space aside;
/// without the suffix there are none.
pub proof fn law_decibels(x: Seq<char>)
    requires
        x.len() > 0,
        !crate::text::is_space(x[0]),
        !crate::text::is_space(x.last()),
    ensures
        decibel_part(x + "dB"@) == Some(x),
        decibel_part(x + "db"@) == Some(x),
        decibel_part(x + " dB"@) == Some(x),
        x.last() != 'B' && x.last() != 'b' ==> decibel_part(x) is None,
{
    reveal_strlit("dB");
    reveal_strlit("db");
    reveal_strlit(" dB");
    let e = Seq::<char>::empty();
    let (a, b, c) = (x + "dB"@, x + "db"@, x + " dB"@);
    assert(crate::text::all_space(seq![' ']));
    crate::text::law_trim_takes_off_white_space(e, a, e);
    crate::text::law_trim_takes_off_white_space(e, b, e);
    crate::text::law_trim_takes_off_white_space(e, c, e);
    crate::text::law_trim_takes_off_white_space(e, x, e);
    crate::text::law_trim_takes_off_white_space(e, x, seq![' ']);
    assert(e + a + e =~= a && e + b + e =~= b && e + c + e =~= c && e + x + e =~= x);
    assert(e + x + seq![' '] =~= x + seq![' ']);
    assert(a.skip(a.len() - 2) =~= "dB"@);
    assert(b.skip(b.len() - 2) =~= "db"@);
    assert(c.skip(c.len() - 2) =~= "dB"@);
    assert(a.take(a.len() - 2) =~= x);
    assert(b.take(b.len() - 2) =~= x);
    assert(c.take(c.len() - 2) =~= x + seq![' ']);
    if x.last() != 'B' && x.last() != 'b' && x.len() >= 2 {
        assert(x.skip(x.len() - 2)[1] == x.last());
        assert("dB"@[1] == 'B' && "db"@[1] == 'b');
    }
}

/// Every numeric cue point is a finite number other than minus zero.
pub open spec fn sound_number(bits: u64) -> bool {
    is_finite(bits) && bits != NEG_ZERO
}

/// The numeric cue points read from annotations are finite and never minus
/// zero, so equal cue points have equal bit patterns. An amplification may
/// also be the factor that decibels stand for.
pub proof fn law_cue_numbers_are_sound(
    fields: Seq<FieldView>,
    readings: Seq<Reading>,
    n: nat,
)
    ensures
        cues_after(fields, readings, n) matches Some(c) ==> {
            &&& sound_number(c.cue_in)
            &&& c.cue_out matches Some(v) ==> sound_number(v)
            &&& c.fade_in matches Some(v) ==> sound_number(v)
            &&& c.fade_out matches Some(v) ==> sound_number(v)
            &&& c.start_next matches Some(v) ==> sound_number(v)
        },
    decreases n,
{
    if n > 0 {
        law_cue_numbers_are_sound(fields, readings, (n - 1) as nat);
    }
}

/// Every numeric cue point that counts for the order is a finite number other
/// than minus zero.
pub open spec fn sound_cues(c: Option<CuesView>) -> bool {
    c matches Some(x) ==> {
        &&& sound_number(x.cue_in)
        &&& x.cue_out matches Some(v) ==> sound_number(v)
        &&& x.fade_in matches Some(v) ==> sound_number(v)
        &&& x.fade_out matches Some(v) ==> sound_number(v)
    }
}

/// The gains of both are equal, and so are the starts of the tracks that
/// follow: the order does not look at either.
pub open spec fn same_unordered(a: Option<CuesView>, b: Option<CuesView>) -> bool {
    match (a, b) {
        (Some(x), Some(y)) => same_opt_number(x.amplify, y.amplify) && same_opt_number(
            x.start_next,
            y.start_next,
        ),
        _ => true,
    }
}

/// The cue points of a request.
pub open spec fn cues_of(r: RequestView) -> Option<CuesView> {
    match r {
        RequestView::Local(_, c) => c,
        RequestView::Url(_, c) => c,
    }
}

proof fn lemma_opt_order(a: Option<u64>, b: Option<u64>, c: Option<u64>)
    ensures
        opt_order(b, a) == reversed(opt_order(a, b)),
        opt_order(a, b) == Ordering::Equal <==> a == b,
        chained(opt_order(a, b), opt_order(b, c), opt_order(a, c)),
        (a matches Some(v) ==> sound_number(v)) && (b matches Some(v) ==> sound_number(v)) ==> (
        same_opt_number(a, b) <==> a == b),
{
}

proof fn lemma_opt_text_order(a: Option<Seq<char>>, b: Option<Seq<char>>, c: Option<Seq<char>>)
    ensures
        opt_text_order(b, a) == reversed(opt_text_order(a, b)),
        opt_text_order(a, b) == Ordering::Equal <==> a == b,
        chained(opt_text_order(a, b), opt_text_order(b, c), opt_text_order(a, c)),
{
    match (a, b, c) {
        (Some(x), Some(y), Some(z)) => law_texts_are_ordered(x, y, z),
        (Some(x), Some(y), None) => law_texts_are_ordered(x, y, y),
        _ => {},
    }
}

proof fn lemma_cues_order(a: Option<CuesView>, b: Option<CuesView>, c: Option<CuesView>)
    ensures
        cues_order(b, a) == reversed(cues_order(a, b)),
        chained(cues_order(a, b), cues_order(b, c), cues_order(a, c)),
        sound_cues(a) && sound_cues(b) && same_unordered(a, b) ==> (cues_order(a, b)
            == Ordering::Equal <==> same_opt_cues(a, b)),
{
    if a is Some && b is Some {
        let x = a->0;
        let y = b->0;
        let z = if c is Some {
            c->0
        } else {
            y
        };
        lemma_opt_order(x.cue_out, y.cue_out, z.cue_out);
        lemma_opt_order(x.fade_in, y.fade_in, z.fade_in);
        lemma_opt_order(x.fade_out, y.fade_out, z.fade_out);
        lemma_opt_order(Some(x.cue_in), Some(y.cue_in), Some(z.cue_in));
        lemma_opt_text_order(x.append, y.append, z.append);
        lemma_opt_text_order(x.prepend, y.prepend, z.prepend);
        lemma_opt_text_order(x.title, y.title, z.title);
    }
}

/// Requests are in a total order: it looks the same from both sides, and it
/// chains.
pub proof fn law_requests_are_ordered(a: RequestView, b: RequestView, c: RequestView)
    ensures
        request_order(b, a) == reversed(request_order(a, b)),
        chained(request_order(a, b), request_order(b, c), request_order(a, c)),
{
    lemma_cues_order(cues_of(a), cues_of(b), cues_of(c));
    let t = |r: RequestView|
        match r {
            RequestView::Local(p, _) => p,
            RequestView::Url(u, _) => u,
        };
    law_paths_are_ordered(t(a), t(b), t(c));
    law_texts_are_ordered(t(a), t(b), t(c));
}

/// Two requests share a place in the order exactly when they are equal, if
/// their numbers are as annotations give them. What the order does not look
/// at has to be equal.
pub proof fn law_order_agrees_with_equality(a: RequestView, b: RequestView)
    requires
        sound_cues(cues_of(a)),
        sound_cues(cues_of(b)),
        same_unordered(cues_of(a), cues_of(b)),
    ensures
        request_order(a, b) == Ordering::Equal <==> same_request(a, b),
{
    lemma_cues_order(cues_of(a), cues_of(b), cues_of(b));
    match (a, b) {
        (RequestView::Local(p, _), RequestView::Local(q, _)) => law_paths_are_ordered(p, q, q),
        (RequestView::Url(u, _), RequestView::Url(v, _)) => law_texts_are_ordered(u, v, v),
        _ => {},
    }
}

} // verus!
